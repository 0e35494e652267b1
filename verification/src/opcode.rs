//! The bytecode: instructions, constant pools and compiled functions.
use vstd::prelude::*;
use crate::text::{chars_eq_str, concat, decimal, dec_digits};

verus! {

/// A single bytecode instruction.
#[derive(Debug, Clone, Copy, PartialEq, Eq)]
pub enum OpCode {
    PushConst(u32),
    Dup,
    Pop,
    LoadLocal(u32),
    StoreLocal(u32),
    LoadGlobal(u32),
    StoreGlobal(u32),
    Add,
    Sub,
    Mul,
    Div,
    Mod,
    Eq,
    Ne,
    Lt,
    Gt,
    Le,
    Ge,
    Jump(usize),
    JumpIfFalse(usize),
    JumpIfTrue(usize),
    JumpIfFalsePop(usize),
    JumpIfTruePop(usize),
    ToBool,
    /// Pushes the marker that `MakeArray` collects back to.
    PushDepthMarker,
    /// Pops everything down to the marker into an array.
    MakeArray,
    MakeObject(u16),
    Index,
    GetProperty(u32),
    Spread,
    /// Pushes a closure for the function at this index.
    MakeClosure(u32),
    Call(u16),
    /// A call with spread arguments (the count of the others).
    CallSpread(u16),
    TailCall(u16),
    TailCallSpread(u16),
    /// Creates a promise and calls its executor with resolve and reject.
    MakePromise,
    MethodCall(u16),
    Return,
}

/// A constant in a chunk's pool. A number keeps the characters of its literal.
#[derive(Debug, Clone, PartialEq)]
pub enum Constant {
    Number(String),
    Str(String),
    Bool(bool),
}

pub enum ConstantV {
    Number(Seq<char>),
    Str(Seq<char>),
    Bool(bool),
}

impl View for Constant {
    type V = ConstantV;

    open spec fn view(&self) -> ConstantV {
        match self {
            Constant::Number(s) => ConstantV::Number(s@),
            Constant::Str(s) => ConstantV::Str(s@),
            Constant::Bool(b) => ConstantV::Bool(*b),
        }
    }
}

/// A chunk as a value.
pub struct ChunkV {
    pub code: Seq<OpCode>,
    pub constants: Seq<ConstantV>,
    pub properties: Seq<Seq<char>>,
    pub globals: Seq<Seq<char>>,
}

/// A compiled chunk of bytecode with its pools.
#[derive(Debug, Clone)]
pub struct Chunk {
    pub code: Vec<OpCode>,
    pub constants: Vec<Constant>,
    pub properties: Vec<String>,
    pub globals: Vec<String>,
}

pub open spec fn constants_v(cs: Seq<Constant>) -> Seq<ConstantV> {
    cs.map_values(|c: Constant| c@)
}

pub open spec fn names_v(ns: Seq<String>) -> Seq<Seq<char>> {
    ns.map_values(|s: String| s@)
}

impl View for Chunk {
    type V = ChunkV;

    open spec fn view(&self) -> ChunkV {
        ChunkV {
            code: self.code@,
            constants: constants_v(self.constants@),
            properties: names_v(self.properties@),
            globals: names_v(self.globals@),
        }
    }
}

/// The first index at which `k` occurs in `s`.
pub open spec fn first_index(s: Seq<Seq<char>>, k: Seq<char>) -> Option<int>
    decreases s.len(),
{
    if s.len() == 0 {
        None
    } else if s[0] == k {
        Some(0)
    } else {
        match first_index(s.drop_first(), k) {
            Some(i) => Some(i + 1),
            None => None,
        }
    }
}

pub proof fn lemma_first_index(s: Seq<Seq<char>>, k: Seq<char>)
    ensures
        first_index(s, k) matches Some(i) ==> 0 <= i < s.len() && s[i] == k && forall|j: int|
            0 <= j < i ==> s[j] != k,
        first_index(s, k) is None ==> forall|j: int| 0 <= j < s.len() ==> s[j] != k,
    decreases s.len(),
{
    if s.len() > 0 {
        lemma_first_index(s.drop_first(), k);
        if s[0] != k {
            assert forall|j: int| 0 < j < s.len() implies s[j] == s.drop_first()[j - 1] by {}
        }
    }
}

/// Interning `k` in the pool `s`: its first index and the pool after, which gains
/// `k` at its end when it was not there.
pub open spec fn intern(s: Seq<Seq<char>>, k: Seq<char>) -> (int, Seq<Seq<char>>) {
    match first_index(s, k) {
        Some(i) => (i, s),
        None => (s.len() as int, s.push(k)),
    }
}

/// Whether an instruction can be the target of `patch_jump`.
pub open spec fn patchable(op: OpCode) -> bool {
    match op {
        OpCode::Jump(_) | OpCode::JumpIfFalse(_) | OpCode::JumpIfTrue(_)
        | OpCode::JumpIfFalsePop(_) | OpCode::JumpIfTruePop(_) | OpCode::ToBool => true,
        _ => false,
    }
}

/// A jump instruction with its target replaced (`ToBool` stays as it is).
pub open spec fn with_target(op: OpCode, target: usize) -> OpCode {
    match op {
        OpCode::Jump(_) => OpCode::Jump(target),
        OpCode::JumpIfFalse(_) => OpCode::JumpIfFalse(target),
        OpCode::JumpIfTrue(_) => OpCode::JumpIfTrue(target),
        OpCode::JumpIfFalsePop(_) => OpCode::JumpIfFalsePop(target),
        OpCode::JumpIfTruePop(_) => OpCode::JumpIfTruePop(target),
        other => other,
    }
}

impl Chunk {
    /// An empty chunk.
    pub fn new() -> (c: Self)
        ensures
            c@.code == Seq::<OpCode>::empty(),
            c@.constants == Seq::<ConstantV>::empty(),
            c@.properties == Seq::<Seq<char>>::empty(),
            c@.globals == Seq::<Seq<char>>::empty(),
    {
        let c = Chunk {
            code: Vec::new(),
            constants: Vec::new(),
            properties: Vec::new(),
            globals: Vec::new(),
        };
        assert(c@.constants =~= Seq::<ConstantV>::empty());
        assert(c@.properties =~= Seq::<Seq<char>>::empty());
        assert(c@.globals =~= Seq::<Seq<char>>::empty());
        c
    }

    /// Appends a constant; returns its index (as `u32`).
    pub fn add_constant(&mut self, val: Constant) -> (idx: u32)
        ensures
            idx == old(self).constants@.len() as u32,
            final(self)@.constants == old(self)@.constants.push(val@),
            final(self)@.code == old(self)@.code,
            final(self)@.properties == old(self)@.properties,
            final(self)@.globals == old(self)@.globals,
    {
        let idx = self.constants.len() as u32;
        let ghost old_c = self.constants@;
        self.constants.push(val);
        assert(constants_v(self.constants@) =~= constants_v(old_c).push(val@));
        idx
    }

    /// The index of the property name `name`, added to the pool when new.
    pub fn add_property(&mut self, name: &str) -> (idx: u32)
        ensures
            idx == intern(old(self)@.properties, name@).0 as u32,
            final(self)@.properties == intern(old(self)@.properties, name@).1,
            final(self)@.code == old(self)@.code,
            final(self)@.constants == old(self)@.constants,
            final(self)@.globals == old(self)@.globals,
    {
        let ghost before = self@;
        let (idx, pushed) = intern_name(&mut self.properties, name);
        idx
    }

    /// The index of the global name `name`, added to the pool when new.
    pub fn add_global(&mut self, name: &str) -> (idx: u32)
        ensures
            idx == intern(old(self)@.globals, name@).0 as u32,
            final(self)@.globals == intern(old(self)@.globals, name@).1,
            final(self)@.code == old(self)@.code,
            final(self)@.constants == old(self)@.constants,
            final(self)@.properties == old(self)@.properties,
    {
        let (idx, pushed) = intern_name(&mut self.globals, name);
        idx
    }

    /// Appends an instruction.
    pub fn emit(&mut self, op: OpCode)
        ensures
            final(self)@.code == old(self)@.code.push(op),
            final(self)@.constants == old(self)@.constants,
            final(self)@.properties == old(self)@.properties,
            final(self)@.globals == old(self)@.globals,
    {
        self.code.push(op);
    }

    /// Sets the target of the jump at `offset` (an offset past the end changes
    /// nothing; `ToBool` is left as it is).
    pub fn patch_jump(&mut self, offset: usize, target: usize)
        requires
            offset < old(self)@.code.len() ==> patchable(old(self)@.code[offset as int]),
        ensures
            final(self)@.code == (if offset < old(self)@.code.len() {
                old(self)@.code.update(offset as int, with_target(old(self)@.code[offset as int], target))
            } else {
                old(self)@.code
            }),
            final(self)@.constants == old(self)@.constants,
            final(self)@.properties == old(self)@.properties,
            final(self)@.globals == old(self)@.globals,
    {
        if offset < self.code.len() {
            let op = self.code[offset];
            let patched = match op {
                OpCode::JumpIfFalse(_) => OpCode::JumpIfFalse(target),
                OpCode::JumpIfTrue(_) => OpCode::JumpIfTrue(target),
                OpCode::Jump(_) => OpCode::Jump(target),
                OpCode::JumpIfFalsePop(_) => OpCode::JumpIfFalsePop(target),
                OpCode::JumpIfTruePop(_) => OpCode::JumpIfTruePop(target),
                other => other,
            };
            self.code.set(offset, patched);
        }
    }

    /// The index the next instruction will have.
    pub fn code_offset(&self) -> (n: usize)
        ensures
            n == self@.code.len(),
    {
        self.code.len()
    }
}

/// Interns `name` in a pool of names: returns its first index (as `u32`) and whether
/// it was appended.
fn intern_name(pool: &mut Vec<String>, name: &str) -> (r: (u32, bool))
    ensures
        r.0 == intern(names_v(old(pool)@), name@).0 as u32,
        names_v(final(pool)@) == intern(names_v(old(pool)@), name@).1,
{
    let ghost s = names_v(pool@);
    proof {
        lemma_first_index(s, name@);
    }
    let mut i: usize = 0;
    while i < pool.len()
        invariant
            i <= pool@.len(),
            s == names_v(pool@),
            pool@ == old(pool)@,
            forall|j: int| 0 <= j < i ==> s[j] != name@,
        decreases pool.len() - i,
    {
        if chars_eq_str(&crate::text::chars_of_string(&pool[i]), name) {
            proof {
                lemma_first_index(s, name@);
                assert(s[i as int] == name@);
                if first_index(s, name@) is None {
                } else {
                    let k = first_index(s, name@).unwrap();
                    if k < i {
                        assert(s[k] != name@);
                    }
                    if k > i {
                        assert(s[i as int] != name@);
                    }
                    assert(k == i);
                }
            }
            return (i as u32, false);
        }
        i = i + 1;
    }
    let idx = pool.len() as u32;
    pool.push(name.to_owned());
    proof {
        lemma_first_index(s, name@);
        if first_index(s, name@) is Some {
            let k = first_index(s, name@).unwrap();
            assert(s[k] != name@);
        }
        assert(first_index(s, name@) is None);
        assert(names_v(pool@) =~= s.push(name@));
    }
    (idx, true)
}

/// A compiled function as a value.
pub struct CompiledFunctionV {
    pub chunk: ChunkV,
    pub param_count: usize,
    pub name: Seq<char>,
    pub captured_slots: Seq<(usize, usize)>,
    pub rest_slot: Option<usize>,
    pub destructured_params: Seq<(usize, Seq<Seq<char>>)>,
    pub param_offset: usize,
    pub nesting_depth: usize,
}

/// A compiled bytecode function.
#[derive(Debug, Clone)]
pub struct CompiledFunction {
    pub chunk: Chunk,
    pub param_count: usize,
    pub name: String,
    /// `(slot in the enclosing frame, slot in this frame)` of each captured variable.
    pub captured_slots: Vec<(usize, usize)>,
    pub rest_slot: Option<usize>,
    pub destructured_params: Vec<(usize, Vec<String>)>,
    pub param_offset: usize,
    /// 0 for a top-level function, 1 for a nested one.
    pub nesting_depth: usize,
}

pub open spec fn destructured_v(ds: Seq<(usize, Vec<String>)>) -> Seq<(usize, Seq<Seq<char>>)> {
    ds.map_values(|d: (usize, Vec<String>)| (d.0, names_v(d.1@)))
}

impl View for CompiledFunction {
    type V = CompiledFunctionV;

    open spec fn view(&self) -> CompiledFunctionV {
        CompiledFunctionV {
            chunk: self.chunk@,
            param_count: self.param_count,
            name: self.name@,
            captured_slots: self.captured_slots@,
            rest_slot: self.rest_slot,
            destructured_params: destructured_v(self.destructured_params@),
            param_offset: self.param_offset,
            nesting_depth: self.nesting_depth,
        }
    }
}

pub open spec fn functions_v(fs: Seq<CompiledFunction>) -> Seq<CompiledFunctionV> {
    fs.map_values(|f: CompiledFunction| f@)
}

// ---------------------------------------------------------------------------
// Listings
// ---------------------------------------------------------------------------

/// `name` (which holds its opening parenthesis), `n` in decimal, then `)`.
fn with_arg(name: &str, n: u64) -> (r: String)
    ensures
        r@ == name@ + dec_digits(n as nat) + ")"@,
{
    let mut r = name.to_owned();
    r = concat(&r, decimal(n).as_str());
    concat(&r, ")")
}

impl OpCode {
    /// How an instruction is written in a listing: its name, and its operand in
    /// parentheses.
    pub open spec fn text(self) -> Seq<char> {
        match self {
            OpCode::PushConst(n) => "PushConst("@ + dec_digits(n as nat) + ")"@,
            OpCode::LoadLocal(n) => "LoadLocal("@ + dec_digits(n as nat) + ")"@,
            OpCode::StoreLocal(n) => "StoreLocal("@ + dec_digits(n as nat) + ")"@,
            OpCode::LoadGlobal(n) => "LoadGlobal("@ + dec_digits(n as nat) + ")"@,
            OpCode::StoreGlobal(n) => "StoreGlobal("@ + dec_digits(n as nat) + ")"@,
            OpCode::Jump(n) => "Jump("@ + dec_digits(n as nat) + ")"@,
            OpCode::JumpIfFalse(n) => "JumpIfFalse("@ + dec_digits(n as nat) + ")"@,
            OpCode::JumpIfTrue(n) => "JumpIfTrue("@ + dec_digits(n as nat) + ")"@,
            OpCode::JumpIfFalsePop(n) => "JumpIfFalsePop("@ + dec_digits(n as nat) + ")"@,
            OpCode::JumpIfTruePop(n) => "JumpIfTruePop("@ + dec_digits(n as nat) + ")"@,
            OpCode::MakeObject(n) => "MakeObject("@ + dec_digits(n as nat) + ")"@,
            OpCode::GetProperty(n) => "GetProperty("@ + dec_digits(n as nat) + ")"@,
            OpCode::MakeClosure(n) => "MakeClosure("@ + dec_digits(n as nat) + ")"@,
            OpCode::Call(n) => "Call("@ + dec_digits(n as nat) + ")"@,
            OpCode::CallSpread(n) => "CallSpread("@ + dec_digits(n as nat) + ")"@,
            OpCode::TailCall(n) => "TailCall("@ + dec_digits(n as nat) + ")"@,
            OpCode::TailCallSpread(n) => "TailCallSpread("@ + dec_digits(n as nat) + ")"@,
            OpCode::MethodCall(n) => "MethodCall("@ + dec_digits(n as nat) + ")"@,
            OpCode::Dup => "Dup"@,
            OpCode::Pop => "Pop"@,
            OpCode::Add => "Add"@,
            OpCode::Sub => "Sub"@,
            OpCode::Mul => "Mul"@,
            OpCode::Div => "Div"@,
            OpCode::Mod => "Mod"@,
            OpCode::Eq => "Eq"@,
            OpCode::Ne => "Ne"@,
            OpCode::Lt => "Lt"@,
            OpCode::Gt => "Gt"@,
            OpCode::Le => "Le"@,
            OpCode::Ge => "Ge"@,
            OpCode::ToBool => "ToBool"@,
            OpCode::PushDepthMarker => "PushDepthMarker"@,
            OpCode::MakeArray => "MakeArray"@,
            OpCode::Index => "Index"@,
            OpCode::Spread => "Spread"@,
            OpCode::MakePromise => "MakePromise"@,
            OpCode::Return => "Return"@,
        }
    }

    /// The instruction written as in a listing.
    pub fn describe(&self) -> (r: String)
        ensures
            r@ == self.text(),
    {
        match self {
            OpCode::PushConst(n) => with_arg("PushConst(", *n as u64),
            OpCode::LoadLocal(n) => with_arg("LoadLocal(", *n as u64),
            OpCode::StoreLocal(n) => with_arg("StoreLocal(", *n as u64),
            OpCode::LoadGlobal(n) => with_arg("LoadGlobal(", *n as u64),
            OpCode::StoreGlobal(n) => with_arg("StoreGlobal(", *n as u64),
            OpCode::Jump(n) => with_arg("Jump(", *n as u64),
            OpCode::JumpIfFalse(n) => with_arg("JumpIfFalse(", *n as u64),
            OpCode::JumpIfTrue(n) => with_arg("JumpIfTrue(", *n as u64),
            OpCode::JumpIfFalsePop(n) => with_arg("JumpIfFalsePop(", *n as u64),
            OpCode::JumpIfTruePop(n) => with_arg("JumpIfTruePop(", *n as u64),
            OpCode::MakeObject(n) => with_arg("MakeObject(", *n as u64),
            OpCode::GetProperty(n) => with_arg("GetProperty(", *n as u64),
            OpCode::MakeClosure(n) => with_arg("MakeClosure(", *n as u64),
            OpCode::Call(n) => with_arg("Call(", *n as u64),
            OpCode::CallSpread(n) => with_arg("CallSpread(", *n as u64),
            OpCode::TailCall(n) => with_arg("TailCall(", *n as u64),
            OpCode::TailCallSpread(n) => with_arg("TailCallSpread(", *n as u64),
            OpCode::MethodCall(n) => with_arg("MethodCall(", *n as u64),
            OpCode::Dup => "Dup".to_owned(),
            OpCode::Pop => "Pop".to_owned(),
            OpCode::Add => "Add".to_owned(),
            OpCode::Sub => "Sub".to_owned(),
            OpCode::Mul => "Mul".to_owned(),
            OpCode::Div => "Div".to_owned(),
            OpCode::Mod => "Mod".to_owned(),
            OpCode::Eq => "Eq".to_owned(),
            OpCode::Ne => "Ne".to_owned(),
            OpCode::Lt => "Lt".to_owned(),
            OpCode::Gt => "Gt".to_owned(),
            OpCode::Le => "Le".to_owned(),
            OpCode::Ge => "Ge".to_owned(),
            OpCode::ToBool => "ToBool".to_owned(),
            OpCode::PushDepthMarker => "PushDepthMarker".to_owned(),
            OpCode::MakeArray => "MakeArray".to_owned(),
            OpCode::Index => "Index".to_owned(),
            OpCode::Spread => "Spread".to_owned(),
            OpCode::MakePromise => "MakePromise".to_owned(),
            OpCode::Return => "Return".to_owned(),
        }
    }
}

/// `s` right-aligned in a field of four characters.
pub open spec fn pad4(s: Seq<char>) -> Seq<char> {
    if s.len() < 4 {
        Seq::new((4 - s.len()) as nat, |i: int| ' ') + s
    } else {
        s
    }
}

/// The lines of a listing for the instructions `code[..k]`: each `  ` and its index
/// right-aligned in four characters, `: `, the instruction, and a line break.
pub open spec fn listing_lines(code: Seq<OpCode>, k: int) -> Seq<char>
    decreases k,
{
    if k <= 0 || k > code.len() {
        seq![]
    } else {
        listing_lines(code, k - 1) + "  "@ + pad4(dec_digits((k - 1) as nat)) + ": "@ + code[k
            - 1].text() + "\n"@
    }
}

/// The listing of a chunk named `name`: a blank line, a `== name ==` header, and a
/// line for each instruction.
pub open spec fn listing(name: Seq<char>, code: Seq<OpCode>) -> Seq<char> {
    "\n== "@ + name + " ==\n"@ + listing_lines(code, code.len() as int)
}

/// `s` right-aligned in a field of four characters.
fn padded4(s: String) -> (r: String)
    ensures
        r@ == pad4(s@),
{
    let chars = crate::text::chars_of_string(&s);
    if chars.len() >= 4 {
        return s;
    }
    let mut v: Vec<char> = Vec::new();
    let mut i: usize = 0;
    let pad = 4 - chars.len();
    while i < pad
        invariant
            i <= pad,
            pad == 4 - s@.len(),
            v@ == Seq::new(i as nat, |j: int| ' '),
        decreases pad - i,
    {
        v.push(' ');
        assert(v@ =~= Seq::new((i + 1) as nat, |j: int| ' '));
        i = i + 1;
    }
    let mut j: usize = 0;
    let ghost spaces = v@;
    while j < chars.len()
        invariant
            j <= chars@.len(),
            chars@ == s@,
            v@ == spaces + chars@.take(j as int),
        decreases chars.len() - j,
    {
        v.push(chars[j]);
        assert(v@ =~= spaces + chars@.take(j + 1));
        j = j + 1;
    }
    assert(chars@.take(chars@.len() as int) =~= chars@);
    crate::text::string_of(v.as_slice())
}

impl Chunk {
    /// The listing of the chunk's instructions under the heading `name`.
    pub fn disassemble(&self, name: &str) -> (r: String)
        ensures
            r@ == listing(name@, self@.code),
    {
        let mut r = "\n== ".to_owned();
        r = concat(&r, name);
        r = concat(&r, " ==\n");
        let ghost head = r@;
        let mut i: usize = 0;
        while i < self.code.len()
            invariant
                i <= self.code@.len(),
                r@ == head + listing_lines(self.code@, i as int),
            decreases self.code.len() - i,
        {
            r = concat(&r, "  ");
            r = concat(&r, padded4(decimal(i as u64)).as_str());
            r = concat(&r, ": ");
            r = concat(&r, self.code[i].describe().as_str());
            r = concat(&r, "\n");
            i = i + 1;
        }
        r
    }
}

} // verus!
