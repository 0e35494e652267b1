use djs::builtins::received_response;
use djs::json_tree::{
    json_parse_items, json_parse_pairs, json_parse_value, parse_response_body, with_error_context, JsonNode,
};

/// A compact rendering of a tree, to compare whole trees in one assertion.
fn show(n: &JsonNode) -> String {
    match n {
        JsonNode::Object(ms) => {
            let parts: Vec<String> = ms.iter().map(|(k, v)| format!("{}={}", k, show(v))).collect();
            format!("{{{}}}", parts.join(";"))
        }
        JsonNode::Array(xs) => {
            let parts: Vec<String> = xs.iter().map(show).collect();
            format!("[{}]", parts.join(";"))
        }
        JsonNode::Str(s) => format!("s:{}", s),
        JsonNode::Bool(b) => format!("b:{}", b),
        JsonNode::Null => "null".to_string(),
        JsonNode::Scalar(raw, t) => format!("n:{}|{}", raw, t),
        JsonNode::Missing => "missing".to_string(),
        JsonNode::Broken => "broken".to_string(),
    }
}

#[test]
fn json_reads_nested_object() {
    let tree = json_parse_value(" {\"a\": 1, \"b\": [true, null, \"x\"], \"c\": {\"d\": false}} ");
    assert_eq!(show(&tree), "{a=n:1|1;b=[b:true;null;s:x];c={d=b:false}}");
}

#[test]
fn json_keeps_number_text_for_the_number_parser() {
    assert_eq!(show(&json_parse_value("  -2.5e3 ")), "n:  -2.5e3 |-2.5e3");
    assert_eq!(show(&json_parse_value("[ 7 , abc ]")), "[n:7|7;n:abc|abc]");
}

#[test]
fn json_scalars_and_strings() {
    assert_eq!(show(&json_parse_value("true")), "b:true");
    assert_eq!(show(&json_parse_value("false")), "b:false");
    assert_eq!(show(&json_parse_value("null")), "null");
    assert_eq!(show(&json_parse_value("\"hi there\"")), "s:hi there");
    assert_eq!(show(&json_parse_value("\"\"")), "s:");
}

#[test]
fn json_lone_quote_is_broken() {
    assert_eq!(show(&json_parse_value(" \" ")), "broken");
}

#[test]
fn json_key_without_value_is_missing() {
    assert_eq!(show(&json_parse_value("{\"a\": 1, \"b\":}")), "{a=n:1|1;b=missing}");
    assert_eq!(show(&json_parse_value("{\"a\"}")), "{a=missing}");
}

#[test]
fn json_unclosed_string_is_broken() {
    assert_eq!(show(&json_parse_value("[1, \"ab]")), "[n:1|1;broken]");
    assert_eq!(show(&json_parse_value("{\"k\": \"v}")), "{k=broken}");
}

#[test]
fn json_empty_element_ends_the_array() {
    assert_eq!(show(&json_parse_value("[1, ]]")), "[n:1|1;n:|]");
    assert_eq!(show(&json_parse_value("[,1]")), "[n:|]");
}

#[test]
fn json_repeated_keys_stay_in_order() {
    let ms = json_parse_pairs("\"a\": 1, \"a\": 2");
    let keys: Vec<&str> = ms.iter().map(|(k, _)| k.as_str()).collect();
    assert_eq!(keys, vec!["a", "a"]);
    assert_eq!(show(&ms[1].1), "n:2|2");
}

#[test]
fn json_pairs_pass_over_text_before_a_key() {
    let ms = json_parse_pairs("xx \"k\" : [1] ");
    assert_eq!(ms.len(), 1);
    assert_eq!(ms[0].0, "k");
    assert_eq!(show(&ms[0].1), "[n:1|1]");
}

#[test]
fn json_items_of_empty_text() {
    assert!(json_parse_items("   ").is_empty());
    assert!(json_parse_pairs("").is_empty());
    assert_eq!(show(&json_parse_value("[]")), "[]");
    assert_eq!(show(&json_parse_value("{}")), "{}");
}

#[test]
fn json_reads_readme_example() {
    let tree = json_parse_value("{\"name\": \"max\", \"age\": 30}");
    assert_eq!(show(&tree), "{name=s:max;age=n:30|30}");
}

fn body_json(body: &str) -> Result<String, String> {
    let resp = received_response(200, "OK".into(), vec![], body.to_string());
    resp.json().map(|n| show(&n))
}

#[test]
fn response_json_reads_object_with_serde() {
    assert_eq!(body_json("  {\"b\": [1, 2.5, true], \"a\": null}\n").unwrap(), "{a=null;b=[n:1|1;n:2.5|2.5;b:true]}");
}

#[test]
fn response_json_reads_array_with_serde() {
    assert_eq!(body_json("[\"x\", {\"k\": -3}]").unwrap(), "[s:x;{k=n:-3|-3}]");
}

#[test]
fn response_json_reports_serde_errors() {
    let e = body_json("{bad").unwrap_err();
    assert!(e.starts_with("JSON parse error: "), "{}", e);
    assert!(e.len() > "JSON parse error: ".len());
    let e = body_json("[1, 2").unwrap_err();
    assert!(e.starts_with("JSON parse error: "), "{}", e);
}

#[test]
fn response_json_strips_quotes_from_strings() {
    assert_eq!(body_json(" \"hi\" ").unwrap(), "s:hi");
    assert_eq!(body_json("\"\"\"a\"b\"\"").unwrap(), "s:a\"b");
    assert_eq!(body_json("\"\"\"").unwrap(), "s:");
}

#[test]
fn response_json_reads_keywords() {
    assert_eq!(body_json("true").unwrap(), "b:true");
    assert_eq!(body_json(" false ").unwrap(), "b:false");
    assert_eq!(body_json("null").unwrap(), "null");
}

#[test]
fn response_json_keeps_other_text_for_the_number_parser() {
    assert_eq!(body_json(" 42 ").unwrap(), "n: 42 |42");
    assert_eq!(body_json("nope").unwrap(), "n:nope|nope");
    assert_eq!(body_json("").unwrap(), "n:|");
}

#[test]
fn response_body_json_reads_whole_body_with_serde() {
    let n = parse_response_body("{\"z\": 1, \"y\": \"w\"}").unwrap();
    assert_eq!(show(&n), "{y=s:w;z=n:1|1}");
    let n = parse_response_body(" 7 ").unwrap();
    assert_eq!(show(&n), "n:7|7");
    let e = parse_response_body("{\"a\":").unwrap_err();
    assert!(e.starts_with("Response.json(): "), "{}", e);
}

#[test]
fn error_context_goes_before_the_error_only() {
    let e = with_error_context(Err("boom".to_string()), "ctx: ").unwrap_err();
    assert_eq!(e, "ctx: boom");
    let n = with_error_context(Ok(JsonNode::Bool(true)), "ctx: ").unwrap();
    assert_eq!(show(&n), "b:true");
}
