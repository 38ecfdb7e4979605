use gitanalyzer::error::Error;
use gitanalyzer::parser::extract_json;

#[test]
fn test_extract_json_from_markdown() {
    let input = "Here's the analysis:\n```json\n{\"skills\": []}\n```\n";
    let result = extract_json(input).unwrap();
    assert_eq!(result, "{\"skills\": []}");
}

#[test]
fn test_extract_raw_json() {
    let input = "The result is {\"skills\": [], \"patterns\": []}";
    let result = extract_json(input).unwrap();
    assert_eq!(result, "{\"skills\": [], \"patterns\": []}");
}

#[test]
fn fenced_and_raw_objects_parse_alike() {
    let object = "{\"skills\": [{\"name\": \"Rust\", \"confidence\": 0.9}], \"domain_signals\": [\"backend\"]}";
    let fenced = format!("Analysis follows.\n```json\n{}\n```\nDone.", object);
    let raw = format!("Analysis follows: {} Done.", object);
    let a = extract_json(&fenced).unwrap();
    let b = extract_json(&raw).unwrap();
    let va: serde_json::Value = serde_json::from_str(&a).unwrap();
    let vb: serde_json::Value = serde_json::from_str(&b).unwrap();
    assert_eq!(va, vb);
}

#[test]
fn plain_fence_with_object_is_used() {
    let input = "```\n  {\"a\": 1}  \n```";
    assert_eq!(extract_json(input).unwrap(), "{\"a\": 1}");
}

#[test]
fn plain_fence_without_object_falls_back_to_scan() {
    let input = "```\nnot json\n``` then {\"b\": 2}";
    assert_eq!(extract_json(input).unwrap(), "{\"b\": 2}");
}

#[test]
fn braces_inside_strings_are_text() {
    let input = "x {\"s\": \"a } b \\\" { c\", \"n\": {\"m\": 1}} tail }";
    assert_eq!(extract_json(input).unwrap(), "{\"s\": \"a } b \\\" { c\", \"n\": {\"m\": 1}}");
}

#[test]
fn unbalanced_object_is_an_error() {
    match extract_json("no object here { \"a\": 1") {
        Err(Error::ParseError(m)) => assert_eq!(m, "No valid JSON found in response"),
        other => panic!("unexpected {:?}", other),
    }
}

#[test]
fn empty_response_is_an_error() {
    assert!(matches!(extract_json(""), Err(Error::ParseError(_))));
}
