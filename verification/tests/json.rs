use noull_pm::json::{is_well_braced, json_array, json_first_result, json_str};

#[test]
fn first_object_is_found_by_its_braces() {
    let body = "x{\"results\":[ {\"a\":{\"b\":1}},{\"c\":2}]}";
    assert!(is_well_braced(body));
    assert_eq!(json_first_result(body), Some("{\"a\":{\"b\":1}}".to_string()));
}

#[test]
fn no_object_is_found() {
    for body in ["", "{}", "\"results\":[]", "\"results\":[ \n ]", "\"results\":[{", "\"results\":[x"] {
        assert!(is_well_braced(body), "{body:?}");
        assert_eq!(json_first_result(body), None, "{body:?}");
    }
}

#[test]
fn a_brace_that_closes_nothing_is_told() {
    assert!(!is_well_braced("\"results\":[}"));
    assert!(!is_well_braced("\"results\":[x}{}"));
    assert!(is_well_braced("}\"results\":[{}}"));
}

#[test]
fn strings_are_unescaped() {
    let obj = "{\"A\":\"x\\\\y\\\"z\\n\\t\\u003e\\u00e9\",\"B\":\"open";
    assert_eq!(json_str(obj, "A"), Some("x\\y\"z\nt>é".to_string()));
    assert_eq!(json_str(obj, "B"), None);
    assert_eq!(json_str(obj, "C"), None);
}

#[test]
fn escapes_that_are_no_characters_are_dropped() {
    assert_eq!(json_str("\"k\":\"a\\ud800b\"", "k"), Some("ab".to_string()));
    assert_eq!(json_str("\"k\":\"a\\uzzzzb\"", "k"), Some("ab".to_string()));
    assert_eq!(json_str("\"k\":\"a\\u+041b\"", "k"), Some("aAb".to_string()));
    assert_eq!(json_str("\"k\":\"a\\u12", "k"), None);
    assert_eq!(json_str("\"k\":\"a\\", "k"), None);
}

#[test]
fn arrays_are_read() {
    let strings = |list: &[&str]| -> Vec<String> { list.iter().map(|s| s.to_string()).collect() };
    assert_eq!(json_array("\"D\":[\"a\\u003e=1\", \"b\\\\c\"]", "D"), strings(&["a>=1", "b\\c"]));
    assert_eq!(json_array("\"D\":[]", "D"), strings(&[]));
    assert_eq!(json_array("\"D\":[\"a\"", "D"), strings(&[]));
    assert_eq!(json_array("\"E\":[\"a\"]", "D"), strings(&[]));
    assert_eq!(json_array("\"D\":[\"a\",\"b]c\"]", "D"), strings(&["a"]));
    assert_eq!(json_array("\"D\":[\"\",\"x\"]", "D"), strings(&["", "x"]));
}
