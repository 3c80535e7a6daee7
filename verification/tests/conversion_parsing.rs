use json_to_yaml::conversion::convert_to_yaml_string;

fn assert_contents_match(actual: &str, expected: &str) {
    let mut result_with_prefix_and_suffix = expected.trim().to_string();
    result_with_prefix_and_suffix.push_str("\n");
    result_with_prefix_and_suffix.insert_str(0, "---\n");
    assert_eq!(actual, result_with_prefix_and_suffix);
}

#[test]
fn conversion_it_converts_boolean() {
    let data = "true";
    let result =
        convert_to_yaml_string(&serde_json::from_str(data).expect("Could not parse data"));
    assert_contents_match(&result, "true");
}

#[test]
fn conversion_it_converts_numbers() {
    let data = "12";
    let result =
        convert_to_yaml_string(&serde_json::from_str(data).expect("Could not parse data"));
    assert_contents_match(&result, "12");
}

#[test]
fn conversion_it_converts_strings() {
    let data = "\"test\"";
    let result =
        convert_to_yaml_string(&serde_json::from_str(data).expect("Could not parse data"));
    assert_contents_match(&result, "test");
}

#[test]
fn conversion_it_converts_empty_string() {
    let data = "\"\"";
    let result =
        convert_to_yaml_string(&serde_json::from_str(data).expect("Could not parse data"));
    assert_contents_match(&result, "''");
}

#[test]
fn conversion_it_converts_an_array_with_one_element() {
    let data = "[1]";
    let result =
        convert_to_yaml_string(&serde_json::from_str(data).expect("Could not parse data"));
    assert_contents_match(&result, "- 1");
}

#[test]
fn conversion_it_converts_an_array_with_two_element() {
    let data = "[1, 2]";
    let result =
        convert_to_yaml_string(&serde_json::from_str(data).expect("Could not parse data"));
    assert_contents_match(&result, "- 1\n- 2");
}

#[test]
fn conversion_it_converts_an_array_with_all_primtive_elements() {
    let data = "[1, false, \"a potato\"]";
    let result =
        convert_to_yaml_string(&serde_json::from_str(data).expect("Could not parse data"));
    assert_contents_match(&result, "- 1\n- false\n- a potato");
}

#[test]
fn conversion_it_converts_nested_arrays() {
    let data = "[[1]]";
    let result =
        convert_to_yaml_string(&serde_json::from_str(data).expect("Could not parse data"));
    assert_contents_match(&result, "- - 1");
}

#[test]
fn conversion_it_converts_empty_arrays() {
    let data = "[]";
    let result =
        convert_to_yaml_string(&serde_json::from_str(data).expect("Could not parse data"));
    assert_contents_match(&result, "[]");
}

#[test]
fn conversion_it_converts_nested_empty_arrays() {
    let data = "[[], [], []]";
    let result =
        convert_to_yaml_string(&serde_json::from_str(data).expect("Could not parse data"));
    assert_contents_match(&result, "- []\n- []\n- []");
}

#[test]
fn conversion_it_converts_nested_arrays_with_multiple_values() {
    let data = "[[\"a\", 2]]";
    let result =
        convert_to_yaml_string(&serde_json::from_str(data).expect("Could not parse data"));
    assert_contents_match(&result, "- - a\n  - 2");
}

#[test]
fn conversion_it_handles_multiple_layers_of_nesting() {
    let data = "[[\"a\", [2, 3]]]";
    let result =
        convert_to_yaml_string(&serde_json::from_str(data).expect("Could not parse data"));
    assert_contents_match(&result, "- - a\n  - - 2\n    - 3");
}

#[test]
fn conversion_it_maps_objects_to_scalars() {
    let data = "{\"a\": 1}";
    let result =
        convert_to_yaml_string(&serde_json::from_str(data).expect("Could not parse data"));
    assert_contents_match(&result, "a: 1");
}

#[test]
fn conversion_it_maps_empty_objects() {
    let data = "{}";
    let result =
        convert_to_yaml_string(&serde_json::from_str(data).expect("Could not parse data"));
    assert_contents_match(&result, "{}");
}

#[test]
fn conversion_it_maps_objects_to_empty_objects() {
    let data = "{\"a\": {}}";
    let result =
        convert_to_yaml_string(&serde_json::from_str(data).expect("Could not parse data"));
    assert_contents_match(&result, "a: {}");
}

#[test]
fn conversion_it_maps_objects_to_nested_objects() {
    let data = "{\"a\": {\"b\": 2}}";
    let result =
        convert_to_yaml_string(&serde_json::from_str(data).expect("Could not parse data"));
    assert_contents_match(&result, "a:\n  b: 2");
}

#[test]
fn conversion_it_maps_objects_to_multiple_nested_objects() {
    let data = "{\"a\": {\"b\": 2, \"c\": 3}}";
    let result =
        convert_to_yaml_string(&serde_json::from_str(data).expect("Could not parse data"));
    assert_contents_match(&result, "a:\n  b: 2\n  c: 3");
}

#[test]
fn conversion_it_maps_objects_to_arrays() {
    let data = "{\"a\": [\"b\", \"c\"]}";
    let result =
        convert_to_yaml_string(&serde_json::from_str(data).expect("Could not parse data"));
    assert_contents_match(&result, "a:\n  - b\n  - c");
}

#[test]
fn conversion_it_maps_nested_objects_and_arrays() {
    let data = "{\"a\": [{\"key\": 1}, \"c\"]}";
    let result =
        convert_to_yaml_string(&serde_json::from_str(data).expect("Could not parse data"));
    assert_contents_match(&result, "a:\n  - key: 1\n  - c");
}

#[test]
fn it_works_with_a_two_element_object_in_an_array() {
    let data = "[{\"a\": 1, \"c\": 2}]";
    let result =
        convert_to_yaml_string(&serde_json::from_str(data).expect("Could not parse data"));
    assert_contents_match(&result, "- a: 1\n  c: 2");
}
