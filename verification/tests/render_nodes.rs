use json_to_yaml::conversion::{
    convert_yaml_node_to_string, generate_string_for_array, generate_string_for_mapping,
    is_inline_node, render, render_marked,
};
use json_to_yaml::node::YamlNode;

fn number(text: &str) -> YamlNode {
    YamlNode::Number(text.to_string())
}

fn string(text: &str) -> YamlNode {
    YamlNode::String(text.to_string())
}

fn entry(key: &str, value: YamlNode) -> (String, YamlNode) {
    (key.to_string(), value)
}

#[test]
fn boolean_document() {
    assert_eq!(render(&YamlNode::Boolean(true)), "true\n");
    assert_eq!(render(&YamlNode::Boolean(false)), "false\n");
}

#[test]
fn two_numbers_document() {
    let value = YamlNode::Sequence(vec![number("1"), number("2")]);
    assert_eq!(render(&value), "- 1\n- 2\n");
}

#[test]
fn nested_single_number_document() {
    let value = YamlNode::Sequence(vec![YamlNode::Sequence(vec![number("1")])]);
    assert_eq!(render(&value), "- - 1\n");
}

#[test]
fn three_levels_of_sequences_document() {
    let value = YamlNode::Sequence(vec![YamlNode::Sequence(vec![
        string("a"),
        YamlNode::Sequence(vec![number("2"), number("3")]),
    ])]);
    assert_eq!(render(&value), "- - a\n  - - 2\n    - 3\n");
}

#[test]
fn nested_mapping_document() {
    let value = YamlNode::Mapping(vec![entry(
        "a",
        YamlNode::Mapping(vec![entry("b", number("2")), entry("c", number("3"))]),
    )]);
    assert_eq!(render(&value), "a:\n  b: 2\n  c: 3\n");
}

#[test]
fn mapping_inside_sequence_document() {
    let value = YamlNode::Sequence(vec![YamlNode::Mapping(vec![
        entry("a", number("1")),
        entry("c", number("2")),
    ])]);
    assert_eq!(render(&value), "- a: 1\n  c: 2\n");
}

#[test]
fn empty_sequence_as_mapping_value_document() {
    let value = YamlNode::Mapping(vec![entry("a", YamlNode::Sequence(vec![]))]);
    assert_eq!(render(&value), "a: []\n");
}

#[test]
fn singleton_scalar_sequences() {
    for scalar in [
        YamlNode::Boolean(true),
        YamlNode::Boolean(false),
        number("12"),
        number("-0.5e10"),
        string("a potato"),
        string("  leading"),
    ] {
        let text = match &scalar {
            YamlNode::Boolean(value) => value.to_string(),
            YamlNode::Number(text) => text.clone(),
            YamlNode::String(text) => text.clone(),
            _ => unreachable!(),
        };
        assert_eq!(
            render(&YamlNode::Sequence(vec![scalar])),
            format!("- {}\n", text)
        );
    }
}

#[test]
fn singleton_sequence_of_string_ending_in_whitespace_is_trimmed() {
    assert_eq!(render(&YamlNode::Sequence(vec![string("a ")])), "- a\n");
}

#[test]
fn empty_values_at_top_level() {
    assert_eq!(render(&string("")), "''\n");
    assert_eq!(render(&YamlNode::Sequence(vec![])), "[]\n");
    assert_eq!(render(&YamlNode::Mapping(vec![])), "{}\n");
}

#[test]
fn empty_values_as_sequence_elements() {
    let value = YamlNode::Sequence(vec![
        string(""),
        YamlNode::Sequence(vec![]),
        YamlNode::Mapping(vec![]),
    ]);
    assert_eq!(render(&value), "- ''\n- []\n- {}\n");
    assert_eq!(
        convert_yaml_node_to_string(&value, 4),
        "- ''\n    - []\n    - {}\n"
    );
}

#[test]
fn empty_values_as_mapping_values() {
    let value = YamlNode::Mapping(vec![
        entry("s", string("")),
        entry("l", YamlNode::Sequence(vec![])),
        entry("m", YamlNode::Mapping(vec![])),
    ]);
    assert_eq!(render(&value), "s: ''\nl: []\nm: {}\n");
    assert_eq!(
        convert_yaml_node_to_string(&value, 2),
        "s: ''\n  l: []\n  m: {}\n"
    );
}

#[test]
fn null_is_empty_text() {
    assert_eq!(render(&YamlNode::Null), "\n");
    assert_eq!(convert_yaml_node_to_string(&YamlNode::Null, 3), "\n");
    assert_eq!(
        render(&YamlNode::Sequence(vec![YamlNode::Null, number("1")])),
        "- \n- 1\n"
    );
    assert_eq!(
        render(&YamlNode::Mapping(vec![
            entry("a", YamlNode::Null),
            entry("b", number("1")),
        ])),
        "a: \nb: 1\n"
    );
}

#[test]
fn mapping_keeps_the_order_of_its_entries() {
    let value = YamlNode::Mapping(vec![
        entry("zebra", number("1")),
        entry("apple", number("2")),
        entry("mango", YamlNode::Sequence(vec![number("3")])),
        entry("berry", number("4")),
    ]);
    let text = render(&value);
    assert_eq!(text, "zebra: 1\napple: 2\nmango:\n  - 3\nberry: 4\n");
    let places: Vec<usize> = ["zebra:", "apple:", "mango:", "berry:"]
        .iter()
        .map(|key| text.find(key).unwrap())
        .collect();
    assert!(places.windows(2).all(|pair| pair[0] < pair[1]));
}

#[test]
fn later_entries_are_indented_to_the_depth() {
    let value = YamlNode::Mapping(vec![entry(
        "x",
        YamlNode::Mapping(vec![
            entry("a", number("1")),
            entry("b", YamlNode::Sequence(vec![number("1"), number("2")])),
            entry("c", YamlNode::Mapping(vec![entry("d", string("e"))])),
        ]),
    )]);
    assert_eq!(
        render(&value),
        "x:\n  a: 1\n  b:\n    - 1\n    - 2\n  c:\n    d: e\n"
    );
}

#[test]
fn nested_sequence_followed_by_an_element_leaves_no_blank_line() {
    let value = YamlNode::Sequence(vec![
        YamlNode::Sequence(vec![number("1")]),
        number("2"),
    ]);
    assert_eq!(render(&value), "- - 1\n- 2\n");
}

#[test]
fn mixed_nesting_has_no_blank_lines() {
    let value = YamlNode::Sequence(vec![
        YamlNode::Mapping(vec![
            entry("a", YamlNode::Sequence(vec![])),
            entry(
                "b",
                YamlNode::Sequence(vec![
                    YamlNode::Mapping(vec![]),
                    YamlNode::Sequence(vec![YamlNode::Null, string("")]),
                ]),
            ),
            entry("c", YamlNode::Mapping(vec![entry("d", YamlNode::Null)])),
        ]),
        YamlNode::Sequence(vec![YamlNode::Sequence(vec![YamlNode::Mapping(vec![
            entry("k", YamlNode::Boolean(true)),
        ])])]),
        YamlNode::Null,
    ]);
    let text = render(&value);
    assert_eq!(
        text,
        "- a: []\n  b:\n    - {}\n    - - \n      - ''\n  c:\n    d:\n- - - k: true\n-\n"
    );
    assert!(!text.contains("\n\n"));
}

#[test]
fn string_with_blank_lines_is_written_verbatim() {
    assert_eq!(render(&string("a\n\n\nb")), "a\n\n\nb\n");
}

#[test]
fn mapping_value_is_trimmed() {
    let value = YamlNode::Mapping(vec![entry("k", string("  v \t"))]);
    assert_eq!(render(&value), "k: v\n");
}

#[test]
fn blocks_end_in_a_line_break_and_are_not_trimmed() {
    assert_eq!(convert_yaml_node_to_string(&string(" a "), 0), " a \n");
    assert_eq!(convert_yaml_node_to_string(&number("7"), 5), "7\n");
    let list = vec![number("1"), YamlNode::Sequence(vec![number("2"), number("3")])];
    assert_eq!(generate_string_for_array(&list, 2), "- 1\n  - - 2\n    - 3\n");
    assert_eq!(
        convert_yaml_node_to_string(&YamlNode::Sequence(list), 2),
        "- 1\n  - - 2\n    - 3\n"
    );
}

#[test]
fn mapping_block_at_a_depth() {
    let entries = vec![
        entry("a", number("1")),
        entry("b", YamlNode::Mapping(vec![entry("c", number("2"))])),
    ];
    assert_eq!(
        generate_string_for_mapping(&entries, 2),
        "a: 1\n  b:\n    c: 2\n"
    );
    assert_eq!(generate_string_for_mapping(&Vec::new(), 2), "");
    assert_eq!(generate_string_for_array(&Vec::new(), 2), "");
}

#[test]
fn inline_values() {
    assert!(is_inline_node(&YamlNode::Null));
    assert!(is_inline_node(&YamlNode::Boolean(false)));
    assert!(is_inline_node(&number("1")));
    assert!(is_inline_node(&string("[1]")));
    assert!(is_inline_node(&YamlNode::Sequence(vec![])));
    assert!(is_inline_node(&YamlNode::Mapping(vec![])));
    assert!(!is_inline_node(&YamlNode::Sequence(vec![YamlNode::Null])));
    assert!(!is_inline_node(&YamlNode::Mapping(vec![entry("", YamlNode::Null)])));
}

#[test]
fn string_that_looks_like_an_empty_collection_stays_inline() {
    let value = YamlNode::Mapping(vec![entry("a", string("{}")), entry("b", string("[]"))]);
    assert_eq!(render(&value), "a: {}\nb: []\n");
}

#[test]
fn marked_document_is_the_document_behind_the_marker() {
    let value = YamlNode::Mapping(vec![entry("a", YamlNode::Sequence(vec![number("1")]))]);
    assert_eq!(render(&value), "a:\n  - 1\n");
    assert_eq!(render_marked(&value), "---\na:\n  - 1\n");
    assert_eq!(render_marked(&YamlNode::Null), "---\n\n");
}

#[test]
fn document_is_settled() {
    for value in [
        YamlNode::Null,
        string("  padded  "),
        YamlNode::Sequence(vec![string("a "), YamlNode::Null]),
        YamlNode::Mapping(vec![entry(" k", YamlNode::Mapping(vec![entry("x", YamlNode::Null)]))]),
    ] {
        let text = render(&value);
        assert_eq!(format!("{}\n", text.trim()), text);
    }
}

#[test]
fn continuation_lines_open_with_the_depth() {
    let value = YamlNode::Mapping(vec![
        entry(
            "a",
            YamlNode::Sequence(vec![
                YamlNode::Mapping(vec![
                    entry("b", number("1")),
                    entry("c", YamlNode::Sequence(vec![])),
                ]),
                YamlNode::Sequence(vec![string("d"), string("e")]),
            ]),
        ),
        entry("f", YamlNode::Null),
        entry("g", YamlNode::Mapping(vec![entry("h", string("i")), entry("j", string("k"))])),
    ]);
    for depth in [0usize, 1, 2, 7] {
        let text = convert_yaml_node_to_string(&value, depth);
        assert!(text.ends_with('\n'));
        let body = &text[..text.len() - 1];
        for line in body.split('\n').skip(1) {
            assert!(line.len() >= depth, "{:?}", line);
            assert!(line[..depth].chars().all(|c| c == ' '), "{:?}", line);
        }
    }
    assert_eq!(
        convert_yaml_node_to_string(&value, 1),
        "a:\n   - b: 1\n     c: []\n   - - d\n     - e\n f: \n g:\n   h: i\n   j: k\n"
    );
}

#[test]
fn texts_without_blank_lines_give_no_two_blank_lines() {
    let value = YamlNode::Sequence(vec![
        string("a\n"),
        string("\nb"),
        YamlNode::Mapping(vec![entry("\nk", string("v\n")), entry("\nl\n", YamlNode::Null)]),
        YamlNode::Null,
        string("\n"),
    ]);
    let text = render(&value);
    assert!(!text.contains("\n\n\n"));
    assert!(!text.starts_with("\n\n"));
    let marked = render_marked(&value);
    assert!(!marked.contains("\n\n\n"));
}
