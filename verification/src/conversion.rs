//! From JSON values to YAML text.

use crate::json::{
    as_array, as_bool, as_members, as_number_text, as_str, is_null, member_trees, value_tree,
    value_trees,
};
use crate::layout::{
    block, document, entries_block, entry_line, is_inline, item_line, items_block, marked_document,
};
use crate::node::{entry_trees, lemma_mapping_view, lemma_sequence_view, trees, Tree, YamlNode};
use crate::text::{indentation, spaces, trim_str};
use serde_json::Value;
use vstd::prelude::*;
use vstd::string::*;

verus! {

/// Copies a JSON value into a node tree.
pub fn convert_to_internal_yaml_representation(serde: &Value) -> (node: YamlNode)
    ensures
        node@ == value_tree(*serde),
        node.well_formed(),
    decreases value_tree(*serde),
{
    if is_null(serde) {
        YamlNode::Null
    } else if let Some(value) = as_bool(serde) {
        YamlNode::Boolean(value)
    } else if let Some(text) = as_number_text(serde) {
        YamlNode::Number(text)
    } else if let Some(text) = as_str(serde) {
        YamlNode::String(String::from_str(text))
    } else if let Some(elements) = as_array(serde) {
        let mut elements_vector: Vec<YamlNode> = Vec::new();
        let mut i: usize = 0;
        while i < elements.len()
            invariant
                i <= elements.len(),
                value_tree(*serde) == Tree::Sequence(value_trees(elements@)),
                elements_vector@.len() == i,
                forall|j: int|
                    0 <= j < i ==> (#[trigger] elements_vector@[j])@ == value_tree(elements@[j])
                        && elements_vector@[j].well_formed(),
            decreases elements.len() - i,
        {
            proof {
                let trees = value_trees(elements@);
                assert(trees[i as int] == value_tree(elements@[i as int]));
                let tree = value_tree(*serde);
                assert(decreases_to!(tree => tree->Sequence_0));
                assert(decreases_to!(tree->Sequence_0 => tree->Sequence_0[i as int]));
            }
            let element = convert_to_internal_yaml_representation(&elements[i]);
            elements_vector.push(element);
            i = i + 1;
        }
        let node = YamlNode::Sequence(elements_vector);
        assert(node@->Sequence_0 =~= value_trees(elements@));
        node
    } else {
        let members = as_members(serde);
        assert(members is Some);
        let members = members.unwrap();
        let mut elements_mapping: Vec<(String, YamlNode)> = Vec::new();
        let mut i: usize = 0;
        while i < members.len()
            invariant
                i <= members.len(),
                value_tree(*serde) == Tree::Mapping(member_trees(members@)),
                forall|j: int, k: int|
                    0 <= j < k < members@.len() ==> (#[trigger] members@[j]).0@ != (
                    #[trigger] members@[k]).0@,
                elements_mapping@.len() == i,
                forall|j: int|
                    0 <= j < i ==> (#[trigger] elements_mapping@[j]).0@ == members@[j].0@
                        && elements_mapping@[j].1@ == value_tree(*members@[j].1)
                        && elements_mapping@[j].1.well_formed(),
            decreases members.len() - i,
        {
            let key = members[i].0.clone();
            proof {
                let trees = member_trees(members@);
                assert(trees[i as int].1 == value_tree(*members@[i as int].1));
                let tree = value_tree(*serde);
                assert(decreases_to!(tree => tree->Mapping_0));
                assert(decreases_to!(tree->Mapping_0 => tree->Mapping_0[i as int]));
                assert(decreases_to!(tree->Mapping_0[i as int] => tree->Mapping_0[i as int].1));
            }
            let value = convert_to_internal_yaml_representation(members[i].1);
            elements_mapping.push((key, value));
            i = i + 1;
        }
        let node = YamlNode::Mapping(elements_mapping);
        assert(node@->Mapping_0 =~= member_trees(members@));
        node
    }
}

/// Renders a JSON value at depth 0, untrimmed.
pub fn convert_to_yaml_string_internal(serde: &Value) -> (result: String)
    ensures
        result@ == block(value_tree(*serde), 0),
{
    let yaml_representation = convert_to_internal_yaml_representation(serde);
    convert_yaml_node_to_string(&yaml_representation, 0)
}

/// Renders a JSON value as a YAML document behind a document-start marker.
pub fn convert_to_yaml_string(serde: &Value) -> (result: String)
    ensures
        result@ == marked_document(value_tree(*serde)),
{
    let rendered = convert_to_yaml_string_internal(serde);
    let mut result_string = String::from_str("---\n");
    result_string.append(trim_str(rendered.as_str()));
    result_string.append("\n");
    proof {
        assert(result_string@ =~= marked_document(value_tree(*serde)));
    }
    result_string
}

/// Renders `value` as a YAML document: its block at depth 0, trimmed, with
/// one line break at the end. Every value has a document; the rendering
/// recurses as deep as the value is nested.
pub fn render(value: &YamlNode) -> (text: String)
    ensures
        text@ == document(value@),
{
    let rendered = convert_yaml_node_to_string(value, 0);
    let mut text = String::from_str(trim_str(rendered.as_str()));
    text.append("\n");
    text
}

/// Renders `value` as a YAML document behind a document-start marker.
pub fn render_marked(value: &YamlNode) -> (text: String)
    ensures
        text@ == marked_document(value@),
{
    let mut text = String::from_str("---\n");
    text.append(render(value).as_str());
    text
}

/// Renders `serde` at depth `indentation_level`. The first line carries no
/// indentation; the result ends in a line break.
pub fn convert_yaml_node_to_string(serde: &YamlNode, indentation_level: usize) -> (result: String)
    ensures
        result@ == block(serde@, indentation_level as nat),
{
    let spaces = indentation(indentation_level);
    render_node(serde, spaces.as_str())
}

/// Renders the elements of a sequence at depth `indentation_level`, one dash
/// each.
pub fn generate_string_for_array(vector: &Vec<YamlNode>, indentation_level: usize) -> (result:
    String)
    ensures
        result@ == items_block(trees(vector@), indentation_level as nat, vector@.len()),
{
    let spaces = indentation(indentation_level);
    render_sequence(vector, spaces.as_str())
}

/// Renders the entries of a mapping at depth `indentation_level`, one key
/// each.
pub fn generate_string_for_mapping(
    mapping: &Vec<(String, YamlNode)>,
    indentation_level: usize,
) -> (result: String)
    ensures
        result@ == entries_block(entry_trees(mapping@), indentation_level as nat, mapping@.len()),
{
    let spaces = indentation(indentation_level);
    render_mapping(mapping, spaces.as_str())
}

/// Renders `node` behind `indent`, which is the indentation of its depth.
fn render_node(node: &YamlNode, indent: &str) -> (result: String)
    requires
        indent@ == spaces(indent@.len()),
    ensures
        result@ == block(node@, indent@.len()),
    decreases node@, 0nat,
{
    let mut result = String::new();
    match node {
        YamlNode::Null => {},
        YamlNode::Boolean(value) => {
            if *value {
                result.append("true");
            } else {
                result.append("false");
            }
        },
        YamlNode::Number(text) => {
            result.append(text.as_str());
        },
        YamlNode::String(string) => {
            if string.as_str().is_empty() {
                result.append("''");
            } else {
                result.append(string.as_str());
            }
        },
        YamlNode::Sequence(vector) => {
            proof {
                lemma_sequence_view(*node);
                assert(decreases_to!(node@ => node@->Sequence_0));
            }
            if vector.len() == 0 {
                result.append("[]");
            } else {
                return render_sequence(vector, indent);
            }
        },
        YamlNode::Mapping(mapping) => {
            proof {
                lemma_mapping_view(*node);
                assert(decreases_to!(node@ => node@->Mapping_0));
            }
            if mapping.len() == 0 {
                result.append("{}");
            } else {
                return render_mapping(mapping, indent);
            }
        },
    }
    result.append("\n");
    result
}

/// Renders the elements of a sequence, one dash each.
fn render_sequence(vector: &Vec<YamlNode>, indent: &str) -> (result: String)
    requires
        indent@ == spaces(indent@.len()),
    ensures
        result@ == items_block(trees(vector@), indent@.len(), vector@.len()),
    decreases trees(vector@), vector@.len(),
{
    let deeper = deepen(indent);
    let mut result = String::new();
    let mut index: usize = 0;
    while index < vector.len()
        invariant
            index <= vector.len(),
            indent@ == spaces(indent@.len()),
            deeper@ == spaces(indent@.len() + 2),
            result@ == items_block(trees(vector@), indent@.len(), index as nat),
        decreases vector.len() - index,
    {
        let ghost before = result@;
        if index != 0 {
            result.append(indent);
        }
        result.append("- ");
        proof {
            assert(trees(vector@)[index as int] == vector@[index as int]@);
            assert(decreases_to!(trees(vector@) => trees(vector@)[index as int]));
        }
        let internal_string = render_node(&vector[index], deeper.as_str());
        result.append(internal_string.as_str());
        assert(result@ == before + item_line(
            trees(vector@)[index as int],
            index as int,
            indent@.len(),
        ));
        index = index + 1;
    }
    result
}

/// Renders the entries of a mapping, one key each.
fn render_mapping(mapping: &Vec<(String, YamlNode)>, indent: &str) -> (result: String)
    requires
        indent@ == spaces(indent@.len()),
    ensures
        result@ == entries_block(entry_trees(mapping@), indent@.len(), mapping@.len()),
    decreases entry_trees(mapping@), mapping@.len(),
{
    let deeper = deepen(indent);
    let mut result = String::new();
    let mut index: usize = 0;
    while index < mapping.len()
        invariant
            index <= mapping.len(),
            indent@ == spaces(indent@.len()),
            deeper@ == spaces(indent@.len() + 2),
            result@ == entries_block(entry_trees(mapping@), indent@.len(), index as nat),
        decreases mapping.len() - index,
    {
        let ghost before = result@;
        let ghost value = entry_trees(mapping@)[index as int].1;
        let entry = &mapping[index];
        if index != 0 {
            result.append(indent);
        }
        result.append(entry.0.as_str());
        if is_inline_node(&entry.1) {
            result.append(": ");
        } else {
            result.append(":\n");
            result.append(deeper.as_str());
        }
        proof {
            assert(value == entry.1@);
            assert(decreases_to!(entry_trees(mapping@) => entry_trees(mapping@)[index as int]));
            assert(decreases_to!(entry_trees(mapping@)[index as int] => value));
        }
        let mapping_value = render_node(&entry.1, deeper.as_str());
        result.append(trim_str(mapping_value.as_str()));
        result.append("\n");
        assert(result@ == before + entry_line(entry.0@, value, index as int, indent@.len()));
        index = index + 1;
    }
    result
}

/// The indentation two columns further in.
fn deepen(indent: &str) -> (deeper: String)
    requires
        indent@ == spaces(indent@.len()),
    ensures
        deeper@ == spaces(indent@.len() + 2),
{
    let mut deeper = String::from_str(indent);
    deeper.append("  ");
    proof {
        reveal_strlit("  ");
        assert(deeper@ =~= spaces(indent@.len() + 2));
    }
    deeper
}

/// Whether `node` is written on the line of its key or dash.
pub fn is_inline_node(node: &YamlNode) -> (inline: bool)
    ensures
        inline == is_inline(node@),
{
    match node {
        YamlNode::Sequence(vector) => {
            proof {
                lemma_sequence_view(*node);
            }
            vector.len() == 0
        },
        YamlNode::Mapping(mapping) => {
            proof {
                lemma_mapping_view(*node);
            }
            mapping.len() == 0
        },
        _ => true,
    }
}

} // verus!
