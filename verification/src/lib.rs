//! Renders JSON values as block-style YAML text.
//!
//! [`conversion`] holds the renderer, [`layout`] the definition of the text
//! it produces and [`laws`] what is proved of that text. [`node`] holds the
//! value tree, [`json`] the reading of `serde_json` values into it, [`text`]
//! the handling of whitespace and [`lines`] that of line breaks. The
//! functions of this file are the entry points of a command that reads a
//! JSON file and stores it as YAML; they render JSON values directly.

use crate::json::{value_tree, value_trees};
use crate::layout::{block, document, items_block};
use crate::node::{trees, YamlNode};
use crate::text::trim_str;
use serde_json::Value;
use vstd::prelude::*;
use vstd::string::*;

pub mod conversion;
pub mod json;
pub mod laws;
pub mod layout;
pub mod lines;
pub mod node;
pub mod text;

verus! {

/// What the caller of [`run`] reports.
#[derive(Debug)]
pub enum Event {
    /// The command has started; nothing was read yet.
    Launched,
    /// The input file was read and decoded as this value.
    Decoded(Value),
}

/// What [`run`] asks of its caller.
#[derive(Debug, PartialEq, Eq)]
pub enum Action {
    /// Read the file at `path` and decode it as JSON.
    Decode { path: String },
    /// Store `text` in the file at `path`, as it is.
    Store { path: String, text: String },
}

/// Decides the next step of the command. `args` are the program name, the
/// input path and the output path. At launch the input is to be decoded;
/// once it is, its YAML document, as [`convert_to_yaml_string`] gives it, is
/// to be stored at the output path.
pub fn run(args: &Vec<String>, event: &Event) -> (action: Action)
    requires
        args@.len() == 3,
    ensures
        match *event {
            Event::Launched => action matches Action::Decode { path } && path@ == args@[1]@,
            Event::Decoded(value) => action matches Action::Store { path, text } && path@
                == args@[2]@ && text@ == document(value_tree(value)),
        },
{
    match event {
        Event::Launched => Action::Decode { path: args[1].clone() },
        Event::Decoded(deserialized_file) => {
            let file_output = convert_to_yaml_string(deserialized_file);
            Action::Store { path: args[2].clone(), text: file_output }
        },
    }
}

/// Renders a JSON value as a YAML document: its block at depth 0, trimmed,
/// with one line break at the end and no document-start marker. This is the
/// text that [`run`] has stored.
pub fn convert_to_yaml_string(serde: &Value) -> (result: String)
    ensures
        result@ == document(value_tree(*serde)),
{
    let rendered = convert_to_yaml_string_internal(serde, 0);
    let mut result = String::from_str(trim_str(rendered.as_str()));
    result.append("\n");
    result
}

/// Renders a JSON value at depth `indentation_level`, untrimmed.
pub fn convert_to_yaml_string_internal(serde: &Value, indentation_level: usize) -> (result: String)
    ensures
        result@ == block(value_tree(*serde), indentation_level as nat),
{
    let node = conversion::convert_to_internal_yaml_representation(serde);
    conversion::convert_yaml_node_to_string(&node, indentation_level)
}

/// Renders the elements of a JSON array at depth `indentation_level`, one
/// dash each.
pub fn generate_string_for_array(vector: &Vec<Value>, indentation_level: usize) -> (result: String)
    ensures
        result@ == items_block(value_trees(vector@), indentation_level as nat, vector@.len()),
{
    let mut nodes: Vec<YamlNode> = Vec::new();
    let mut index: usize = 0;
    while index < vector.len()
        invariant
            index <= vector.len(),
            nodes@.len() == index,
            forall|j: int| 0 <= j < index ==> (#[trigger] nodes@[j])@ == value_tree(vector@[j]),
        decreases vector.len() - index,
    {
        nodes.push(conversion::convert_to_internal_yaml_representation(&vector[index]));
        index = index + 1;
    }
    proof {
        assert(trees(nodes@) =~= value_trees(vector@));
    }
    conversion::generate_string_for_array(&nodes, indentation_level)
}

} // verus!
