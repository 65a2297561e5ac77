//! Site settings and the form controls that edit them.
use crate::text::str_eq;
use vstd::prelude::*;
use vstd::string::StringExecFns;

verus! {

/// The site-wide settings kept in the key-value store.
#[derive(Debug)]
pub struct Settings {
    pub site_name: String,
    pub author_name: String,
    pub about: String,
    pub extra_head: String,
    pub dark_mode: Option<String>,
    pub blogroll_feeds: String,
}

/// The kinds of input control a settings field can use.
pub enum InputType {
    Checkbox,
    Text,
    Textarea,
}

/// The `required` attribute, where asked for.
pub open spec fn req_attr(required: bool) -> Seq<char> {
    if required {
        "required"@
    } else {
        ""@
    }
}

/// The control itself, by input type.
pub open spec fn spec_input_control(
    input_type: InputType,
    name: Seq<char>,
    value: Seq<char>,
    required: bool,
) -> Seq<char> {
    match input_type {
        InputType::Checkbox => {
            let checked: Seq<char> = if value == "on"@ {
                "checked"@
            } else {
                ""@
            };
            "\n            <input id='"@ + name + "' name='"@ + name
                + "' style='margin-left: 0; margin-top: 0.5rem; margin-bottom: 0.2rem;' type='checkbox' "@
                + checked + " "@ + req_attr(required) + "/><br>\n            "@
        },
        InputType::Text => "\n            <input id='"@ + name + "' name='"@ + name
            + "' style='width: 100%; margin-left: 0; margin-right: 0; margin-top: 0.5rem; margin-bottom: 0.2rem;' type='text' value='"@
            + value + "' "@ + req_attr(required) + "/><br>\n            "@,
        InputType::Textarea => "\n            <textarea id='"@ + name + "' name='"@ + name
            + "' rows='7' style='width: 100%; font-size: 0.8rem; margin-top: 0.5rem; margin-bottom: 0.2rem;' "@
            + req_attr(required) + ">"@ + value + "</textarea><br>\n            "@,
    }
}

/// A labelled settings control with its description.
pub open spec fn spec_text_input(
    input_type: InputType,
    name: Seq<char>,
    label: Seq<char>,
    value: Seq<char>,
    description: Seq<char>,
    required: bool,
) -> Seq<char> {
    "\n        <label id='"@ + name + "_label' for='"@ + name + "'>"@ + label + "</label><br>\n        "@
        + spec_input_control(input_type, name, value, required)
        + "\n        <span style='font-size: 0.8rem; line-height: 1.2; display: inline-block;'>\n            "@
        + description + "\n        </span><br>\n        <br>\n        "@
}

/// Render a labelled form control for one settings field.
pub fn text_input(
    input_type: InputType,
    name: &str,
    label: &str,
    value: &str,
    description: &str,
    required: bool,
) -> (r: String)
    ensures
        r@ == spec_text_input(input_type, name@, label@, value@, description@, required),
{
    let req: &str = if required {
        "required"
    } else {
        ""
    };
    let input: String = match input_type {
        InputType::Checkbox => {
            let checked: &str = if str_eq(value, "on") {
                "checked"
            } else {
                ""
            };
            String::from_str("\n            <input id='").concat(name).concat("' name='").concat(
                name,
            ).concat(
                "' style='margin-left: 0; margin-top: 0.5rem; margin-bottom: 0.2rem;' type='checkbox' ",
            ).concat(checked).concat(" ").concat(req).concat("/><br>\n            ")
        },
        InputType::Text => String::from_str("\n            <input id='").concat(name).concat(
            "' name='",
        ).concat(name).concat(
            "' style='width: 100%; margin-left: 0; margin-right: 0; margin-top: 0.5rem; margin-bottom: 0.2rem;' type='text' value='",
        ).concat(value).concat("' ").concat(req).concat("/><br>\n            "),
        InputType::Textarea => String::from_str("\n            <textarea id='").concat(name).concat(
            "' name='",
        ).concat(name).concat(
            "' rows='7' style='width: 100%; font-size: 0.8rem; margin-top: 0.5rem; margin-bottom: 0.2rem;' ",
        ).concat(req).concat(">").concat(value).concat("</textarea><br>\n            "),
    };
    String::from_str("\n        <label id='").concat(name).concat("_label' for='").concat(
        name,
    ).concat("'>").concat(label).concat("</label><br>\n        ").concat(input.as_str()).concat(
        "\n        <span style='font-size: 0.8rem; line-height: 1.2; display: inline-block;'>\n            ",
    ).concat(description).concat("\n        </span><br>\n        <br>\n        ")
}

} // verus!
