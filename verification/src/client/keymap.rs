//! The keymap that goes to the server, so that every key maps the same on
//! both ends.

use crate::text::text_eq;
use vstd::prelude::*;

verus! {

/// What Hyprland reports for a string option that is not set.
pub const UNSET: &'static str = "[[EMPTY]]";

/// The names that a keymap is built from.
#[derive(Debug, Clone, PartialEq, Eq)]
pub struct KeymapNames {
    pub rules: String,
    pub model: String,
    pub layout: String,
    pub variant: String,
    pub options: Option<String>,
}

/// The text of an option; empty where it is not set or could not be read.
pub open spec fn option_text(value: Option<String>) -> Seq<char> {
    match value {
        Some(v) => if v@ == UNSET@ {
            Seq::empty()
        } else {
            v@
        },
        None => Seq::empty(),
    }
}

fn option_or_empty(value: Option<String>) -> (text: String)
    ensures
        text@ == option_text(value),
{
    match value {
        Some(v) => if text_eq(v.as_str(), UNSET) {
            String::new()
        } else {
            v
        },
        None => String::new(),
    }
}

/// The names that the compositor's options give: the layout `us` where none
/// is set, and no options where they are empty.
pub fn keymap_names(model: Option<String>, layout: Option<String>, variant: Option<String>, options: Option<
    String,
>) -> (names: KeymapNames)
    ensures
        names.rules@.len() == 0,
        names.model@ == option_text(model),
        names.layout@ == if option_text(layout).len() == 0 {
            "us"@
        } else {
            option_text(layout)
        },
        names.variant@ == option_text(variant),
        if option_text(options).len() == 0 {
            names.options is None
        } else {
            names.options matches Some(o) && o@ == option_text(options)
        },
{
    let layout: String = option_or_empty(layout);
    let layout: String = if layout.as_str().is_empty() {
        "us".to_string()
    } else {
        layout
    };
    let options: String = option_or_empty(options);
    let options: Option<String> = if options.as_str().is_empty() {
        None
    } else {
        Some(options)
    };
    KeymapNames {
        rules: String::new(),
        model: option_or_empty(model),
        layout,
        variant: option_or_empty(variant),
        options,
    }
}

/// Full xkb keymap text for the local layout, or empty to let the server use
/// its own default, where none could be built.
pub fn local_keymap(built: Option<String>) -> (text: String)
    ensures
        text@ == match built {
            Some(t) => t@,
            None => Seq::empty(),
        },
{
    match built {
        Some(text) => text,
        None => String::new(),
    }
}

/// An option that is not set, or set to the mark for that, is an empty text;
/// any other is kept as it is.
pub proof fn law_unset_options_are_empty(value: Option<String>)
    ensures
        value is None ==> option_text(value) == Seq::<char>::empty(),
        value matches Some(v) ==> (v@ == "[[EMPTY]]"@ ==> option_text(value).len() == 0) && (v@ != "[[EMPTY]]"@
            ==> option_text(value) == v@),
{
}

} // verus!
