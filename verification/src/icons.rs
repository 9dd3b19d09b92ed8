//! The icons of the console output.

use crate::state::opt_text;
use crate::text::same_text;
use vstd::prelude::*;

pub mod files;
pub mod git;
pub mod status;

verus! {

/// The setting is `"1"`.
pub open spec fn switched_on(setting: Option<Seq<char>>) -> bool {
    setting == Some("1"@)
}

/// Whether the glyphs of the patched fonts are in use: one of the two
/// settings is `"1"`.
pub fn use_nerd_fonts(nerd_font: &Option<String>, use_nerd_font: &Option<String>) -> (on: bool)
    ensures
        on == (switched_on(opt_text(*nerd_font)) || switched_on(opt_text(*use_nerd_font))),
{
    let first = match nerd_font {
        Some(value) => same_text(value.as_str(), "1"),
        None => false,
    };
    let second = match use_nerd_font {
        Some(value) => same_text(value.as_str(), "1"),
        None => false,
    };
    first || second
}

} // verus!
