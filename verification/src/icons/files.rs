//! Icons for files and folders.

use vstd::prelude::*;

verus! {

/// The icon for a folder: a glyph of the patched fonts where they are in use,
/// else a plain symbol.
pub fn folder(nerd_fonts: bool) -> (icon: String)
    ensures
        icon@ == (if nerd_fonts {
            "\u{f07b}"@
        } else {
            "ðŸ“"@
        }),
{
    if nerd_fonts {
        "\u{f07b}".to_owned()
    } else {
        "ðŸ“".to_owned()
    }
}

/// The icon for a file: a glyph of the patched fonts where they are in use,
/// else a plain symbol.
pub fn file(nerd_fonts: bool) -> (icon: String)
    ensures
        icon@ == (if nerd_fonts {
            "\u{f016}"@
        } else {
            "ðŸ“„"@
        }),
{
    if nerd_fonts {
        "\u{f016}".to_owned()
    } else {
        "ðŸ“„".to_owned()
    }
}

/// The icon for a script: a glyph of the patched fonts where they are in use,
/// else a plain symbol.
pub fn script(nerd_fonts: bool) -> (icon: String)
    ensures
        icon@ == (if nerd_fonts {
            "\u{f010a}"@
        } else {
            "ðŸ“œ"@
        }),
{
    if nerd_fonts {
        "\u{f010a}".to_owned()
    } else {
        "ðŸ“œ".to_owned()
    }
}

} // verus!
