//! Icons for the outcome and progress of work.

use vstd::prelude::*;

verus! {

/// The icon for success: a glyph of the patched fonts where they are in use,
/// else a plain symbol.
pub fn success(nerd_fonts: bool) -> (icon: String)
    ensures
        icon@ == (if nerd_fonts {
            "\u{f058}"@
        } else {
            "âœ“"@
        }),
{
    if nerd_fonts {
        "\u{f058}".to_owned()
    } else {
        "âœ“".to_owned()
    }
}

/// The icon for an error: a glyph of the patched fonts where they are in use,
/// else a plain symbol.
pub fn error(nerd_fonts: bool) -> (icon: String)
    ensures
        icon@ == (if nerd_fonts {
            "\u{f057}"@
        } else {
            "âœ—"@
        }),
{
    if nerd_fonts {
        "\u{f057}".to_owned()
    } else {
        "âœ—".to_owned()
    }
}

/// The icon for a warning: a glyph of the patched fonts where they are in use,
/// else a plain symbol.
pub fn warning(nerd_fonts: bool) -> (icon: String)
    ensures
        icon@ == (if nerd_fonts {
            "\u{f071}"@
        } else {
            "âš "@
        }),
{
    if nerd_fonts {
        "\u{f071}".to_owned()
    } else {
        "âš ".to_owned()
    }
}

/// The icon for something that waits: a glyph of the patched fonts where they are in use,
/// else a plain symbol.
pub fn waiting(nerd_fonts: bool) -> (icon: String)
    ensures
        icon@ == (if nerd_fonts {
            "\u{f017}"@
        } else {
            "â³"@
        }),
{
    if nerd_fonts {
        "\u{f017}".to_owned()
    } else {
        "â³".to_owned()
    }
}

/// The icon for something that runs: a glyph of the patched fonts where they are in use,
/// else a plain symbol.
pub fn running(nerd_fonts: bool) -> (icon: String)
    ensures
        icon@ == (if nerd_fonts {
            "\u{f013}"@
        } else {
            "âš™"@
        }),
{
    if nerd_fonts {
        "\u{f013}".to_owned()
    } else {
        "âš™".to_owned()
    }
}

/// The icon for a time or a note: a glyph of the patched fonts where they are in use,
/// else a plain symbol.
pub fn info(nerd_fonts: bool) -> (icon: String)
    ensures
        icon@ == (if nerd_fonts {
            "\u{f017}"@
        } else {
            "ðŸ•’"@
        }),
{
    if nerd_fonts {
        "\u{f017}".to_owned()
    } else {
        "ðŸ•’".to_owned()
    }
}

} // verus!
