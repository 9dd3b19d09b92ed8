//! Icons for branches, commits and repositories.

use vstd::prelude::*;

verus! {

/// The icon for a branch: a glyph of the patched fonts where they are in use,
/// else a plain symbol.
pub fn branch(nerd_fonts: bool) -> (icon: String)
    ensures
        icon@ == (if nerd_fonts {
            "\u{e0a0}"@
        } else {
            "âŽ‡"@
        }),
{
    if nerd_fonts {
        "\u{e0a0}".to_owned()
    } else {
        "âŽ‡".to_owned()
    }
}

/// The icon for a commit: a glyph of the patched fonts where they are in use,
/// else a plain symbol.
pub fn commit(nerd_fonts: bool) -> (icon: String)
    ensures
        icon@ == (if nerd_fonts {
            "\u{e729}"@
        } else {
            "â—"@
        }),
{
    if nerd_fonts {
        "\u{e729}".to_owned()
    } else {
        "â—".to_owned()
    }
}

/// The icon for a repository: a glyph of the patched fonts where they are in use,
/// else a plain symbol.
pub fn repo(nerd_fonts: bool) -> (icon: String)
    ensures
        icon@ == (if nerd_fonts {
            "\u{f09b}"@
        } else {
            "âš¡"@
        }),
{
    if nerd_fonts {
        "\u{f09b}".to_owned()
    } else {
        "âš¡".to_owned()
    }
}

/// The icon for a modified file: a glyph of the patched fonts where they are in use,
/// else a plain symbol.
pub fn modified(nerd_fonts: bool) -> (icon: String)
    ensures
        icon@ == (if nerd_fonts {
            "\u{e727}"@
        } else {
            "âœŽ"@
        }),
{
    if nerd_fonts {
        "\u{e727}".to_owned()
    } else {
        "âœŽ".to_owned()
    }
}

/// The icon for an owner: a glyph of the patched fonts where they are in use,
/// else a plain symbol.
pub fn owner(nerd_fonts: bool) -> (icon: String)
    ensures
        icon@ == (if nerd_fonts {
            "\u{f007}"@
        } else {
            "ðŸ‘¤"@
        }),
{
    if nerd_fonts {
        "\u{f007}".to_owned()
    } else {
        "ðŸ‘¤".to_owned()
    }
}

} // verus!
