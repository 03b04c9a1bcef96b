//! From the classification of a cell's samples to its glyph.
use vstd::prelude::*;
use vstd::string::*;

verus! {

/// The glyph of a cell without decoration: a blue block for the half, or
/// halves, whose sample satisfies the clause, and a space where neither
/// does.
pub open spec fn plain_glyph(top: bool, bottom: bool) -> Seq<char> {
    if top && bottom {
        "\x1b[34m\u{2588}\x1b[0m"@
    } else if top {
        "\x1b[34m\u{2580}\x1b[0m"@
    } else if bottom {
        "\x1b[34m\u{2584}\x1b[0m"@
    } else {
        " "@
    }
}

/// The glyph of a cell: the plain glyph, on a red background in debug mode.
pub open spec fn glyph_text(top: bool, bottom: bool, debug: bool) -> Seq<char> {
    if debug {
        "\x1b[41m"@ + plain_glyph(top, bottom) + "\x1b[0m"@
    } else {
        plain_glyph(top, bottom)
    }
}

/// Draws a cell of two stacked samples. `top` and `bottom` say whether the
/// upper and the lower sample satisfy the fractal's clause.
pub fn glyph(top: bool, bottom: bool, debug: bool) -> (text: String)
    ensures
        text@ == glyph_text(top, bottom, debug),
{
    let plain = if top && bottom {
        "\x1b[34m\u{2588}\x1b[0m"
    } else if top {
        "\x1b[34m\u{2580}\x1b[0m"
    } else if bottom {
        "\x1b[34m\u{2584}\x1b[0m"
    } else {
        " "
    };
    if debug {
        String::from_str("\x1b[41m").concat(plain).concat("\x1b[0m")
    } else {
        String::from_str(plain)
    }
}

/// Draws a cell of one sample: a full block where the sample satisfies the
/// clause, a space where it does not.
pub fn glyph_single(satisfied: bool, debug: bool) -> (text: String)
    ensures
        text@ == glyph_text(satisfied, satisfied, debug),
{
    glyph(satisfied, satisfied, debug)
}

/// The four plain glyphs differ from each other, so a glyph tells which of
/// a cell's samples satisfy the clause; and debug mode wraps each of them
/// in the same decoration.
pub proof fn lemma_glyph_truth_table(top: bool, bottom: bool, other_top: bool, other_bottom: bool)
    ensures
        plain_glyph(top, bottom) == plain_glyph(other_top, other_bottom) ==> top == other_top
            && bottom == other_bottom,
        glyph_text(top, bottom, false) == plain_glyph(top, bottom),
        glyph_text(top, bottom, true) == "\x1b[41m"@ + glyph_text(top, bottom, false)
            + "\x1b[0m"@,
        glyph_text(top, bottom, true) != glyph_text(top, bottom, false),
{
    reveal_strlit("\x1b[34m\u{2588}\x1b[0m");
    reveal_strlit("\x1b[34m\u{2580}\x1b[0m");
    reveal_strlit("\x1b[34m\u{2584}\x1b[0m");
    reveal_strlit(" ");
    reveal_strlit("\x1b[41m");
    reveal_strlit("\x1b[0m");
    let full = "\x1b[34m\u{2588}\x1b[0m"@;
    let upper = "\x1b[34m\u{2580}\x1b[0m"@;
    let lower = "\x1b[34m\u{2584}\x1b[0m"@;
    assert(full.len() == 10 && upper.len() == 10 && lower.len() == 10 && " "@.len() == 1);
    assert(full[5] == '\u{2588}' && upper[5] == '\u{2580}' && lower[5] == '\u{2584}');
    assert("\x1b[41m"@.len() == 5 && "\x1b[0m"@.len() == 4);
    assert(glyph_text(top, bottom, true).len() == plain_glyph(top, bottom).len() + 9);
}

} // verus!
