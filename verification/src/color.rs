//! ANSI terminal styling for diagnostics: 256-color foreground and
//! background escapes around pieces of text.

use vstd::prelude::*;

use crate::value::{dec_of, push_dec};

verus! {

/// A color index folded into the 256-color range: positive indexes wrap at
/// 255, zero stays zero.
pub open spec fn wrap_m(color: nat) -> nat {
    if color > 0 {
        color % 255
    } else {
        color
    }
}

/// The black-or-white counterpart of a color: white for the dark indexes,
/// black for everything else.
pub open spec fn invert_bw_m(color: nat) -> nat {
    if color == 0 || color == 8 || (16 <= color < 24) || (232 <= color < 237) {
        255
    } else {
        16
    }
}

/// Foreground styling: the 256-color foreground escape, the color number,
/// then the text.
pub open spec fn fg_m(text: Seq<char>, color: nat) -> Seq<char> {
    "\x1b[1;38;5;"@ + dec_of(wrap_m(color)) + seq!['m'] + text
}

/// Background styling: the 256-color background escape, the color number,
/// then the text.
pub open spec fn bg_m(text: Seq<char>, color: nat) -> Seq<char> {
    "\x1b[1;48;5;"@ + dec_of(wrap_m(color)) + seq!['m'] + text
}

/// The text followed by the style reset escape.
pub open spec fn reset_m(text: Seq<char>) -> Seq<char> {
    text + "\x1b[0m"@
}

/// Foreground and background styling combined.
pub open spec fn bgfg_m(text: Seq<char>, fore: nat, back: nat) -> Seq<char> {
    bg_m(fg_m(text, wrap_m(fore)), wrap_m(back))
}

/// Fully styled text: foreground, background, and a trailing reset.
pub open spec fn ansi_m(text: Seq<char>, fore: nat, back: nat) -> Seq<char> {
    reset_m(bgfg_m(text, fore, back))
}

/// Fold a color index into the 256-color range.
pub fn wrap(color: usize) -> (r: u8)
    ensures
        r as nat == wrap_m(color as nat),
{
    (if color > 0 {
        color % 255
    } else {
        color
    }) as u8
}

/// The black-or-white counterpart of a color.
pub fn invert_bw(color: u8) -> (r: u8)
    ensures
        r as nat == invert_bw_m(color as nat),
{
    if color == 0 || color == 8 || (16 <= color && color < 24) || (232 <= color && color < 237) {
        255
    } else {
        16
    }
}

/// A wrapped color paired with its black-or-white counterpart.
pub fn couple(color: usize) -> (r: (u8, u8))
    ensures
        r.0 as nat == wrap_m(color as nat),
        r.1 as nat == invert_bw_m(wrap_m(color as nat)),
{
    let fore = wrap(color);
    let back = invert_bw(fore);
    (fore, back)
}

/// Style the text's foreground with the given color.
pub fn fg(text: &str, color: usize) -> (r: String)
    ensures
        r@ == fg_m(text@, color as nat),
{
    let mut out = "\x1b[1;38;5;".to_owned();
    push_dec(&mut out, wrap(color) as u64);
    out.push('m');
    out.append(text);
    proof {
        assert(out@ =~= fg_m(text@, color as nat));
    }
    out
}

/// Style the text's background with the given color.
pub fn bg(text: &str, color: usize) -> (r: String)
    ensures
        r@ == bg_m(text@, color as nat),
{
    let mut out = "\x1b[1;48;5;".to_owned();
    push_dec(&mut out, wrap(color) as u64);
    out.push('m');
    out.append(text);
    proof {
        assert(out@ =~= bg_m(text@, color as nat));
    }
    out
}

/// Close any open styling after the text.
pub fn reset(text: &str) -> (r: String)
    ensures
        r@ == reset_m(text@),
{
    let mut out = text.to_owned();
    out.append("\x1b[0m");
    out
}

/// Style the text's foreground and background.
pub fn bgfg(text: &str, fore: usize, back: usize) -> (r: String)
    ensures
        r@ == bgfg_m(text@, fore as nat, back as nat),
{
    let inner = fg(text, wrap(fore) as usize);
    let r = bg(inner.as_str(), wrap(back) as usize);
    proof {
        assert(wrap_m(wrap_m(fore as nat)) == wrap_m(fore as nat));
        assert(wrap_m(wrap_m(back as nat)) == wrap_m(back as nat));
    }
    r
}

/// Fully style the text: foreground, background, and a trailing reset.
pub fn ansi(text: &str, fore: usize, back: usize) -> (r: String)
    ensures
        r@ == ansi_m(text@, fore as nat, back as nat),
{
    let styled = bgfg(text, fore, back);
    reset(styled.as_str())
}

/// Style the text with the color as foreground and its black-or-white
/// counterpart as background.
pub fn fore(text: &str, color: usize) -> (r: String)
    ensures
        r@ == ansi_m(text@, wrap_m(color as nat), invert_bw_m(wrap_m(color as nat))),
{
    let (f, b) = couple(color);
    ansi(text, f as usize, b as usize)
}

/// Style the text with the color as background and its black-or-white
/// counterpart as foreground.
pub fn back(text: &str, color: usize) -> (r: String)
    ensures
        r@ == ansi_m(text@, invert_bw_m(wrap_m(color as nat)), wrap_m(color as nat)),
{
    let (b, f) = couple(color);
    ansi(text, f as usize, b as usize)
}

} // verus!
