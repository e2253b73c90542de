//! The fixed color palette, styled text runs, and ANSI SGR true-color
//! escape construction.

use vstd::prelude::*;
use vstd::string::StringExecFns;

use crate::width::push_char;

verus! {

/// The palette: each column role is bound to one of these named RGB
/// constants; the diff highlighter adds the plus/minus accents.
#[derive(Clone, Copy, PartialEq, Eq, Structural, Debug)]
pub enum Hue {
    Sakura,
    SakuraInk,
    Leaf,
    LeafInk,
    RowBg,
    RowFg,
    MidBg,
    MidFg,
    PlusFg,
    MinusFg,
}

pub open spec fn rgb_spec(h: Hue) -> (u8, u8, u8) {
    match h {
        Hue::Sakura => (241u8, 157u8, 181u8),
        Hue::SakuraInk => (35u8, 30u8, 30u8),
        Hue::Leaf => (154u8, 199u8, 122u8),
        Hue::LeafInk => (30u8, 45u8, 28u8),
        Hue::RowBg => (40u8, 40u8, 40u8),
        Hue::RowFg => (220u8, 220u8, 220u8),
        Hue::MidBg => (55u8, 55u8, 55u8),
        Hue::MidFg => (220u8, 220u8, 220u8),
        Hue::PlusFg => (98u8, 201u8, 98u8),
        Hue::MinusFg => (235u8, 110u8, 110u8),
    }
}

/// The red, green and blue components of a palette color.
pub fn rgb(h: Hue) -> (r: (u8, u8, u8))
    ensures
        r == rgb_spec(h),
{
    match h {
        Hue::Sakura => (241, 157, 181),
        Hue::SakuraInk => (35, 30, 30),
        Hue::Leaf => (154, 199, 122),
        Hue::LeafInk => (30, 45, 28),
        Hue::RowBg => (40, 40, 40),
        Hue::RowFg => (220, 220, 220),
        Hue::MidBg => (55, 55, 55),
        Hue::MidFg => (220, 220, 220),
        Hue::PlusFg => (98, 201, 98),
        Hue::MinusFg => (235, 110, 110),
    }
}

/// One run of text rendered in a single foreground/background pair.
#[derive(Clone, Debug, PartialEq, Eq)]
pub struct StyledSpan {
    pub text: String,
    pub fg: Hue,
    pub bg: Hue,
}

/// The mathematical image of a styled run.
pub struct SpanV {
    pub text: Seq<char>,
    pub fg: Hue,
    pub bg: Hue,
}

impl View for StyledSpan {
    type V = SpanV;

    open spec fn view(&self) -> SpanV {
        SpanV { text: self.text@, fg: self.fg, bg: self.bg }
    }
}

impl DeepView for StyledSpan {
    type V = SpanV;

    open spec fn deep_view(&self) -> SpanV {
        self@
    }
}

pub open spec fn spans_view(v: Seq<StyledSpan>) -> Seq<SpanV> {
    v.map_values(|s: StyledSpan| s@)
}

/// The concatenated text of a span sequence: the characters a terminal
/// would show, without any color information.
pub open spec fn spans_text(spans: Seq<SpanV>) -> Seq<char>
    decreases spans.len(),
{
    if spans.len() == 0 {
        Seq::empty()
    } else {
        spans[0].text + spans_text(spans.drop_first())
    }
}

pub proof fn lemma_spans_text_concat(a: Seq<SpanV>, b: Seq<SpanV>)
    ensures
        spans_text(a + b) == spans_text(a) + spans_text(b),
    decreases a.len(),
{
    if a.len() == 0 {
        assert(a + b =~= b);
        assert(Seq::<char>::empty() + spans_text(b) =~= spans_text(b));
    } else {
        lemma_spans_text_concat(a.drop_first(), b);
        assert((a + b).drop_first() =~= a.drop_first() + b);
        assert((a + b)[0] == a[0]);
        assert(a[0].text + (spans_text(a.drop_first()) + spans_text(b)) =~= (a[0].text
            + spans_text(a.drop_first())) + spans_text(b));
    }
}

pub open spec fn digit_char(d: nat) -> char {
    if d == 0 {
        '0'
    } else if d == 1 {
        '1'
    } else if d == 2 {
        '2'
    } else if d == 3 {
        '3'
    } else if d == 4 {
        '4'
    } else if d == 5 {
        '5'
    } else if d == 6 {
        '6'
    } else if d == 7 {
        '7'
    } else if d == 8 {
        '8'
    } else {
        '9'
    }
}

/// The decimal digits of `n`, most significant first, no sign and no
/// leading zeros (a single `'0'` for zero).
pub open spec fn dec_rep(n: nat) -> Seq<char>
    decreases n,
{
    if n < 10 {
        seq![digit_char(n)]
    } else {
        dec_rep(n / 10).push(digit_char(n % 10))
    }
}

fn digit_of(d: u64) -> (c: char)
    requires
        d < 10,
    ensures
        c == digit_char(d as nat),
{
    match d {
        0 => '0',
        1 => '1',
        2 => '2',
        3 => '3',
        4 => '4',
        5 => '5',
        6 => '6',
        7 => '7',
        8 => '8',
        _ => '9',
    }
}

/// Appends the decimal rendering of `n` to `out`.
pub(crate) fn push_dec(out: &mut String, n: u64)
    ensures
        final(out)@ == old(out)@ + dec_rep(n as nat),
    decreases n,
{
    if n < 10 {
        push_char(out, digit_of(n));
        proof {
            assert(old(out)@.push(digit_char(n as nat)) =~= old(out)@ + seq![
                digit_char(n as nat),
            ]);
        }
    } else {
        push_dec(out, n / 10);
        push_char(out, digit_of(n % 10));
        proof {
            assert((old(out)@ + dec_rep((n / 10) as nat)).push(digit_char((n % 10) as nat))
                =~= old(out)@ + dec_rep((n / 10) as nat).push(digit_char((n % 10) as nat)));
        }
    }
}

/// The SGR escape pair selecting a true-color foreground and background.
pub open spec fn sgr_pair(fg: Hue, bg: Hue) -> Seq<char> {
    let f = rgb_spec(fg);
    let b = rgb_spec(bg);
    "\u{1b}[38;2;"@ + dec_rep(f.0 as nat) + ";"@ + dec_rep(f.1 as nat) + ";"@ + dec_rep(f.2 as nat)
        + "m\u{1b}[48;2;"@ + dec_rep(b.0 as nat) + ";"@ + dec_rep(b.1 as nat) + ";"@ + dec_rep(
        b.2 as nat,
    ) + "m"@
}

/// Appends the SGR escape pair for `fg` on `bg` to `out`.
pub(crate) fn push_sgr(out: &mut String, fg: Hue, bg: Hue)
    ensures
        final(out)@ == old(out)@ + sgr_pair(fg, bg),
{
    let (fr, fgc, fb) = rgb(fg);
    let (br, bgc, bb) = rgb(bg);
    out.append("\u{1b}[38;2;");
    push_dec(out, fr as u64);
    out.append(";");
    push_dec(out, fgc as u64);
    out.append(";");
    push_dec(out, fb as u64);
    out.append("m\u{1b}[48;2;");
    push_dec(out, br as u64);
    out.append(";");
    push_dec(out, bgc as u64);
    out.append(";");
    push_dec(out, bb as u64);
    out.append("m");
    proof {
        assert(out@ =~= old(out)@ + sgr_pair(fg, bg));
    }
}

} // verus!
