//! The three cell renderers: plain block cells, pill cells with rounded
//! border glyphs, and blocks whose `+N`/`-N` diff tokens are recolored.

use vstd::prelude::*;
use vstd::string::{StrSliceExecFns, StringExecFns};

use crate::layout::{fits_cell, seg_text_spec, segment_text, CellV};
use crate::style::{lemma_spans_text_concat, spans_text, spans_view, Hue, SpanV, StyledSpan};
use crate::width::{
    char_width, fit_cell, fit_spec, lemma_fit_width, lemma_str_width_concat, lemma_str_width_one,
    str_width,
};

verus! {

/// A block cell: the padded value fitted to the width, as one run in
/// the given colors.
pub open spec fn block_spans_spec(v: Seq<char>, w: nat, bg: Hue, fg: Hue) -> Seq<SpanV> {
    seq![SpanV { text: fit_spec(seg_text_spec(v), w), fg: fg, bg: bg }]
}

pub fn block_spans(value: &str, width: usize, bg: Hue, fg: Hue) -> (r: Vec<StyledSpan>)
    requires
        fits_cell(value@),
    ensures
        spans_view(r@) == block_spans_spec(value@, width as nat, bg, fg),
{
    let seg = segment_text(value);
    proof {
        reveal_strlit(" ");
        assert(seg@.len() == value@.len() + 2);
    }
    let text = fit_cell(seg.as_str(), width);
    let mut spans: Vec<StyledSpan> = Vec::new();
    spans.push(StyledSpan { text, fg, bg });
    proof {
        assert(spans_view(spans@) =~= block_spans_spec(value@, width as nat, bg, fg));
    }
    spans
}

/// A pill cell: a rounded border glyph on each side of the fitted
/// interior; at widths below the two-column border budget it degrades
/// to a plain block of the given width.
pub open spec fn pill_spans_spec(v: Seq<char>, w: nat, bg: Hue, fg: Hue) -> Seq<SpanV> {
    if w < 2 {
        block_spans_spec(v, w, bg, fg)
    } else {
        seq![
            SpanV { text: "\u{e0b6}"@, fg: bg, bg: Hue::RowBg },
            SpanV { text: fit_spec(seg_text_spec(v), (w - 2) as nat), fg: fg, bg: bg },
            SpanV { text: "\u{e0b4}"@, fg: bg, bg: Hue::RowBg },
        ]
    }
}

pub fn pill_spans(value: &str, width: usize, bg: Hue, fg: Hue) -> (r: Vec<StyledSpan>)
    requires
        fits_cell(value@),
    ensures
        spans_view(r@) == pill_spans_spec(value@, width as nat, bg, fg),
{
    if width < 2 {
        return block_spans(value, width, bg, fg);
    }
    let seg = segment_text(value);
    proof {
        reveal_strlit(" ");
        assert(seg@.len() == value@.len() + 2);
    }
    let inner = fit_cell(seg.as_str(), width - 2);
    let mut spans: Vec<StyledSpan> = Vec::new();
    spans.push(StyledSpan { text: String::from_str("\u{e0b6}"), fg: bg, bg: Hue::RowBg });
    spans.push(StyledSpan { text: inner, fg, bg });
    spans.push(StyledSpan { text: String::from_str("\u{e0b4}"), fg: bg, bg: Hue::RowBg });
    proof {
        assert(spans_view(spans@) =~= pill_spans_spec(value@, width as nat, bg, fg));
    }
    spans
}

/// An ASCII decimal digit.
pub open spec fn is_digit(c: char) -> bool {
    48 <= c as u32 <= 57
}

/// A diff token sign.
pub open spec fn is_sign(c: char) -> bool {
    c == '+' || c == '-'
}

/// A diff token starts here: a sign immediately followed by a digit.
pub open spec fn tok_start(t: Seq<char>) -> bool {
    t.len() >= 2 && is_sign(t[0]) && is_digit(t[1])
}

/// The length of the leading run of ASCII digits.
pub open spec fn digit_run(t: Seq<char>) -> nat
    decreases t.len(),
{
    if t.len() == 0 || !is_digit(t[0]) {
        0
    } else {
        1 + digit_run(t.drop_first())
    }
}

pub proof fn lemma_digit_run_char(s: Seq<char>, a: int)
    requires
        0 <= a <= s.len(),
        forall|j: int| 0 <= j < a ==> is_digit(#[trigger] s[j]),
        a < s.len() ==> !is_digit(s[a]),
    ensures
        digit_run(s) == a,
    decreases a,
{
    if a > 0 {
        assert(is_digit(s[0]));
        lemma_digit_run_char(s.drop_first(), a - 1);
    }
}

pub proof fn lemma_digit_run_le(t: Seq<char>)
    ensures
        digit_run(t) <= t.len(),
    decreases t.len(),
{
    if t.len() > 0 && is_digit(t[0]) {
        lemma_digit_run_le(t.drop_first());
    }
}

/// The diff-highlight state machine over one cell's fitted text: `buf`
/// accumulates plain characters; a sign immediately followed by digits
/// is emitted as its own run, green for `+` and red for `-`; the scan
/// is single-pass, greedy and non-overlapping.
pub open spec fn diff_runs(buf: Seq<char>, t: Seq<char>, bg: Hue, fg: Hue) -> Seq<SpanV>
    decreases t.len(),
    via diff_runs_dec
{
    if t.len() == 0 {
        if buf.len() == 0 {
            Seq::empty()
        } else {
            seq![SpanV { text: buf, fg: fg, bg: bg }]
        }
    } else if tok_start(t) {
        let k = 1 + digit_run(t.drop_first());
        let tok = SpanV {
            text: t.take(k as int),
            fg: if t[0] == '+' {
                Hue::PlusFg
            } else {
                Hue::MinusFg
            },
            bg: bg,
        };
        let flushed = if buf.len() == 0 {
            seq![tok]
        } else {
            seq![SpanV { text: buf, fg: fg, bg: bg }, tok]
        };
        flushed + diff_runs(Seq::empty(), t.skip(k as int), bg, fg)
    } else {
        diff_runs(buf.push(t[0]), t.drop_first(), bg, fg)
    }
}

#[via_fn]
proof fn diff_runs_dec(buf: Seq<char>, t: Seq<char>, bg: Hue, fg: Hue) {
    if t.len() > 0 && tok_start(t) {
        lemma_digit_run_le(t.drop_first());
    }
}

/// A diff-highlighted block cell: the fitted text split into plain and
/// token runs.
pub open spec fn diff_spans_spec(v: Seq<char>, w: nat, bg: Hue, fg: Hue) -> Seq<SpanV> {
    diff_runs(Seq::empty(), fit_spec(seg_text_spec(v), w), bg, fg)
}

pub(crate) fn is_digit_char(c: char) -> (r: bool)
    ensures
        r == is_digit(c),
{
    c as u32 >= 48 && c as u32 <= 57
}

/// Renders column 2: a block cell whose `+N`/`-N` tokens are recolored
/// green and red while the rest keeps the base colors.
pub fn git_changes_spans(value: &str, width: usize, bg: Hue, fg: Hue) -> (r: Vec<StyledSpan>)
    requires
        fits_cell(value@),
    ensures
        spans_view(r@) == diff_spans_spec(value@, width as nat, bg, fg),
{
    let seg = segment_text(value);
    proof {
        reveal_strlit(" ");
        assert(seg@.len() == value@.len() + 2);
    }
    let text = fit_cell(seg.as_str(), width);
    let ghost tv = text@;
    let n = text.as_str().unicode_len();
    let mut spans: Vec<StyledSpan> = Vec::new();
    let mut buffer = String::new();
    let mut i: usize = 0;
    proof {
        assert(tv.skip(0) =~= tv);
        assert(spans_view(spans@) =~= Seq::<SpanV>::empty());
        assert(Seq::<SpanV>::empty() + diff_runs(buffer@, tv, bg, fg) =~= diff_runs(
            buffer@,
            tv,
            bg,
            fg,
        ));
    }
    while i < n
        invariant
            n == tv.len(),
            tv == text@,
            i <= n,
            diff_spans_spec(value@, width as nat, bg, fg) == spans_view(spans@) + diff_runs(
                buffer@,
                tv.skip(i as int),
                bg,
                fg,
            ),
        decreases n - i,
    {
        proof {
            assert(tv.skip(i as int).len() > 0);
            assert(tv.skip(i as int)[0] == tv[i as int]);
            assert(tv.skip(i as int).drop_first() =~= tv.skip(i as int + 1));
        }
        let c = text.as_str().get_char(i);
        let sign = c == '+' || c == '-';
        let next_digit = if i + 1 < n {
            is_digit_char(text.as_str().get_char(i + 1))
        } else {
            false
        };
        if sign && next_digit {
            proof {
                assert(tv.skip(i as int)[1] == tv[i as int + 1]);
                assert(tok_start(tv.skip(i as int)));
            }
            let ghost old_spans = spans@;
            let ghost old_buf = buffer@;
            if !buffer.as_str().is_empty() {
                let flushed = buffer;
                buffer = String::new();
                spans.push(StyledSpan { text: flushed, fg, bg });
            }
            // scan the digit run that follows the sign
            let mut j = i + 1;
            while j < n && is_digit_char(text.as_str().get_char(j))
                invariant
                    n == tv.len(),
                    tv == text@,
                    i + 1 <= j <= n,
                    digit_run(tv.skip(i as int + 1)) == j - i - 1 + digit_run(tv.skip(j as int)),
                decreases n - j,
            {
                proof {
                    assert(tv.skip(j as int).len() > 0);
                    assert(tv.skip(j as int)[0] == tv[j as int]);
                    assert(tv.skip(j as int).drop_first() =~= tv.skip(j as int + 1));
                }
                j = j + 1;
            }
            proof {
                if j < n {
                    assert(tv.skip(j as int)[0] == tv[j as int]);
                    assert(digit_run(tv.skip(j as int)) == 0);
                } else {
                    assert(tv.skip(j as int) =~= Seq::<char>::empty());
                }
                assert(digit_run(tv.skip(i as int + 1)) == j - i - 1);
                lemma_digit_run_le(tv.skip(i as int + 1));
            }
            let tok: String = text.as_str().substring_char(i, j).to_owned();
            let color = if c == '+' {
                Hue::PlusFg
            } else {
                Hue::MinusFg
            };
            let ghost tok_v = tok@;
            spans.push(StyledSpan { text: tok, fg: color, bg });
            proof {
                let s0 = tv.skip(i as int);
                let k: nat = 1 + digit_run(s0.drop_first());
                assert(s0.drop_first() =~= tv.skip(i as int + 1));
                assert(k == j - i);
                assert(s0.take(k as int) =~= tv.subrange(i as int, j as int));
                assert(s0.skip(k as int) =~= tv.skip(j as int));
                assert(buffer@ =~= Seq::<char>::empty());
                let tok_span = SpanV {
                    text: s0.take(k as int),
                    fg: if s0[0] == '+' {
                        Hue::PlusFg
                    } else {
                        Hue::MinusFg
                    },
                    bg: bg,
                };
                assert(tok_span.text == tok_v);
                let rec = diff_runs(Seq::<char>::empty(), s0.skip(k as int), bg, fg);
                if old_buf.len() == 0 {
                    assert(diff_runs(old_buf, s0, bg, fg) == seq![tok_span] + rec);
                    assert(spans_view(spans@) =~= spans_view(old_spans).push(tok_span));
                    assert(spans_view(old_spans).push(tok_span) + rec =~= spans_view(old_spans)
                        + (seq![tok_span] + rec));
                } else {
                    let buf_span = SpanV { text: old_buf, fg: fg, bg: bg };
                    assert(diff_runs(old_buf, s0, bg, fg) == seq![buf_span, tok_span] + rec);
                    assert(spans_view(spans@) =~= spans_view(old_spans).push(buf_span).push(
                        tok_span,
                    ));
                    assert(spans_view(old_spans).push(buf_span).push(tok_span) + rec
                        =~= spans_view(old_spans) + (seq![buf_span, tok_span] + rec));
                }
                assert(diff_runs(Seq::<char>::empty(), tv.skip(j as int), bg, fg) == rec);
            }
            i = j;
        } else {
            proof {
                assert(!tok_start(tv.skip(i as int)));
            }
            crate::width::push_char(&mut buffer, c);
            i = i + 1;
        }
    }
    proof {
        assert(tv.skip(n as int) =~= Seq::<char>::empty());
    }
    if !buffer.as_str().is_empty() {
        spans.push(StyledSpan { text: buffer, fg, bg });
        proof {
            assert(spans_view(spans@) =~= diff_spans_spec(value@, width as nat, bg, fg));
        }
        spans
    } else {
        proof {
            assert(spans_view(spans@) + Seq::<SpanV>::empty() =~= spans_view(spans@));
        }
        spans
    }
}

/// The width-table facts the layout laws rest on: the padding space
/// and the two pill border glyphs are single-column (as `char_cols`
/// reports of the `unicode_width` tables).
pub open spec fn narrow_marks() -> bool {
    char_width(' ') == 1 && char_width('\u{e0b6}') == 1 && char_width('\u{e0b4}') == 1
}

/// Confirms at run time the width-table facts that the layout laws
/// take as hypotheses.
pub fn check_narrow_marks() -> (r: bool)
    ensures
        r ==> narrow_marks(),
{
    let a = crate::width::char_cols(' ');
    let b = crate::width::char_cols('\u{e0b6}');
    let c = crate::width::char_cols('\u{e0b4}');
    a == 1 && b == 1 && c == 1
}

/// The diff runs together spell out exactly the scanned text: the
/// highlighter recolors but never drops or reorders a character.
pub proof fn lemma_diff_runs_text(buf: Seq<char>, t: Seq<char>, bg: Hue, fg: Hue)
    ensures
        spans_text(diff_runs(buf, t, bg, fg)) == buf + t,
    decreases t.len(),
{
    assert(spans_text(Seq::<SpanV>::empty()) == Seq::<char>::empty());
    if t.len() == 0 {
        if buf.len() == 0 {
            assert(spans_text(diff_runs(buf, t, bg, fg)) =~= buf + t);
        } else {
            assert(seq![SpanV { text: buf, fg: fg, bg: bg }].drop_first() =~= Seq::<SpanV>::empty());
            assert(buf + Seq::<char>::empty() =~= buf + t);
        }
    } else if (tok_start(t)) {
        let k: nat = 1 + digit_run(t.drop_first());
        lemma_digit_run_le(t.drop_first());
        let tok = SpanV {
            text: t.take(k as int),
            fg: if t[0] == '+' {
                Hue::PlusFg
            } else {
                Hue::MinusFg
            },
            bg: bg,
        };
        let flushed = if buf.len() == 0 {
            seq![tok]
        } else {
            seq![SpanV { text: buf, fg: fg, bg: bg }, tok]
        };
        let rec = diff_runs(Seq::empty(), t.skip(k as int), bg, fg);
        lemma_diff_runs_text(Seq::empty(), t.skip(k as int), bg, fg);
        lemma_spans_text_concat(flushed, rec);
        assert(seq![tok].drop_first() =~= Seq::<SpanV>::empty());
        assert(t.take(k as int) + Seq::<char>::empty() =~= t.take(k as int));
        assert(spans_text(seq![tok]) =~= t.take(k as int));
        if buf.len() == 0 {
            assert(spans_text(flushed) =~= t.take(k as int));
        } else {
            assert(flushed.drop_first() =~= seq![tok]);
            assert(buf + (t.take(k as int) + Seq::<char>::empty()) =~= buf + t.take(k as int));
            assert(spans_text(flushed) =~= buf + t.take(k as int));
        }
        assert(Seq::<char>::empty() + t.skip(k as int) =~= t.skip(k as int));
        assert(spans_text(flushed) + t.skip(k as int) =~= buf + t) by {
            assert(t.take(k as int) + t.skip(k as int) =~= t);
        }
    } else {
        lemma_diff_runs_text(buf.push(t[0]), t.drop_first(), bg, fg);
        assert(buf.push(t[0]) + t.drop_first() =~= buf + t);
    }
}

/// Every rendered cell shows text of exactly its resolved width.
pub proof fn lemma_cell_spans_width(c: CellV)
    requires
        narrow_marks(),
    ensures
        str_width(spans_text(cell_spans_spec(c))) == c.width,
{
    let interior = seg_text_spec(c.value);
    if (c.idx == 0 || c.idx == 3) && c.width >= 2 {
        let bgh = if c.idx == 0 {
            Hue::Sakura
        } else {
            Hue::Leaf
        };
        let fgh = if c.idx == 0 {
            Hue::SakuraInk
        } else {
            Hue::LeafInk
        };
        let fit = fit_spec(interior, (c.width - 2) as nat);
        let spans = pill_spans_spec(c.value, c.width, bgh, fgh);
        reveal_strlit("\u{e0b6}");
        reveal_strlit("\u{e0b4}");
        assert("\u{e0b6}"@ =~= seq!['\u{e0b6}']);
        assert("\u{e0b4}"@ =~= seq!['\u{e0b4}']);
        lemma_str_width_one('\u{e0b6}');
        lemma_str_width_one('\u{e0b4}');
        assert(spans_text(Seq::<SpanV>::empty()) == Seq::<char>::empty());
        let s1 = spans.drop_first();
        let s2 = s1.drop_first();
        assert(s1 =~= seq![spans[1], spans[2]]);
        assert(s2 =~= seq![spans[2]]);
        assert(s2.drop_first() =~= Seq::<SpanV>::empty());
        assert(spans_text(s2) =~= "\u{e0b4}"@);
        assert(spans_text(s1) =~= fit + "\u{e0b4}"@);
        assert(spans_text(spans) =~= "\u{e0b6}"@ + (fit + "\u{e0b4}"@));
        lemma_str_width_concat(fit, "\u{e0b4}"@);
        lemma_str_width_concat("\u{e0b6}"@, fit + "\u{e0b4}"@);
        lemma_fit_width(interior, (c.width - 2) as nat);
    } else if c.idx == 2 {
        let fit = fit_spec(interior, c.width);
        lemma_diff_runs_text(Seq::empty(), fit, Hue::MidBg, Hue::MidFg);
        assert(Seq::<char>::empty() + fit =~= fit);
        lemma_fit_width(interior, c.width);
    } else {
        // a plain block, or a pill degraded to one
        let bgh = if c.idx == 0 {
            Hue::Sakura
        } else if c.idx == 3 {
            Hue::Leaf
        } else {
            Hue::MidBg
        };
        let fgh = if c.idx == 0 {
            Hue::SakuraInk
        } else if c.idx == 3 {
            Hue::LeafInk
        } else {
            Hue::MidFg
        };
        let fit = fit_spec(interior, c.width);
        let spans = block_spans_spec(c.value, c.width, bgh, fgh);
        assert(spans_text(Seq::<SpanV>::empty()) == Seq::<char>::empty());
        assert(spans.drop_first() =~= Seq::<SpanV>::empty());
        assert(fit + Seq::<char>::empty() =~= fit);
        lemma_fit_width(interior, c.width);
    }
}

/// The cell renderer for each column role: pills on the badge columns
/// 0 and 3, the diff-highlighted block on column 2, and a plain block
/// on column 1.
pub open spec fn cell_spans_spec(c: CellV) -> Seq<SpanV> {
    if c.idx == 0 {
        pill_spans_spec(c.value, c.width, Hue::Sakura, Hue::SakuraInk)
    } else if c.idx == 3 {
        pill_spans_spec(c.value, c.width, Hue::Leaf, Hue::LeafInk)
    } else if c.idx == 2 {
        diff_spans_spec(c.value, c.width, Hue::MidBg, Hue::MidFg)
    } else {
        block_spans_spec(c.value, c.width, Hue::MidBg, Hue::MidFg)
    }
}

} // verus!
