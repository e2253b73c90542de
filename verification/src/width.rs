//! Unicode display-width model: measuring strings in terminal columns,
//! truncating to a column budget, and padding to an exact width.

use vstd::prelude::*;

verus! {

/// Display width, in terminal columns, of one character as the
/// `unicode_width` crate measures it: 0 for combining marks and control
/// characters, 2 for wide East-Asian characters, 1 for most others
/// (never more than 3).
pub uninterp spec fn char_width(c: char) -> nat;

/// Display width of a character sequence: the sum of its characters'
/// individual widths.
pub open spec fn str_width(s: Seq<char>) -> nat
    decreases s.len(),
{
    if s.len() == 0 {
        0
    } else {
        str_width(s.drop_last()) + char_width(s.last())
    }
}

/// Relies on `unicode_width::UnicodeWidthChar::width`: the width of a
/// character depends on the character alone and is at most 3 columns;
/// control characters (`None`) count as 0. ASCII space and the
/// private-use rounded-border glyphs are single-column per its tables.
#[verifier::external_body]
pub(crate) fn char_cols(c: char) -> (r: usize)
    ensures
        r == char_width(c),
        r <= 3,
        c == ' ' ==> r == 1,
        c == '\u{e0b6}' ==> r == 1,
        c == '\u{e0b4}' ==> r == 1,
{
    unicode_width::UnicodeWidthChar::width(c).unwrap_or(0)
}

/// Relies on `String::push`: appends exactly the given character.
#[verifier::external_body]
pub(crate) fn push_char(s: &mut String, c: char)
    ensures
        final(s)@ == old(s)@.push(c),
{
    s.push(c);
}

/// Character counts this large keep every width sum inside `usize`
/// (each character is at most three columns wide).
pub open spec fn fits_width(s: Seq<char>) -> bool {
    s.len() <= usize::MAX / 4
}

pub proof fn lemma_str_width_one(c: char)
    ensures
        str_width(seq![c]) == char_width(c),
{
    assert(str_width(Seq::<char>::empty()) == 0);
    assert(seq![c].drop_last() =~= Seq::<char>::empty());
    assert(seq![c].last() == c);
}

pub proof fn lemma_str_width_concat(a: Seq<char>, b: Seq<char>)
    ensures
        str_width(a + b) == str_width(a) + str_width(b),
    decreases b.len(),
{
    if b.len() == 0 {
        assert(a + b =~= a);
    } else {
        lemma_str_width_concat(a, b.drop_last());
        assert((a + b).drop_last() =~= a + b.drop_last());
        assert((a + b).last() == b.last());
    }
}

/// Total display width of `text` in terminal columns.
pub fn display_width(text: &str) -> (r: usize)
    requires
        fits_width(text@),
    ensures
        r == str_width(text@),
        r <= 3 * text@.len(),
{
    let n = text.unicode_len();
    let mut i: usize = 0;
    let mut total: usize = 0;
    while i < n
        invariant
            n == text@.len(),
            fits_width(text@),
            i <= n,
            total == str_width(text@.take(i as int)),
            total <= 3 * i,
        decreases n - i,
    {
        let c = text.get_char(i);
        let w = char_cols(c);
        proof {
            assert(text@.take(i as int + 1).drop_last() =~= text@.take(i as int));
            assert(text@.take(i as int + 1).last() == text@[i as int]);
        }
        total = total + w;
        i = i + 1;
    }
    proof {
        assert(text@.take(n as int) =~= text@);
    }
    total
}

/// The greedy truncation of `s` to at most `w` columns: characters are
/// taken left to right, and the scan stops at the first character whose
/// width would push the total over `w`.
pub open spec fn trim_spec(s: Seq<char>, w: nat) -> Seq<char>
    decreases s.len(),
{
    if s.len() == 0 {
        Seq::empty()
    } else if char_width(s[0]) > w {
        Seq::empty()
    } else {
        seq![s[0]] + trim_spec(s.drop_first(), (w - char_width(s[0])) as nat)
    }
}

/// The truncation never exceeds the budget, keeps a whole-character
/// prefix of the input (so it never splits a wide character), and is
/// maximal: the first dropped character would not have fit.
pub proof fn lemma_trim_bounds(s: Seq<char>, w: nat)
    ensures
        str_width(trim_spec(s, w)) <= w,
        trim_spec(s, w).len() <= s.len(),
        trim_spec(s, w) == s.take(trim_spec(s, w).len() as int),
        trim_spec(s, w).len() < s.len() ==> str_width(trim_spec(s, w)) + char_width(
            s[trim_spec(s, w).len() as int],
        ) > w,
    decreases s.len(),
{
    if s.len() == 0 {
        assert(trim_spec(s, w) =~= s.take(0));
    } else if char_width(s[0]) > w {
        assert(trim_spec(s, w) =~= s.take(0));
    } else {
        let w0 = char_width(s[0]);
        let rest = trim_spec(s.drop_first(), (w - w0) as nat);
        lemma_trim_bounds(s.drop_first(), (w - w0) as nat);
        lemma_str_width_concat(seq![s[0]], rest);
        lemma_str_width_one(s[0]);
        assert(seq![s[0]] + rest =~= s.take(rest.len() as int + 1)) by {
            assert(rest == s.drop_first().take(rest.len() as int));
        }
    }
}

/// Truncating a string that already fits the budget keeps it whole.
pub proof fn lemma_trim_noop(s: Seq<char>, w: nat)
    requires
        str_width(s) <= w,
    ensures
        trim_spec(s, w) == s,
    decreases s.len(),
{
    if s.len() > 0 {
        assert(s =~= seq![s[0]] + s.drop_first());
        lemma_str_width_concat(seq![s[0]], s.drop_first());
        lemma_str_width_one(s[0]);
        lemma_trim_noop(s.drop_first(), (w - char_width(s[0])) as nat);
        assert(trim_spec(s, w) =~= s);
    }
}

/// `n` ASCII spaces.
pub open spec fn spaces(n: nat) -> Seq<char>
    decreases n,
{
    if n == 0 {
        Seq::empty()
    } else {
        spaces((n - 1) as nat).push(' ')
    }
}

pub proof fn lemma_spaces_width(n: nat)
    requires
        char_width(' ') == 1,
    ensures
        spaces(n).len() == n,
        str_width(spaces(n)) == n,
    decreases n,
{
    if n > 0 {
        lemma_spaces_width((n - 1) as nat);
        assert(spaces(n).drop_last() =~= spaces((n - 1) as nat));
    }
}

/// A cell's text at an exact column width: empty for width 0, otherwise
/// the greedy truncation right-padded with ASCII spaces up to `w`.
pub open spec fn fit_spec(s: Seq<char>, w: nat) -> Seq<char> {
    if w == 0 {
        Seq::empty()
    } else {
        trim_spec(s, w) + spaces((w - str_width(trim_spec(s, w))) as nat)
    }
}

/// The fitted text always measures exactly the requested width.
pub proof fn lemma_fit_width(s: Seq<char>, w: nat)
    requires
        char_width(' ') == 1,
    ensures
        str_width(fit_spec(s, w)) == w,
{
    if w > 0 {
        lemma_trim_bounds(s, w);
        lemma_str_width_concat(trim_spec(s, w), spaces((w - str_width(trim_spec(s, w))) as nat));
        lemma_spaces_width((w - str_width(trim_spec(s, w))) as nat);
    }
}

/// Fitting a string that already fits a positive budget only pads on
/// the right: the input survives unchanged as a prefix.
pub proof fn lemma_fit_pads_only(s: Seq<char>, w: nat)
    requires
        str_width(s) <= w,
        w > 0 || s.len() == 0,
    ensures
        fit_spec(s, w) == s + spaces((w - str_width(s)) as nat),
{
    if w == 0 {
        assert(fit_spec(s, w) =~= s + spaces(0));
    } else {
        lemma_trim_noop(s, w);
    }
}

/// Truncates `text` to at most `max_cols` display columns, consuming
/// characters left to right and stopping before the first character
/// that would exceed the budget.
pub fn trim_to_width(text: &str, max_cols: usize) -> (r: String)
    requires
        fits_width(text@),
    ensures
        r@ == trim_spec(text@, max_cols as nat),
        str_width(r@) <= max_cols,
{
    proof {
        lemma_trim_bounds(text@, max_cols as nat);
    }
    let n = text.unicode_len();
    let mut out = String::new();
    let mut used: usize = 0;
    let mut i: usize = 0;
    let mut stopped = false;
    proof {
        assert(text@.skip(0) =~= text@);
        assert(out@ + trim_spec(text@, max_cols as nat) =~= trim_spec(text@, max_cols as nat));
        assert(out@ =~= text@.take(0));
    }
    while i < n && !stopped
        invariant
            n == text@.len(),
            fits_width(text@),
            i <= n,
            stopped ==> trim_spec(text@, max_cols as nat) == out@,
            !stopped ==> used <= max_cols,
            !stopped ==> out@ == text@.take(i as int),
            !stopped ==> trim_spec(text@, max_cols as nat) == out@ + trim_spec(
                text@.skip(i as int),
                (max_cols - used) as nat,
            ),
        decreases n - i + (if stopped { 0int } else { 1int }),
    {
        let c = text.get_char(i);
        let w = char_cols(c);
        proof {
            assert(text@.skip(i as int).len() > 0);
            assert(text@.skip(i as int)[0] == text@[i as int]);
        }
        if w > max_cols - used {
            proof {
                assert(trim_spec(text@.skip(i as int), (max_cols - used) as nat)
                    =~= Seq::<char>::empty());
                assert(out@ + Seq::<char>::empty() =~= out@);
            }
            stopped = true;
        } else {
            proof {
                assert(text@.skip(i as int).drop_first() =~= text@.skip(i as int + 1));
                assert(out@ + (seq![text@[i as int]] + trim_spec(
                    text@.skip(i as int + 1),
                    (max_cols - (used + w)) as nat,
                )) =~= out@.push(text@[i as int]) + trim_spec(
                    text@.skip(i as int + 1),
                    (max_cols - (used + w)) as nat,
                ));
                assert(text@.take(i as int).push(text@[i as int]) =~= text@.take(i as int + 1));
            }
            push_char(&mut out, c);
            used = used + w;
            i = i + 1;
        }
    }
    proof {
        if !stopped {
            assert(text@.skip(n as int) =~= Seq::<char>::empty());
            assert(out@ + Seq::<char>::empty() =~= out@);
        }
    }
    out
}

/// Returns `text` truncated and right-padded with spaces so that its
/// display width is exactly `width`; the empty string for width 0.
pub fn fit_cell(text: &str, width: usize) -> (r: String)
    requires
        fits_width(text@),
    ensures
        r@ == fit_spec(text@, width as nat),
        str_width(r@) == width as nat,
{
    if width == 0 {
        let r = String::new();
        return r;
    }
    let mut out = trim_to_width(text, width);
    proof {
        lemma_trim_bounds(text@, width as nat);
    }
    // the call brings the padding character's single-column width into scope
    let _space_one: usize = char_cols(' ');
    proof {
        lemma_fit_width(text@, width as nat);
    }
    let trimmed_w = display_width(out.as_str());
    let mut pad = width - trimmed_w;
    let ghost base = out@;
    let ghost total_pad = pad as nat;
    while pad > 0
        invariant
            char_width(' ') == 1,
            pad <= total_pad,
            out@ == base + spaces((total_pad - pad) as nat),
        decreases pad,
    {
        proof {
            assert(base + spaces((total_pad - pad) as nat).push(' ') =~= (base + spaces(
                (total_pad - pad) as nat,
            )).push(' '));
            assert(spaces((total_pad - pad + 1) as nat) == spaces((total_pad - pad) as nat).push(
                ' ',
            ));
        }
        push_char(&mut out, ' ');
        pad = pad - 1;
    }
    proof {
        assert(out@ == fit_spec(text@, width as nat));
    }
    out
}

} // verus!
