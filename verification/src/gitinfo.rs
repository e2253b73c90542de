//! Parsing of version-control command output: branch name, line-change
//! totals, repository name and ahead/behind counts, plus the assembly
//! of the four repository fields from raw command outputs.

use vstd::prelude::*;
use vstd::string::{StrSliceExecFns, StringExecFns};

use crate::cells::{digit_run, is_digit, is_digit_char, lemma_digit_run_char};
use crate::style::{dec_rep, push_dec};
use crate::text::{
    find_char, find_char_spec, find_last_char, find_last_char_spec, find_sub, find_sub_spec,
    has_prefix, is_ws, lead_ws, lemma_find_char_bounds, lemma_find_char_shift,
    lemma_find_last_char_bounds, lemma_find_sub_bounds, lemma_lead_ws_char,
    lemma_non_ws_run_char, match_at, non_ws_run, opt_str, parse_u64, parse_u64_spec, sat_add,
    sat_add_u64, trim_ascii, trimmed,
};

verus! {

/// The four repository fields of a snapshot.
#[derive(Clone, Debug)]
pub struct GitInfo {
    pub repository: String,
    pub branch: String,
    pub changes: String,
    pub ahead_behind: String,
}

/// The first line of a command output, without its newline and without
/// a trailing carriage return.
pub open spec fn first_line(s: Seq<char>) -> Seq<char> {
    let raw = match find_char_spec(s, '\n', 0) {
        Some(i) => s.take(i),
        None => s,
    };
    if raw.len() > 0 && raw.last() == '\r' {
        raw.drop_last()
    } else {
        raw
    }
}

fn first_line_of(s: &str) -> (r: String)
    ensures
        r@ == first_line(s@),
{
    let n = s.unicode_len();
    proof {
        lemma_find_char_bounds(s@, '\n', 0);
    }
    let end = match find_char(s, '\n', 0) {
        Some(i) => i,
        None => n,
    };
    proof {
        assert(s@.take(n as int) =~= s@);
    }
    let ghost raw = s@.take(end as int);
    let end2 = if end > 0 && s.get_char(end - 1) == '\r' {
        end - 1
    } else {
        end
    };
    proof {
        if end > 0 {
            assert(raw.last() == s@[end - 1]);
            assert(raw.drop_last() =~= s@.take(end as int - 1));
        }
        assert(s@.subrange(0, end2 as int) =~= s@.take(end2 as int));
    }
    s.substring_char(0, end2).to_owned()
}

/// The sentinel text for an unavailable field.
fn dash() -> (r: String)
    ensures
        r@ == "-"@,
{
    String::from_str("-")
}

/// The branch shown for a status output: the text after `## ` on its
/// first line, cut before any `...` tracking suffix and trimmed;
/// `detached` for a detached head; nothing when the line is not a
/// branch header or the name is empty.
pub open spec fn branch_of(status: Seq<char>) -> Option<Seq<char>> {
    if status.len() == 0 {
        None
    } else {
        let l = first_line(status);
        if !match_at(l, "## "@, 0) {
            None
        } else {
            let b = l.skip(3);
            if find_sub_spec(b, "(no branch)"@, 0) is Some || match_at(b, "HEAD"@, 0) {
                Some("detached"@)
            } else {
                let name0 = match find_sub_spec(b, "..."@, 0) {
                    Some(i) => b.take(i),
                    None => b,
                };
                let name = trimmed(name0);
                if name.len() == 0 {
                    None
                } else {
                    Some(name)
                }
            }
        }
    }
}

pub fn parse_branch(status_output: &str) -> (r: Option<String>)
    ensures
        opt_str(r) == branch_of(status_output@),
{
    proof {
        reveal_strlit("## ");
        reveal_strlit("(no branch)");
        reveal_strlit("HEAD");
        reveal_strlit("...");
        reveal_strlit("detached");
    }
    if s_len(status_output) == 0 {
        return None;
    }
    let l = first_line_of(status_output);
    if !has_prefix(l.as_str(), "## ") {
        return None;
    }
    let ln = l.as_str().unicode_len();
    let b = l.as_str().substring_char(3, ln).to_owned();
    proof {
        assert(b@ =~= l@.skip(3));
    }
    if find_sub(b.as_str(), "(no branch)", 0).is_some() || has_prefix(b.as_str(), "HEAD") {
        return Some(String::from_str("detached"));
    }
    let name0 = match find_sub(b.as_str(), "...", 0) {
        Some(i) => {
            proof {
                lemma_find_sub_bounds(b@, "..."@, 0);
                assert(b@.subrange(0, i as int) =~= b@.take(i as int));
            }
            b.as_str().substring_char(0, i).to_owned()
        },
        None => b,
    };
    let name = trim_ascii(name0.as_str());
    if name.as_str().unicode_len() == 0 {
        None
    } else {
        Some(name)
    }
}

fn s_len(s: &str) -> (r: usize)
    ensures
        r == s@.len(),
{
    s.unicode_len()
}

/// The path with a `.git` suffix removed.
pub open spec fn strip_git(p: Seq<char>) -> Seq<char> {
    if p.len() >= 4 && match_at(p, ".git"@, p.len() - 4) {
        p.take(p.len() - 4)
    } else {
        p
    }
}

fn strip_git_of(p: String) -> (r: String)
    ensures
        r@ == strip_git(p@),
{
    proof {
        reveal_strlit(".git");
    }
    let n = p.as_str().unicode_len();
    if n >= 4 && ends_with_git(p.as_str(), n) {
        proof {
            assert(p@.subrange(0, n as int - 4) =~= p@.take(n as int - 4));
        }
        p.as_str().substring_char(0, n - 4).to_owned()
    } else {
        p
    }
}

fn ends_with_git(p: &str, n: usize) -> (r: bool)
    requires
        n == p@.len(),
        n >= 4,
    ensures
        r == match_at(p@, ".git"@, n - 4),
{
    proof {
        reveal_strlit(".git");
    }
    crate::text::match_here(p, ".git", n - 4)
}

/// Everything after the third `/`, or nothing when there are fewer
/// than three.
pub open spec fn after_third_slash(url: Seq<char>) -> Seq<char> {
    match find_char_spec(url, '/', 0) {
        None => Seq::empty(),
        Some(a) => match find_char_spec(url, '/', a + 1) {
            None => Seq::empty(),
            Some(b) => match find_char_spec(url, '/', b + 1) {
                None => Seq::empty(),
                Some(c) => url.skip(c + 1),
            },
        },
    }
}

/// The `owner/name` part of a remote URL: the text after the colon of
/// an `git@host:...` SSH remote, or the path after the host of an
/// `https://` or `http://` remote, each with any `.git` suffix
/// removed; nothing for other shapes.
pub open spec fn repo_of(url: Seq<char>) -> Option<Seq<char>> {
    if match_at(url, "git@"@, 0) {
        let rest = url.skip(4);
        match find_char_spec(rest, ':', 0) {
            None => None,
            Some(i) => {
                let seg = match find_char_spec(rest, ':', i + 1) {
                    Some(j) => rest.subrange(i + 1, j),
                    None => rest.skip(i + 1),
                };
                Some(strip_git(seg))
            },
        }
    } else if match_at(url, "https://"@, 0) || match_at(url, "http://"@, 0) {
        Some(strip_git(after_third_slash(url)))
    } else {
        None
    }
}

pub fn parse_repo_from_url(url: &str) -> (r: Option<String>)
    ensures
        opt_str(r) == repo_of(url@),
{
    proof {
        reveal_strlit("git@");
        reveal_strlit("https://");
        reveal_strlit("http://");
    }
    let n = url.unicode_len();
    if has_prefix(url, "git@") {
        let rest = url.substring_char(4, n).to_owned();
        proof {
            assert(rest@ =~= url@.skip(4));
        }
        let rn = rest.as_str().unicode_len();
        match find_char(rest.as_str(), ':', 0) {
            None => None,
            Some(i) => {
                proof {
                    lemma_find_char_bounds(rest@, ':', 0);
                }
                let seg = match find_char(rest.as_str(), ':', i + 1) {
                    Some(j) => {
                        proof {
                            lemma_find_char_bounds(rest@, ':', i as int + 1);
                        }
                        rest.as_str().substring_char(i + 1, j).to_owned()
                    },
                    None => {
                        proof {
                            assert(rest@.subrange(i as int + 1, rn as int) =~= rest@.skip(
                                i as int + 1,
                            ));
                        }
                        rest.as_str().substring_char(i + 1, rn).to_owned()
                    },
                };
                Some(strip_git_of(seg))
            },
        }
    } else if has_prefix(url, "https://") || has_prefix(url, "http://") {
        let path = match find_char(url, '/', 0) {
            None => String::new(),
            Some(a) => {
                proof {
                    lemma_find_char_bounds(url@, '/', 0);
                }
                match find_char(url, '/', a + 1) {
                    None => String::new(),
                    Some(b) => {
                        proof {
                            lemma_find_char_bounds(url@, '/', a as int + 1);
                        }
                        match find_char(url, '/', b + 1) {
                            None => String::new(),
                            Some(c) => {
                                proof {
                                    lemma_find_char_bounds(url@, '/', b as int + 1);
                                    assert(url@.subrange(c as int + 1, n as int) =~= url@.skip(
                                        c as int + 1,
                                    ));
                                }
                                url.substring_char(c + 1, n).to_owned()
                            },
                        }
                    },
                }
            },
        };
        Some(strip_git_of(path))
    } else {
        None
    }
}

/// The count that follows one occurrence of `pat`: the digits right
/// after it, read as a number; zero when the pattern is absent, the
/// digit run is empty or unterminated, or the number overflows.
pub open spec fn count_after(l: Seq<char>, pat: Seq<char>) -> nat {
    match find_sub_spec(l, pat, 0) {
        None => 0,
        Some(p) => {
            let rest = l.skip(p + pat.len());
            let d = digit_run(rest);
            if d == rest.len() || d == 0 {
                0
            } else {
                match parse_u64_spec(rest.take(d as int)) {
                    Some(v) => v as nat,
                    None => 0,
                }
            }
        },
    }
}

fn count_after_of(l: &str, pat: &str) -> (r: u64)
    requires
        pat@.len() >= 1,
    ensures
        r as nat == count_after(l@, pat@),
{
    let n = l.unicode_len();
    match find_sub(l, pat, 0) {
        None => 0,
        Some(p) => {
            proof {
                lemma_find_sub_bounds(l@, pat@, 0);
            }
            let plen = pat.unicode_len();
            let start = p + plen;
            let ghost rest = l@.skip(start as int);
            let mut j = start;
            while j < n && is_digit_char(l.get_char(j))
                invariant
                    n == l@.len(),
                    start <= j <= n,
                    rest == l@.skip(start as int),
                    forall|k: int| start <= k < j ==> is_digit(#[trigger] l@[k]),
                decreases n - j,
            {
                j = j + 1;
            }
            proof {
                assert forall|kk: int| 0 <= kk < j - start implies is_digit(
                    #[trigger] rest[kk],
                ) by {
                    assert(rest[kk] == l@[start + kk]);
                }
                if j < n {
                    assert(rest[j - start] == l@[j as int]);
                }
                lemma_digit_run_char(rest, j - start);
            }
            if j == n || j == start {
                return 0;
            }
            let tok = l.substring_char(start, j).to_owned();
            proof {
                assert(tok@ =~= rest.take(j - start));
            }
            match parse_u64(tok.as_str()) {
                Some(v) => v,
                None => 0,
            }
        },
    }
}

/// The ahead/behind field for a status output: up and down arrows with
/// the counts from the `[ahead N, behind M]` annotation; `synced` when
/// both are zero and the branch tracks a remote; the sentinel when
/// both are zero without one; nothing for an empty output.
pub open spec fn ahead_behind_of(status: Seq<char>) -> Option<Seq<char>> {
    if status.len() == 0 {
        None
    } else {
        let l = first_line(status);
        let a = count_after(l, "[ahead "@);
        let b = count_after(l, "behind "@);
        if a == 0 && b == 0 {
            if find_sub_spec(l, "..."@, 0) is Some {
                Some("synced"@)
            } else {
                Some("-"@)
            }
        } else {
            Some("↑"@ + dec_rep(a) + " ↓"@ + dec_rep(b))
        }
    }
}

pub fn parse_ahead_behind(status_output: &str) -> (r: Option<String>)
    ensures
        opt_str(r) == ahead_behind_of(status_output@),
{
    proof {
        reveal_strlit("[ahead ");
        reveal_strlit("behind ");
        reveal_strlit("...");
        reveal_strlit("synced");
    }
    if s_len(status_output) == 0 {
        return None;
    }
    let l = first_line_of(status_output);
    let a = count_after_of(l.as_str(), "[ahead ");
    let b = count_after_of(l.as_str(), "behind ");
    if a == 0 && b == 0 {
        if find_sub(l.as_str(), "...", 0).is_some() {
            Some(String::from_str("synced"))
        } else {
            Some(dash())
        }
    } else {
        let mut out = String::new();
        out.append("↑");
        push_dec(&mut out, a);
        out.append(" ↓");
        push_dec(&mut out, b);
        proof {
            assert(out@ =~= "↑"@ + dec_rep(a as nat) + " ↓"@ + dec_rep(b as nat));
        }
        Some(out)
    }
}

pub open spec fn opt_count(v: Option<u64>) -> nat {
    match v {
        Some(x) => x as nat,
        None => 0,
    }
}

/// The two counts of one numstat line: its first two
/// whitespace-separated tokens, each read as a number where it parses
/// and as zero where it does not; nothing counts unless both tokens
/// are present.
pub open spec fn token_counts(l: Seq<char>) -> (nat, nat) {
    let a0 = lead_ws(l);
    let k1 = non_ws_run(l.skip(a0 as int));
    if k1 == 0 {
        (0, 0)
    } else {
        let t1 = l.skip(a0 as int).take(k1 as int);
        let rest1 = l.skip(a0 + k1 as int);
        let a1 = lead_ws(rest1);
        let k2 = non_ws_run(rest1.skip(a1 as int));
        if k2 == 0 {
            (0, 0)
        } else {
            let t2 = rest1.skip(a1 as int).take(k2 as int);
            (opt_count(parse_u64_spec(t1)), opt_count(parse_u64_spec(t2)))
        }
    }
}

/// Everything after the first newline; nothing when there is none.
pub open spec fn rest_after(s: Seq<char>) -> Seq<char> {
    match find_char_spec(s, '\n', 0) {
        Some(i) => s.skip(i + 1),
        None => Seq::empty(),
    }
}

/// The added/deleted totals of a numstat output: the two leading
/// counts of every line, summed with 64-bit saturation; binary-file
/// markers and malformed tokens count as zero.
pub open spec fn numstat_totals(s: Seq<char>) -> (nat, nat)
    decreases s.len(),
    via numstat_totals_dec
{
    if s.len() == 0 {
        (0, 0)
    } else {
        let c = token_counts(first_line(s));
        let r = numstat_totals(rest_after(s));
        (sat_add(c.0, r.0), sat_add(c.1, r.1))
    }
}

#[via_fn]
proof fn numstat_totals_dec(s: Seq<char>) {
    if s.len() > 0 {
        lemma_find_char_bounds(s, '\n', 0);
    }
}

fn token_counts_of(l: &str) -> (r: (u64, u64))
    ensures
        (r.0 as nat, r.1 as nat) == token_counts(l@),
{
    let n = l.unicode_len();
    let mut a0: usize = 0;
    while a0 < n && crate::text::is_ws_char(l.get_char(a0))
        invariant
            n == l@.len(),
            a0 <= n,
            forall|j: int| 0 <= j < a0 ==> is_ws(l@[j]),
        decreases n - a0,
    {
        a0 = a0 + 1;
    }
    proof {
        lemma_lead_ws_char(l@, a0 as int);
    }
    let mut j1 = a0;
    while j1 < n && !crate::text::is_ws_char(l.get_char(j1))
        invariant
            n == l@.len(),
            a0 <= j1 <= n,
            forall|j: int| a0 <= j < j1 ==> !is_ws(l@[j]),
        decreases n - j1,
    {
        j1 = j1 + 1;
    }
    proof {
        assert forall|kk: int| 0 <= kk < j1 - a0 implies !is_ws(
            #[trigger] l@.skip(a0 as int)[kk],
        ) by {
            assert(l@.skip(a0 as int)[kk] == l@[a0 + kk]);
        }
        if j1 < n {
            assert(l@.skip(a0 as int)[j1 - a0] == l@[j1 as int]);
        }
        lemma_non_ws_run_char(l@.skip(a0 as int), j1 - a0);
    }
    if j1 == a0 {
        return (0, 0);
    }
    let t1 = l.substring_char(a0, j1).to_owned();
    proof {
        assert(t1@ =~= l@.skip(a0 as int).take(j1 - a0));
    }
    let ghost rest1 = l@.skip(j1 as int);
    proof {
        assert(rest1 == l@.skip(a0 as int + (j1 - a0)));
    }
    let mut s1 = j1;
    while s1 < n && crate::text::is_ws_char(l.get_char(s1))
        invariant
            n == l@.len(),
            j1 <= s1 <= n,
            forall|j: int| j1 <= j < s1 ==> is_ws(l@[j]),
        decreases n - s1,
    {
        s1 = s1 + 1;
    }
    proof {
        assert forall|kk: int| 0 <= kk < s1 - j1 implies is_ws(#[trigger] rest1[kk]) by {
            assert(rest1[kk] == l@[j1 + kk]);
        }
        if s1 < n {
            assert(rest1[s1 - j1] == l@[s1 as int]);
        }
        lemma_lead_ws_char(rest1, s1 - j1);
    }
    let mut j2 = s1;
    while j2 < n && !crate::text::is_ws_char(l.get_char(j2))
        invariant
            n == l@.len(),
            s1 <= j2 <= n,
            forall|j: int| s1 <= j < j2 ==> !is_ws(l@[j]),
        decreases n - j2,
    {
        j2 = j2 + 1;
    }
    proof {
        let rest2 = rest1.skip(s1 - j1);
        assert forall|kk: int| 0 <= kk < j2 - s1 implies !is_ws(#[trigger] rest2[kk]) by {
            assert(rest2[kk] == l@[s1 + kk]);
        }
        if j2 < n {
            assert(rest2[j2 - s1] == l@[j2 as int]);
        }
        lemma_non_ws_run_char(rest2, j2 - s1);
    }
    if j2 == s1 {
        return (0, 0);
    }
    let t2 = l.substring_char(s1, j2).to_owned();
    proof {
        assert(t2@ =~= rest1.skip(s1 - j1).take(j2 - s1));
    }
    let v1 = match parse_u64(t1.as_str()) {
        Some(v) => v,
        None => 0,
    };
    let v2 = match parse_u64(t2.as_str()) {
        Some(v) => v,
        None => 0,
    };
    (v1, v2)
}

/// Sums the added and deleted counts over all lines of a numstat
/// output, saturating at the 64-bit maximum.
pub fn parse_numstat_sum(text: &str) -> (r: (u64, u64))
    ensures
        (r.0 as nat, r.1 as nat) == numstat_totals(text@),
{
    let n = text.unicode_len();
    let mut add: u64 = 0;
    let mut del: u64 = 0;
    let mut pos: usize = 0;
    proof {
        assert(text@.skip(0) =~= text@);
    }
    while pos < n
        invariant
            n == text@.len(),
            pos <= n,
            numstat_totals(text@).0 == sat_add(
                add as nat,
                numstat_totals(text@.skip(pos as int)).0,
            ),
            numstat_totals(text@).1 == sat_add(
                del as nat,
                numstat_totals(text@.skip(pos as int)).1,
            ),
        decreases n - pos,
    {
        let ghost suffix = text@.skip(pos as int);
        proof {
            lemma_find_char_bounds(text@, '\n', pos as int);
            lemma_find_char_shift(text@, '\n', pos as int, pos as int);
        }
        let nl = find_char(text, '\n', pos);
        let end = match nl {
            Some(i) => i,
            None => n,
        };
        let end2 = if end > pos && text.get_char(end - 1) == '\r' {
            end - 1
        } else {
            end
        };
        proof {
            let raw = match find_char_spec(suffix, '\n', 0) {
                Some(i) => suffix.take(i),
                None => suffix,
            };
            assert(raw =~= text@.subrange(pos as int, end as int));
            if end > pos {
                assert(raw.last() == text@[end - 1]);
                assert(raw.drop_last() =~= text@.subrange(pos as int, end as int - 1));
            }
            assert(first_line(suffix) =~= text@.subrange(pos as int, end2 as int));
        }
        let line = text.substring_char(pos, end2).to_owned();
        let (la, ld) = token_counts_of(line.as_str());
        let next = match nl {
            Some(i) => i + 1,
            None => n,
        };
        proof {
            if nl is Some {
                assert(rest_after(suffix) =~= text@.skip(next as int));
            } else {
                assert(rest_after(suffix) =~= Seq::<char>::empty());
                assert(text@.skip(n as int) =~= Seq::<char>::empty());
            }
            assert(numstat_totals(suffix).0 == sat_add(
                la as nat,
                numstat_totals(text@.skip(next as int)).0,
            ));
            assert(numstat_totals(suffix).1 == sat_add(
                ld as nat,
                numstat_totals(text@.skip(next as int)).1,
            ));
        }
        add = sat_add_u64(add, la);
        del = sat_add_u64(del, ld);
        pos = next;
    }
    proof {
        assert(text@.skip(n as int) =~= Seq::<char>::empty());
    }
    (add, del)
}

/// A line-change summary: `+added -deleted`.
pub open spec fn changes_label(a: nat, d: nat) -> Seq<char> {
    "+"@ + dec_rep(a) + " -"@ + dec_rep(d)
}

pub fn format_changes(added: u64, deleted: u64) -> (r: String)
    ensures
        r@ == changes_label(added as nat, deleted as nat),
{
    let mut out = String::new();
    out.append("+");
    push_dec(&mut out, added);
    out.append(" -");
    push_dec(&mut out, deleted);
    proof {
        assert(out@ =~= changes_label(added as nat, deleted as nat));
    }
    out
}

/// The last `/`-separated component of the trimmed path.
pub open spec fn toplevel_name_of(path: Seq<char>) -> Seq<char> {
    let t = trimmed(path);
    match find_last_char_spec(t, '/') {
        Some(i) => t.skip(i + 1),
        None => t,
    }
}

fn toplevel_name(path: &str) -> (r: String)
    ensures
        r@ == toplevel_name_of(path@),
{
    let t = trim_ascii(path);
    proof {
        lemma_find_last_char_bounds(t@, '/');
    }
    let tn = t.as_str().unicode_len();
    match find_last_char(t.as_str(), '/') {
        Some(i) => {
            proof {
                assert(t@.subrange(i as int + 1, tn as int) =~= t@.skip(i as int + 1));
            }
            t.as_str().substring_char(i + 1, tn).to_owned()
        },
        None => t,
    }
}

/// A status output counts only when the command succeeded and printed
/// more than whitespace.
pub open spec fn effective_status(status: Option<Seq<char>>) -> Option<Seq<char>> {
    match status {
        Some(s) => if trimmed(s).len() == 0 {
            None
        } else {
            Some(s)
        },
        None => None,
    }
}

pub open spec fn or_dash(v: Option<Seq<char>>) -> Seq<char> {
    match v {
        Some(x) => x,
        None => "-"@,
    }
}

pub open spec fn branch_field(status: Option<Seq<char>>) -> Seq<char> {
    or_dash(
        match effective_status(status) {
            Some(s) => branch_of(s),
            None => None,
        },
    )
}

pub open spec fn ahead_behind_field(status: Option<Seq<char>>) -> Seq<char> {
    or_dash(
        match effective_status(status) {
            Some(s) => ahead_behind_of(s),
            None => None,
        },
    )
}

pub open spec fn counts_of(t: Option<Seq<char>>) -> (nat, nat) {
    match t {
        Some(x) => numstat_totals(x),
        None => (0, 0),
    }
}

pub open spec fn changes_field(
    status: Option<Seq<char>>,
    unstaged: Option<Seq<char>>,
    staged: Option<Seq<char>>,
) -> Seq<char> {
    if effective_status(status) is Some {
        let u = counts_of(unstaged);
        let st = counts_of(staged);
        changes_label(sat_add(u.0, st.0), sat_add(u.1, st.1))
    } else {
        "-"@
    }
}

pub open spec fn repository_field(
    remote_url: Option<Seq<char>>,
    toplevel: Option<Seq<char>>,
) -> Seq<char> {
    let top = match toplevel {
        Some(p) => Some(toplevel_name_of(p)),
        None => None,
    };
    or_dash(
        match remote_url {
            Some(u) => match repo_of(trimmed(u)) {
                Some(x) => Some(x),
                None => top,
            },
            None => top,
        },
    )
}

/// Assembles the four repository fields from the raw outputs of the
/// version-control commands: the branch listing (absent when the
/// command failed), the unstaged and staged numstat listings, the
/// origin URL and the toplevel path. Every unavailable field falls
/// back to the sentinel `-`.
pub fn snapshot(
    status: Option<String>,
    unstaged: Option<String>,
    staged: Option<String>,
    remote_url: Option<String>,
    toplevel: Option<String>,
) -> (r: GitInfo)
    ensures
        r.branch@ == branch_field(opt_str(status)),
        r.ahead_behind@ == ahead_behind_field(opt_str(status)),
        r.changes@ == changes_field(opt_str(status), opt_str(unstaged), opt_str(staged)),
        r.repository@ == repository_field(opt_str(remote_url), opt_str(toplevel)),
{
    let (branch, status_ok, ahead_behind) = match &status {
        Some(s) => {
            let t = trim_ascii(s.as_str());
            if t.as_str().unicode_len() == 0 {
                (dash(), false, dash())
            } else {
                let b = match parse_branch(s.as_str()) {
                    Some(x) => x,
                    None => dash(),
                };
                let a = match parse_ahead_behind(s.as_str()) {
                    Some(x) => x,
                    None => dash(),
                };
                (b, true, a)
            }
        },
        None => (dash(), false, dash()),
    };
    let changes = if status_ok {
        let (a1, d1) = match &unstaged {
            Some(t) => parse_numstat_sum(t.as_str()),
            None => (0, 0),
        };
        let (a2, d2) = match &staged {
            Some(t) => parse_numstat_sum(t.as_str()),
            None => (0, 0),
        };
        format_changes(sat_add_u64(a1, a2), sat_add_u64(d1, d2))
    } else {
        dash()
    };
    let repository = {
        let top: Option<String> = match &toplevel {
            Some(p) => Some(toplevel_name(p.as_str())),
            None => None,
        };
        match &remote_url {
            None => match top {
                Some(t) => t,
                None => dash(),
            },
            Some(u) => {
                let tu = trim_ascii(u.as_str());
                match parse_repo_from_url(tu.as_str()) {
                    Some(x) => x,
                    None => match top {
                        Some(t) => t,
                        None => dash(),
                    },
                }
            },
        }
    };
    GitInfo { repository, branch, changes, ahead_behind }
}

} // verus!
