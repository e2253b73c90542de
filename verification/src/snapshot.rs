//! The snapshot record: eleven collected status fields, laid out as
//! three rows of four columns, and the shared natural-width table that
//! synchronizes column sizes across the rows.

use vstd::prelude::*;
use vstd::string::StringExecFns;

use crate::context::ContextInfo;
use crate::gitinfo::GitInfo;
use crate::layout::{
    fits_cell, natural_width, natural_width_spec, segs_view, ColWidths, SegV, Segment, W4,
};

verus! {

/// One immutable set of status fields, collected once per render by
/// the surrounding host and consumed read-only here. A field whose
/// source was unavailable holds the sentinel text `"-"`, which is
/// rendered like any other value.
#[derive(Clone, Debug)]
pub struct Snapshot {
    pub model: String,
    pub version: String,
    pub contributions: String,
    pub session_clock: String,
    pub repository: String,
    pub branch: String,
    pub git_changes: String,
    pub ahead_behind: String,
    pub context: String,
    pub context_remaining: String,
    pub now_clock: String,
}

/// The mathematical image of a snapshot.
pub struct SnapshotV {
    pub model: Seq<char>,
    pub version: Seq<char>,
    pub contributions: Seq<char>,
    pub session_clock: Seq<char>,
    pub repository: Seq<char>,
    pub branch: Seq<char>,
    pub git_changes: Seq<char>,
    pub ahead_behind: Seq<char>,
    pub context: Seq<char>,
    pub context_remaining: Seq<char>,
    pub now_clock: Seq<char>,
}

impl View for Snapshot {
    type V = SnapshotV;

    open spec fn view(&self) -> SnapshotV {
        SnapshotV {
            model: self.model@,
            version: self.version@,
            contributions: self.contributions@,
            session_clock: self.session_clock@,
            repository: self.repository@,
            branch: self.branch@,
            git_changes: self.git_changes@,
            ahead_behind: self.ahead_behind@,
            context: self.context@,
            context_remaining: self.context_remaining@,
            now_clock: self.now_clock@,
        }
    }
}

/// Every field is short enough for the width arithmetic.
pub open spec fn snapshot_fits(s: SnapshotV) -> bool {
    &&& fits_cell(s.model)
    &&& fits_cell(s.version)
    &&& fits_cell(s.contributions)
    &&& fits_cell(s.session_clock)
    &&& fits_cell(s.repository)
    &&& fits_cell(s.branch)
    &&& fits_cell(s.git_changes)
    &&& fits_cell(s.ahead_behind)
    &&& fits_cell(s.context)
    &&& fits_cell(s.context_remaining)
    &&& fits_cell(s.now_clock)
}

/// The value shown at row `r`, column `c`: row 0 holds the assistant
/// fields, row 1 the repository fields, row 2 the context fields (its
/// third slot is always empty).
pub open spec fn row_val(s: SnapshotV, r: int, c: int) -> Seq<char> {
    if r == 0 {
        if c == 0 {
            s.model
        } else if c == 1 {
            s.version
        } else if c == 2 {
            s.contributions
        } else {
            s.session_clock
        }
    } else if r == 1 {
        if c == 0 {
            s.repository
        } else if c == 1 {
            s.branch
        } else if c == 2 {
            s.git_changes
        } else {
            s.ahead_behind
        }
    } else {
        if c == 0 {
            s.context
        } else if c == 1 {
            s.context_remaining
        } else if c == 2 {
            Seq::empty()
        } else {
            s.now_clock
        }
    }
}

/// Row `r` as four indexed segments.
pub open spec fn row_segs(s: SnapshotV, r: int) -> Seq<SegV> {
    seq![
        SegV { idx: 0, value: row_val(s, r, 0) },
        SegV { idx: 1, value: row_val(s, r, 1) },
        SegV { idx: 2, value: row_val(s, r, 2) },
        SegV { idx: 3, value: row_val(s, r, 3) },
    ]
}

pub open spec fn max3(a: nat, b: nat, c: nat) -> nat {
    if a >= b && a >= c {
        a
    } else if b >= c {
        b
    } else {
        c
    }
}

/// The shared width of column `c`: the largest natural width that any
/// of the three rows needs there.
pub open spec fn shared_col_spec(s: SnapshotV, c: int) -> nat {
    max3(
        natural_width_spec(row_val(s, 0, c), c),
        natural_width_spec(row_val(s, 1, c), c),
        natural_width_spec(row_val(s, 2, c), c),
    )
}

pub open spec fn shared_spec(s: SnapshotV) -> W4 {
    W4 {
        c0: shared_col_spec(s, 0),
        c1: shared_col_spec(s, 1),
        c2: shared_col_spec(s, 2),
        c3: shared_col_spec(s, 3),
    }
}

fn max_w(a: usize, b: usize) -> (r: usize)
    ensures
        r == if a >= b {
            a
        } else {
            b
        },
{
    if a >= b {
        a
    } else {
        b
    }
}

/// Computes the shared width table: per column, the maximum natural
/// width over the three rows of the snapshot.
pub fn shared_widths(snapshot: &Snapshot) -> (r: ColWidths)
    requires
        snapshot_fits(snapshot@),
    ensures
        r@ == shared_spec(snapshot@),
{
    proof {
        reveal_strlit("");
    }
    let c0 = max_w(
        max_w(natural_width(snapshot.model.as_str(), 0), natural_width(
            snapshot.repository.as_str(),
            0,
        )),
        natural_width(snapshot.context.as_str(), 0),
    );
    let c1 = max_w(
        max_w(natural_width(snapshot.version.as_str(), 1), natural_width(
            snapshot.branch.as_str(),
            1,
        )),
        natural_width(snapshot.context_remaining.as_str(), 1),
    );
    let c2 = max_w(
        max_w(natural_width(snapshot.contributions.as_str(), 2), natural_width(
            snapshot.git_changes.as_str(),
            2,
        )),
        natural_width("", 2),
    );
    let c3 = max_w(
        max_w(natural_width(snapshot.session_clock.as_str(), 3), natural_width(
            snapshot.ahead_behind.as_str(),
            3,
        )),
        natural_width(snapshot.now_clock.as_str(), 3),
    );
    ColWidths { c0, c1, c2, c3 }
}

/// Wraps one row of segments as the single line it renders to; rows
/// are never split further, whatever the layout mode.
pub fn split_segments(row: Vec<Segment>, _fill: bool) -> (r: Vec<Vec<Segment>>)
    ensures
        r@.len() == 1,
        r@[0]@ == row@,
{
    let mut out: Vec<Vec<Segment>> = Vec::new();
    out.push(row);
    out
}

fn make_segment(idx: usize, value: &String) -> (r: Segment)
    ensures
        r@ == (SegV { idx: idx, value: value@ }),
{
    Segment { idx, value: value.clone() }
}

/// Builds the three logical rows of a snapshot, each as four indexed
/// segments in column order.
pub fn build_lines(snapshot: &Snapshot, fill: bool) -> (r: Vec<Vec<Segment>>)
    ensures
        r@.len() == 3,
        forall|k: int| 0 <= k < 3 ==> segs_view((#[trigger] r@[k])@) == row_segs(snapshot@, k),
{
    let empty_val = String::new();
    let mut row0: Vec<Segment> = Vec::new();
    row0.push(make_segment(0, &snapshot.model));
    row0.push(make_segment(1, &snapshot.version));
    row0.push(make_segment(2, &snapshot.contributions));
    row0.push(make_segment(3, &snapshot.session_clock));
    let mut row1: Vec<Segment> = Vec::new();
    row1.push(make_segment(0, &snapshot.repository));
    row1.push(make_segment(1, &snapshot.branch));
    row1.push(make_segment(2, &snapshot.git_changes));
    row1.push(make_segment(3, &snapshot.ahead_behind));
    let mut row2: Vec<Segment> = Vec::new();
    row2.push(make_segment(0, &snapshot.context));
    row2.push(make_segment(1, &snapshot.context_remaining));
    row2.push(make_segment(2, &empty_val));
    row2.push(make_segment(3, &snapshot.now_clock));
    proof {
        assert(segs_view(row0@) =~= row_segs(snapshot@, 0));
        assert(segs_view(row1@) =~= row_segs(snapshot@, 1));
        assert(segs_view(row2@) =~= row_segs(snapshot@, 2));
    }
    let mut lines: Vec<Vec<Segment>> = Vec::new();
    let mut part0 = split_segments(row0, fill);
    let mut part1 = split_segments(row1, fill);
    let mut part2 = split_segments(row2, fill);
    lines.append(&mut part0);
    lines.append(&mut part1);
    lines.append(&mut part2);
    proof {
        assert(segs_view(lines@[0]@) =~= row_segs(snapshot@, 0));
        assert(segs_view(lines@[1]@) =~= row_segs(snapshot@, 1));
        assert(segs_view(lines@[2]@) =~= row_segs(snapshot@, 2));
    }
    lines
}

/// Assembles a snapshot from already-collected parts: the assistant
/// fields, the repository fields, the context fields and the clocks.
/// A missing version falls back to the sentinel `-`.
pub fn collect_preview(
    model: String,
    version: Option<String>,
    contributions: String,
    session_clock: String,
    git: GitInfo,
    context: ContextInfo,
    now_clock: String,
) -> (r: Snapshot)
    ensures
        r.model@ == model@,
        r.version@ == (match version {
            Some(v) => v@,
            None => "-"@,
        }),
        r.contributions@ == contributions@,
        r.session_clock@ == session_clock@,
        r.repository@ == git.repository@,
        r.branch@ == git.branch@,
        r.git_changes@ == git.changes@,
        r.ahead_behind@ == git.ahead_behind@,
        r.context@ == context.context@,
        r.context_remaining@ == context.remaining@,
        r.now_clock@ == now_clock@,
{
    let version_field = match version {
        Some(v) => v,
        None => String::from_str("-"),
    };
    Snapshot {
        model,
        version: version_field,
        contributions,
        session_clock,
        repository: git.repository,
        branch: git.branch,
        git_changes: git.changes,
        ahead_behind: git.ahead_behind,
        context: context.context,
        context_remaining: context.remaining,
        now_clock,
    }
}

} // verus!
