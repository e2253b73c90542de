//! Column layout: row segments, per-column width resolution
//! (proportional or natural), and the left-to-right row composer that
//! clips cells to the remaining budget.

use vstd::prelude::*;
use vstd::string::StringExecFns;

use crate::width::{display_width, fits_width, str_width};

verus! {

/// One column of a logical row: the column index (0 through 3) and the
/// raw text to show there.
#[derive(Clone, Debug)]
pub struct Segment {
    pub idx: usize,
    pub value: String,
}

/// The mathematical image of a segment.
pub struct SegV {
    pub idx: usize,
    pub value: Seq<char>,
}

impl View for Segment {
    type V = SegV;

    open spec fn view(&self) -> SegV {
        SegV { idx: self.idx, value: self.value@ }
    }
}

pub open spec fn segs_view(v: Seq<Segment>) -> Seq<SegV> {
    v.map_values(|s: Segment| s@)
}

/// One resolved cell: its column index, the exact display width it must
/// occupy, and the raw value to fit into it.
#[derive(Clone, Debug)]
pub struct Cell {
    pub idx: usize,
    pub width: usize,
    pub value: String,
}

/// The mathematical image of a cell.
pub struct CellV {
    pub idx: usize,
    pub width: nat,
    pub value: Seq<char>,
}

impl View for Cell {
    type V = CellV;

    open spec fn view(&self) -> CellV {
        CellV { idx: self.idx, width: self.width as nat, value: self.value@ }
    }
}

pub open spec fn cells_view(v: Seq<Cell>) -> Seq<CellV> {
    v.map_values(|c: Cell| c@)
}

/// The four per-column widths of one layout.
#[derive(Clone, Copy, Debug)]
pub struct ColWidths {
    pub c0: usize,
    pub c1: usize,
    pub c2: usize,
    pub c3: usize,
}

/// The mathematical image of a width table.
pub struct W4 {
    pub c0: nat,
    pub c1: nat,
    pub c2: nat,
    pub c3: nat,
}

impl View for ColWidths {
    type V = W4;

    open spec fn view(&self) -> W4 {
        W4 { c0: self.c0 as nat, c1: self.c1 as nat, c2: self.c2 as nat, c3: self.c3 as nat }
    }
}

pub open spec fn w4_col(t: W4, idx: int) -> nat {
    if idx == 0 {
        t.c0
    } else if idx == 1 {
        t.c1
    } else if idx == 2 {
        t.c2
    } else {
        t.c3
    }
}

fn col_of(t: &ColWidths, idx: usize) -> (r: usize)
    requires
        idx < 4,
    ensures
        r == w4_col(t@, idx as int),
{
    if idx == 0 {
        t.c0
    } else if idx == 1 {
        t.c1
    } else if idx == 2 {
        t.c2
    } else {
        t.c3
    }
}

/// A cell value whose padded interior and pill borders still measure
/// within `usize`.
pub open spec fn fits_cell(v: Seq<char>) -> bool {
    v.len() + 2 <= usize::MAX / 4
}

/// A cell interior: the value with one space added on each side.
pub open spec fn seg_text_spec(v: Seq<char>) -> Seq<char> {
    " "@ + v + " "@
}

/// Returns the value padded with one leading and one trailing space.
pub fn segment_text(value: &str) -> (r: String)
    ensures
        r@ == seg_text_spec(value@),
{
    let mut out = String::new();
    out.append(" ");
    out.append(value);
    out.append(" ");
    proof {
        assert(out@ =~= seg_text_spec(value@));
    }
    out
}

/// The width a value occupies when no budget constrains it: its padded
/// interior, plus the two border-glyph columns on the pill columns
/// 0 and 3.
pub open spec fn natural_width_spec(v: Seq<char>, idx: int) -> nat {
    if idx == 0 || idx == 3 {
        str_width(seg_text_spec(v)) + 2
    } else {
        str_width(seg_text_spec(v))
    }
}

pub fn natural_width(value: &str, idx: usize) -> (r: usize)
    requires
        fits_cell(value@),
    ensures
        r == natural_width_spec(value@, idx as int),
{
    let seg = segment_text(value);
    proof {
        reveal_strlit(" ");
        assert(seg@.len() == value@.len() + 2);
    }
    let base = display_width(seg.as_str());
    if idx == 0 || idx == 3 {
        base + 2
    } else {
        base
    }
}

/// The proportional width table: every column weighs 25 of 100, so each
/// receives `usable * 25 / 100 == usable / 4` columns, and the rounding
/// remainder goes entirely to column 3.
pub open spec fn prop_table(usable: nat) -> W4 {
    W4 {
        c0: usable / 4,
        c1: usable / 4,
        c2: usable / 4,
        c3: (usable - 3 * (usable / 4)) as nat,
    }
}

/// Splits `total_width` proportionally; the four widths always sum to
/// exactly `total_width`.
pub fn column_widths(total_width: usize) -> (r: ColWidths)
    ensures
        r@ == prop_table(total_width as nat),
        r.c0 + r.c1 + r.c2 + r.c3 == total_width,
{
    let q = total_width / 4;
    ColWidths { c0: q, c1: q, c2: q, c3: total_width - 3 * q }
}

/// The width a segment resolves to: its table entry (proportional or
/// shared), or its natural width when no table applies; clipped to the
/// remaining budget when one is enforced.
pub open spec fn resolved_width(seg: SegV, table: Option<W4>, bounded: bool, remaining: nat) -> nat {
    let base = match table {
        Some(t) => w4_col(t, seg.idx as int),
        None => natural_width_spec(seg.value, seg.idx as int),
    };
    if bounded && base > remaining {
        remaining
    } else {
        base
    }
}

/// The cells of one row, resolved left to right. A column that resolves
/// to zero width ends the row: it and all later columns are dropped.
pub open spec fn compose_spec(
    segs: Seq<SegV>,
    table: Option<W4>,
    bounded: bool,
    remaining: nat,
) -> Seq<CellV>
    decreases segs.len(),
{
    if segs.len() == 0 {
        Seq::empty()
    } else {
        let w = resolved_width(segs[0], table, bounded, remaining);
        if w == 0 {
            Seq::empty()
        } else {
            seq![CellV { idx: segs[0].idx, width: w, value: segs[0].value }] + compose_spec(
                segs.drop_first(),
                table,
                bounded,
                if bounded {
                    (remaining - w) as nat
                } else {
                    remaining
                },
            )
        }
    }
}

pub open spec fn sum_cell_widths(cells: Seq<CellV>) -> nat
    decreases cells.len(),
{
    if cells.len() == 0 {
        0
    } else {
        cells[0].width + sum_cell_widths(cells.drop_first())
    }
}

/// Under an enforced budget the composed cells never claim more columns
/// than remain.
pub proof fn lemma_compose_budget(segs: Seq<SegV>, table: Option<W4>, remaining: nat)
    ensures
        sum_cell_widths(compose_spec(segs, table, true, remaining)) <= remaining,
    decreases segs.len(),
{
    if segs.len() > 0 {
        let w = resolved_width(segs[0], table, true, remaining);
        if w != 0 {
            lemma_compose_budget(segs.drop_first(), table, (remaining - w) as nat);
            let rest = compose_spec(segs.drop_first(), table, true, (remaining - w) as nat);
            let head = CellV { idx: segs[0].idx, width: w, value: segs[0].value };
            assert((seq![head] + rest).drop_first() =~= rest);
        }
    }
}

/// The gutter-less budget: the requested total width less the single
/// gutter column, or zero when no width is requested (the degenerate
/// fill layout computes against an empty budget).
pub open spec fn fill_usable(width_opt: Option<usize>) -> nat {
    match width_opt {
        Some(w) => if w >= 1 {
            (w - 1) as nat
        } else {
            0
        },
        None => 0,
    }
}

pub open spec fn opt_w4(t: Option<ColWidths>) -> Option<W4> {
    match t {
        Some(c) => Some(c@),
        None => None,
    }
}

/// The width table the composer works from: the proportional split of
/// the usable budget in fill mode, otherwise the caller's shared table
/// (or none, for per-value natural widths).
pub open spec fn table_for(width_opt: Option<usize>, fill: bool, shared: Option<W4>) -> Option<
    W4,
> {
    if fill {
        Some(prop_table(fill_usable(width_opt)))
    } else {
        shared
    }
}

pub open spec fn compose_row_spec(
    segs: Seq<SegV>,
    width_opt: Option<usize>,
    fill: bool,
    shared: Option<W4>,
) -> Seq<CellV> {
    compose_spec(segs, table_for(width_opt, fill, shared), width_opt is Some, fill_usable(width_opt))
}

/// Resolves one row of segments into cells, in column order, clipping
/// each cell to the remaining budget when a total width is given and
/// stopping at the first zero-width column.
pub fn compose_row(
    segments: &Vec<Segment>,
    width_opt: Option<usize>,
    fill: bool,
    shared: Option<ColWidths>,
) -> (r: Vec<Cell>)
    requires
        forall|i: int|
            0 <= i < segments@.len() ==> (#[trigger] segments@[i]).idx < 4 && fits_cell(
                segments@[i].value@,
            ),
    ensures
        cells_view(r@) == compose_row_spec(segs_view(segments@), width_opt, fill, opt_w4(shared)),
        forall|k: int|
            0 <= k < r@.len() ==> (#[trigger] r@[k]).idx < 4 && fits_cell(r@[k].value@),
{
    let table: Option<ColWidths> = if fill {
        match width_opt {
            Some(w) => Some(column_widths(if w >= 1 { w - 1 } else { 0 })),
            None => Some(column_widths(0)),
        }
    } else {
        shared
    };
    let bounded = width_opt.is_some();
    let mut remaining: usize = match width_opt {
        Some(w) => if w >= 1 {
            w - 1
        } else {
            0
        },
        None => 0,
    };
    proof {
        assert(opt_w4(table) == table_for(width_opt, fill, opt_w4(shared)));
        assert(remaining as nat == fill_usable(width_opt));
    }
    let ghost gtable = opt_w4(table);
    let ghost all = segs_view(segments@);
    let mut cells: Vec<Cell> = Vec::new();
    let mut i: usize = 0;
    let mut stopped = false;
    proof {
        assert(all.skip(0) =~= all);
        assert(cells_view(cells@) =~= Seq::<CellV>::empty());
        assert(Seq::<CellV>::empty() + compose_spec(all, gtable, bounded, remaining as nat)
            =~= compose_spec(all, gtable, bounded, remaining as nat));
    }
    while i < segments.len() && !stopped
        invariant
            all == segs_view(segments@),
            gtable == opt_w4(table),
            forall|j: int|
                0 <= j < segments@.len() ==> (#[trigger] segments@[j]).idx < 4 && fits_cell(
                    segments@[j].value@,
                ),
            i <= segments@.len(),
            bounded ==> remaining <= fill_usable(width_opt),
            stopped ==> compose_spec(all, gtable, bounded, fill_usable(width_opt)) == cells_view(
                cells@,
            ),
            !stopped ==> compose_spec(all, gtable, bounded, fill_usable(width_opt)) == cells_view(
                cells@,
            ) + compose_spec(all.skip(i as int), gtable, bounded, remaining as nat),
            !bounded ==> remaining as nat == fill_usable(width_opt),
            forall|k: int|
                0 <= k < cells@.len() ==> (#[trigger] cells@[k]).idx < 4 && fits_cell(
                    cells@[k].value@,
                ),
        decreases segments@.len() - i + (if stopped {
            0int
        } else {
            1int
        }),
    {
        proof {
            assert(all.skip(i as int).len() > 0);
            assert(all.skip(i as int)[0] == all[i as int]);
            assert(all[i as int] == segments@[i as int]@);
        }
        let seg = &segments[i];
        let base = match &table {
            Some(t) => col_of(t, seg.idx),
            None => natural_width(seg.value.as_str(), seg.idx),
        };
        let w = if bounded && base > remaining {
            remaining
        } else {
            base
        };
        proof {
            assert(w as nat == resolved_width(all[i as int], gtable, bounded, remaining as nat));
        }
        if w == 0 {
            proof {
                assert(compose_spec(all.skip(i as int), gtable, bounded, remaining as nat)
                    =~= Seq::<CellV>::empty());
                assert(cells_view(cells@) + Seq::<CellV>::empty() =~= cells_view(cells@));
            }
            stopped = true;
        } else {
            let ghost old_cells = cells@;
            cells.push(Cell { idx: seg.idx, width: w, value: seg.value.clone() });
            let next_remaining = if bounded {
                remaining - w
            } else {
                remaining
            };
            proof {
                let head = CellV { idx: all[i as int].idx, width: w as nat, value: all[i as int].value };
                assert(all.skip(i as int).drop_first() =~= all.skip(i as int + 1));
                assert(compose_spec(all.skip(i as int), gtable, bounded, remaining as nat)
                    == seq![head] + compose_spec(
                    all.skip(i as int + 1),
                    gtable,
                    bounded,
                    next_remaining as nat,
                ));
                assert(cells_view(cells@) =~= cells_view(old_cells).push(head));
                assert(cells_view(old_cells) + (seq![head] + compose_spec(
                    all.skip(i as int + 1),
                    gtable,
                    bounded,
                    next_remaining as nat,
                )) =~= cells_view(cells@) + compose_spec(
                    all.skip(i as int + 1),
                    gtable,
                    bounded,
                    next_remaining as nat,
                ));
            }
            remaining = next_remaining;
            i = i + 1;
        }
    }
    proof {
        if !stopped {
            assert(all.skip(segments@.len() as int) =~= Seq::<SegV>::empty());
            assert(cells_view(cells@) + Seq::<CellV>::empty() =~= cells_view(cells@));
        }
    }
    cells
}

} // verus!
