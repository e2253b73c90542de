//! The two output adapters over one shared layout: an ANSI-escaped
//! text emitter and a structured styled-span emitter. Both consume the
//! same composed cells, so they agree exactly on gutter placement,
//! column widths, truncation points and cell decoration.

use vstd::prelude::*;
use vstd::string::{StrSliceExecFns, StringExecFns};

use crate::cells::{
    block_spans, cell_spans_spec, git_changes_spans, lemma_cell_spans_width, narrow_marks,
    pill_spans,
};
use crate::layout::{
    cells_view, compose_row, compose_row_spec, compose_spec, fill_usable, fits_cell, lemma_compose_budget,
    natural_width_spec, opt_w4, seg_text_spec, segs_view, sum_cell_widths, table_for, Cell, CellV,
    ColWidths, SegV, Segment, W4,
};
use crate::snapshot::{
    build_lines, row_segs, row_val, shared_col_spec, shared_spec, shared_widths, snapshot_fits,
    Snapshot, SnapshotV,
};
use crate::style::{
    lemma_spans_text_concat, push_sgr, sgr_pair, spans_text, spans_view, Hue, SpanV, StyledSpan,
};
use crate::width::{
    char_width, fit_spec, lemma_fit_pads_only, lemma_str_width_concat, lemma_str_width_one, spaces,
    str_width,
};

verus! {

/// The runs of a cell sequence, left to right.
pub open spec fn cells_spans(cells: Seq<CellV>) -> Seq<SpanV>
    decreases cells.len(),
{
    if cells.len() == 0 {
        Seq::empty()
    } else {
        cell_spans_spec(cells[0]) + cells_spans(cells.drop_first())
    }
}

/// The one-column gutter opening every line, in the row base colors.
pub open spec fn gutter_span() -> SpanV {
    SpanV { text: " "@, fg: Hue::RowFg, bg: Hue::RowBg }
}

/// All runs of one rendered line: the gutter, then each composed cell.
pub open spec fn line_spans_spec(
    segs: Seq<SegV>,
    width_opt: Option<usize>,
    fill: bool,
    shared: Option<W4>,
) -> Seq<SpanV> {
    seq![gutter_span()] + cells_spans(compose_row_spec(segs, width_opt, fill, shared))
}

/// The three rendered lines of a snapshot: in fill mode against the
/// proportional table, otherwise against the shared natural-width
/// table.
pub open spec fn lines_spec(s: SnapshotV, width_opt: Option<usize>, fill: bool) -> Seq<Seq<SpanV>> {
    let table = if fill {
        None
    } else {
        Some(shared_spec(s))
    };
    seq![
        line_spans_spec(row_segs(s, 0), width_opt, fill, table),
        line_spans_spec(row_segs(s, 1), width_opt, fill, table),
        line_spans_spec(row_segs(s, 2), width_opt, fill, table),
    ]
}

/// The ANSI rendering of one line: the SGR color pair ahead of every
/// run's text, and a single style reset at the end.
pub open spec fn ansi_of_spans(spans: Seq<SpanV>) -> Seq<char>
    decreases spans.len(),
{
    if spans.len() == 0 {
        "\u{1b}[0m"@
    } else {
        sgr_pair(spans[0].fg, spans[0].bg) + spans[0].text + ansi_of_spans(spans.drop_first())
    }
}

/// The whole text output: three ANSI lines joined by `\n`, with one
/// trailing `\n`.
pub open spec fn output_spec(s: SnapshotV, width_opt: Option<usize>, fill: bool) -> Seq<char> {
    let lines = lines_spec(s, width_opt, fill);
    ansi_of_spans(lines[0]) + "\n"@ + ansi_of_spans(lines[1]) + "\n"@ + ansi_of_spans(lines[2])
        + "\n"@
}

fn cell_to_spans(cell: &Cell) -> (r: Vec<StyledSpan>)
    requires
        fits_cell(cell.value@),
    ensures
        spans_view(r@) == cell_spans_spec(cell@),
{
    if cell.idx == 0 {
        pill_spans(cell.value.as_str(), cell.width, Hue::Sakura, Hue::SakuraInk)
    } else if cell.idx == 3 {
        pill_spans(cell.value.as_str(), cell.width, Hue::Leaf, Hue::LeafInk)
    } else if cell.idx == 2 {
        git_changes_spans(cell.value.as_str(), cell.width, Hue::MidBg, Hue::MidFg)
    } else {
        block_spans(cell.value.as_str(), cell.width, Hue::MidBg, Hue::MidFg)
    }
}

fn cells_to_spans(cells: &Vec<Cell>) -> (r: Vec<StyledSpan>)
    requires
        forall|k: int| 0 <= k < cells@.len() ==> fits_cell((#[trigger] cells@[k]).value@),
    ensures
        spans_view(r@) == cells_spans(cells_view(cells@)),
{
    let ghost all = cells_view(cells@);
    let mut out: Vec<StyledSpan> = Vec::new();
    let mut i: usize = 0;
    proof {
        assert(all.skip(0) =~= all);
        assert(spans_view(out@) =~= Seq::<SpanV>::empty());
        assert(Seq::<SpanV>::empty() + cells_spans(all) =~= cells_spans(all));
    }
    while i < cells.len()
        invariant
            all == cells_view(cells@),
            forall|k: int| 0 <= k < cells@.len() ==> fits_cell((#[trigger] cells@[k]).value@),
            i <= cells@.len(),
            cells_spans(all) == spans_view(out@) + cells_spans(all.skip(i as int)),
        decreases cells@.len() - i,
    {
        proof {
            assert(all.skip(i as int).len() > 0);
            assert(all.skip(i as int)[0] == all[i as int]);
            assert(all[i as int] == cells@[i as int]@);
            assert(all.skip(i as int).drop_first() =~= all.skip(i as int + 1));
        }
        let ghost old_out = out@;
        let mut piece = cell_to_spans(&cells[i]);
        let ghost piece_v = piece@;
        out.append(&mut piece);
        proof {
            assert(spans_view(out@) =~= spans_view(old_out) + spans_view(piece_v));
            assert(spans_view(old_out) + (spans_view(piece_v) + cells_spans(
                all.skip(i as int + 1),
            )) =~= (spans_view(old_out) + spans_view(piece_v)) + cells_spans(
                all.skip(i as int + 1),
            ));
        }
        i = i + 1;
    }
    proof {
        assert(all.skip(cells@.len() as int) =~= Seq::<CellV>::empty());
        assert(spans_view(out@) + Seq::<SpanV>::empty() =~= spans_view(out@));
    }
    out
}

/// Renders one row as styled spans: the gutter span, then the runs of
/// each composed cell.
pub fn render_line_spans(
    segments: &Vec<Segment>,
    width_opt: Option<usize>,
    fill: bool,
    shared: Option<ColWidths>,
) -> (r: Vec<StyledSpan>)
    requires
        forall|i: int|
            0 <= i < segments@.len() ==> (#[trigger] segments@[i]).idx < 4 && fits_cell(
                segments@[i].value@,
            ),
    ensures
        spans_view(r@) == line_spans_spec(segs_view(segments@), width_opt, fill, opt_w4(shared)),
{
    let cells = compose_row(segments, width_opt, fill, shared);
    let mut spans: Vec<StyledSpan> = Vec::new();
    spans.push(StyledSpan { text: String::from_str(" "), fg: Hue::RowFg, bg: Hue::RowBg });
    let mut body = cells_to_spans(&cells);
    let ghost body_v = body@;
    spans.append(&mut body);
    proof {
        assert(spans_view(spans@) =~= seq![gutter_span()] + spans_view(body_v));
    }
    spans
}

fn spans_to_ansi(spans: &Vec<StyledSpan>) -> (r: String)
    ensures
        r@ == ansi_of_spans(spans_view(spans@)),
{
    let ghost all = spans_view(spans@);
    let mut out = String::new();
    let mut i: usize = 0;
    proof {
        assert(all.skip(0) =~= all);
        assert(out@ + ansi_of_spans(all) =~= ansi_of_spans(all));
    }
    while i < spans.len()
        invariant
            all == spans_view(spans@),
            i <= spans@.len(),
            ansi_of_spans(all) == out@ + ansi_of_spans(all.skip(i as int)),
        decreases spans@.len() - i,
    {
        proof {
            assert(all.skip(i as int).len() > 0);
            assert(all.skip(i as int)[0] == all[i as int]);
            assert(all[i as int] == spans@[i as int]@);
            assert(all.skip(i as int).drop_first() =~= all.skip(i as int + 1));
        }
        let ghost old_out = out@;
        let span = &spans[i];
        push_sgr(&mut out, span.fg, span.bg);
        out.append(span.text.as_str());
        proof {
            assert(old_out + (sgr_pair(all[i as int].fg, all[i as int].bg) + all[i as int].text
                + ansi_of_spans(all.skip(i as int + 1))) =~= out@ + ansi_of_spans(
                all.skip(i as int + 1),
            ));
        }
        i = i + 1;
    }
    proof {
        assert(all.skip(spans@.len() as int) =~= Seq::<SpanV>::empty());
    }
    out.append("\u{1b}[0m");
    out
}

/// Renders one row as an ANSI-escaped string: exactly the spans of
/// `render_line_spans`, each behind its SGR color pair, closed by one
/// reset.
pub fn format_row(
    segments: &Vec<Segment>,
    width_opt: Option<usize>,
    fill: bool,
    shared: Option<ColWidths>,
) -> (r: String)
    requires
        forall|i: int|
            0 <= i < segments@.len() ==> (#[trigger] segments@[i]).idx < 4 && fits_cell(
                segments@[i].value@,
            ),
    ensures
        r@ == ansi_of_spans(line_spans_spec(segs_view(segments@), width_opt, fill, opt_w4(shared))),
{
    let spans = render_line_spans(segments, width_opt, fill, shared);
    spans_to_ansi(&spans)
}

proof fn lemma_rows_well_formed(s: SnapshotV, rows: Seq<Vec<Segment>>)
    requires
        snapshot_fits(s),
        rows.len() == 3,
        forall|k: int| 0 <= k < 3 ==> segs_view((#[trigger] rows[k])@) == row_segs(s, k),
    ensures
        forall|k: int, i: int|
            0 <= k < 3 && 0 <= i < (#[trigger] rows[k])@.len() ==> ((#[trigger] rows[k]@[i]).idx < 4
                && fits_cell(rows[k]@[i].value@)),
{
    assert forall|k: int, i: int|
        0 <= k < 3 && 0 <= i < (#[trigger] rows[k])@.len() implies ((#[trigger] rows[k]@[i]).idx < 4
        && fits_cell(rows[k]@[i].value@)) by {
        assert(segs_view(rows[k]@).len() == rows[k]@.len());
        assert(segs_view(rows[k]@)[i] == rows[k]@[i]@);
        assert(rows[k]@.len() == 4);
        if i == 0 {
            assert(row_segs(s, k)[0].idx == 0 && row_segs(s, k)[0].value == row_val(s, k, 0));
        } else if i == 1 {
            assert(row_segs(s, k)[1].idx == 1 && row_segs(s, k)[1].value == row_val(s, k, 1));
        } else if i == 2 {
            assert(row_segs(s, k)[2].idx == 2 && row_segs(s, k)[2].value == row_val(s, k, 2));
        } else {
            assert(row_segs(s, k)[3].idx == 3 && row_segs(s, k)[3].value == row_val(s, k, 3));
        }
        assert(fits_cell(row_val(s, k, i)));
    }
}

/// Renders a snapshot as an ANSI-escaped string: three lines, each
/// opened by the one-column gutter, joined and terminated by newlines.
/// The result is a pure function of the snapshot, the width and the
/// fill flag, so identical inputs always yield byte-identical output.
pub fn format_output(snapshot: &Snapshot, width: Option<usize>, fill: bool) -> (r: String)
    requires
        snapshot_fits(snapshot@),
    ensures
        r@ == output_spec(snapshot@, width, fill),
{
    let shared: Option<ColWidths> = if fill {
        None
    } else {
        Some(shared_widths(snapshot))
    };
    let rows = build_lines(snapshot, fill);
    proof {
        lemma_rows_well_formed(snapshot@, rows@);
    }
    let l0 = format_row(&rows[0], width, fill, shared);
    let l1 = format_row(&rows[1], width, fill, shared);
    let l2 = format_row(&rows[2], width, fill, shared);
    let mut out = String::new();
    out.append(l0.as_str());
    out.append("\n");
    out.append(l1.as_str());
    out.append("\n");
    out.append(l2.as_str());
    out.append("\n");
    proof {
        assert(out@ =~= output_spec(snapshot@, width, fill));
    }
    out
}

/// Renders a snapshot as structured styled spans, one list per line:
/// the same cells, widths and truncation points as `format_output`,
/// with the colors carried alongside the text instead of encoded as
/// escapes.
pub fn render_spans(snapshot: &Snapshot, width: Option<usize>, fill: bool) -> (r: Vec<
    Vec<StyledSpan>,
>)
    requires
        snapshot_fits(snapshot@),
    ensures
        r@.len() == 3,
        forall|k: int|
            0 <= k < 3 ==> spans_view((#[trigger] r@[k])@) == lines_spec(snapshot@, width, fill)[k],
{
    let shared: Option<ColWidths> = if fill {
        None
    } else {
        Some(shared_widths(snapshot))
    };
    let rows = build_lines(snapshot, fill);
    proof {
        lemma_rows_well_formed(snapshot@, rows@);
    }
    let s0 = render_line_spans(&rows[0], width, fill, shared);
    let s1 = render_line_spans(&rows[1], width, fill, shared);
    let s2 = render_line_spans(&rows[2], width, fill, shared);
    let mut out: Vec<Vec<StyledSpan>> = Vec::new();
    out.push(s0);
    out.push(s1);
    out.push(s2);
    out
}

/// The two adapters cannot diverge: the ANSI output is, line for line,
/// exactly the ANSI rendering of the spans the structured adapter
/// produces for the same snapshot, width and fill flag.
pub proof fn lemma_adapters_agree(s: SnapshotV, width_opt: Option<usize>, fill: bool)
    ensures
        output_spec(s, width_opt, fill) == ansi_of_spans(lines_spec(s, width_opt, fill)[0]) + "\n"@
            + ansi_of_spans(lines_spec(s, width_opt, fill)[1]) + "\n"@ + ansi_of_spans(
            lines_spec(s, width_opt, fill)[2],
        ) + "\n"@,
{
}

pub proof fn lemma_cells_spans_width(cells: Seq<CellV>)
    requires
        narrow_marks(),
    ensures
        str_width(spans_text(cells_spans(cells))) == sum_cell_widths(cells),
    decreases cells.len(),
{
    if cells.len() == 0 {
        assert(spans_text(cells_spans(cells)) =~= Seq::<char>::empty());
    } else {
        lemma_cell_spans_width(cells[0]);
        lemma_cells_spans_width(cells.drop_first());
        lemma_spans_text_concat(cell_spans_spec(cells[0]), cells_spans(cells.drop_first()));
        lemma_str_width_concat(
            spans_text(cell_spans_spec(cells[0])),
            spans_text(cells_spans(cells.drop_first())),
        );
    }
}

/// A line rendered against a positive total width never exceeds it:
/// the gutter and the cells together stay within the budget.
pub proof fn lemma_line_within_budget(segs: Seq<SegV>, w: usize, fill: bool, shared: Option<W4>)
    requires
        narrow_marks(),
        w >= 1,
    ensures
        str_width(spans_text(line_spans_spec(segs, Some(w), fill, shared))) <= w,
{
    let cells = compose_row_spec(segs, Some(w), fill, shared);
    lemma_compose_budget(segs, table_for(Some(w), fill, shared), fill_usable(Some(w)));
    lemma_cells_spans_width(cells);
    lemma_spans_text_concat(seq![gutter_span()], cells_spans(cells));
    lemma_str_width_concat(spans_text(seq![gutter_span()]), spans_text(cells_spans(cells)));
    reveal_strlit(" ");
    assert(" "@ =~= seq![' ']);
    lemma_str_width_one(' ');
    assert(spans_text(Seq::<SpanV>::empty()) == Seq::<char>::empty());
    assert(seq![gutter_span()].drop_first() =~= Seq::<SpanV>::empty());
    assert(spans_text(seq![gutter_span()]) =~= " "@);
}

/// Rendering is deterministic: two snapshots with equal fields,
/// rendered at the same width and fill flag, produce byte-identical
/// output.
pub proof fn lemma_render_deterministic(
    s1: SnapshotV,
    s2: SnapshotV,
    width_opt: Option<usize>,
    fill: bool,
)
    requires
        s1 == s2,
    ensures
        output_spec(s1, width_opt, fill) == output_spec(s2, width_opt, fill),
{
}

/// The padded interior of any value is at least the two padding
/// columns wide.
proof fn lemma_seg_text_min_width(v: Seq<char>)
    requires
        char_width(' ') == 1,
    ensures
        str_width(seg_text_spec(v)) >= 2,
        str_width(seg_text_spec(v)) == 2 + str_width(v),
{
    reveal_strlit(" ");
    assert(" "@ =~= seq![' ']);
    lemma_str_width_one(' ');
    lemma_str_width_concat(" "@ + v, " "@);
    lemma_str_width_concat(" "@, v);
}

/// Shared natural-width mode never truncates: at its column's shared
/// width (less the two border columns on the pill columns), fitting
/// any padded value of the snapshot keeps it whole and only right-pads
/// it with spaces.
pub proof fn lemma_shared_width_no_truncation(s: SnapshotV, r: int, c: int)
    requires
        narrow_marks(),
        0 <= r < 3,
        0 <= c < 4,
    ensures
        ({
            let v = seg_text_spec(row_val(s, r, c));
            let inner: nat = if c == 0 || c == 3 {
                (shared_col_spec(s, c) - 2) as nat
            } else {
                shared_col_spec(s, c)
            };
            str_width(v) <= inner && fit_spec(v, inner) == v + spaces((inner - str_width(v)) as nat)
        }),
{
    let v = seg_text_spec(row_val(s, r, c));
    lemma_seg_text_min_width(row_val(s, r, c));
    assert(natural_width_spec(row_val(s, r, c), c) <= shared_col_spec(s, c)) by {
        if r == 0 {
        } else if r == 1 {
        } else {
        }
    }
    let inner: nat = if c == 0 || c == 3 {
        (shared_col_spec(s, c) - 2) as nat
    } else {
        shared_col_spec(s, c)
    };
    assert(str_width(v) <= inner);
    lemma_fit_pads_only(v, inner);
}

/// With no total width and fill off, no column is dropped: every row
/// composes all four cells, each at exactly its shared column width
/// and holding the row's value there.
pub proof fn lemma_shared_mode_cells(s: SnapshotV, r: int)
    requires
        narrow_marks(),
        0 <= r < 3,
    ensures
        ({
            let cells = compose_row_spec(row_segs(s, r), None, false, Some(shared_spec(s)));
            &&& cells.len() == 4
            &&& forall|c: int|
                0 <= c < 4 ==> #[trigger] cells[c] == (CellV {
                    idx: c as usize,
                    width: shared_col_spec(s, c),
                    value: row_val(s, r, c),
                })
        }),
{
    let table = Some(shared_spec(s));
    let segs = row_segs(s, r);
    assert forall|c: int| 0 <= c < 4 implies shared_col_spec(s, c) >= 2 by {
        lemma_seg_text_min_width(row_val(s, 0, c));
        lemma_seg_text_min_width(row_val(s, 1, c));
        lemma_seg_text_min_width(row_val(s, 2, c));
    }
    let s1 = segs.drop_first();
    let s2 = s1.drop_first();
    let s3 = s2.drop_first();
    assert(s1 =~= seq![segs[1], segs[2], segs[3]]);
    assert(s2 =~= seq![segs[2], segs[3]]);
    assert(s3 =~= seq![segs[3]]);
    assert(s3.drop_first() =~= Seq::<SegV>::empty());
    let c0 = CellV { idx: 0, width: shared_col_spec(s, 0), value: row_val(s, r, 0) };
    let c1 = CellV { idx: 1, width: shared_col_spec(s, 1), value: row_val(s, r, 1) };
    let c2 = CellV { idx: 2, width: shared_col_spec(s, 2), value: row_val(s, r, 2) };
    let c3 = CellV { idx: 3, width: shared_col_spec(s, 3), value: row_val(s, r, 3) };
    assert(compose_spec(s3, table, false, 0) == seq![c3] + compose_spec(
        s3.drop_first(),
        table,
        false,
        0,
    ));
    assert(compose_spec(s3.drop_first(), table, false, 0) == Seq::<CellV>::empty());
    assert(compose_spec(s2, table, false, 0) == seq![c2] + compose_spec(s3, table, false, 0));
    assert(compose_spec(s1, table, false, 0) == seq![c1] + compose_spec(s2, table, false, 0));
    assert(compose_spec(segs, table, false, 0) == seq![c0] + compose_spec(s1, table, false, 0));
    let cells = compose_row_spec(segs, None, false, table);
    assert(cells =~= seq![c0, c1, c2, c3]);
    assert forall|c: int| 0 <= c < 4 implies #[trigger] cells[c] == (CellV {
        idx: c as usize,
        width: shared_col_spec(s, c),
        value: row_val(s, r, c),
    }) by {
        if c == 0 {
        } else if c == 1 {
        } else if c == 2 {
        } else {
        }
    }
}

} // verus!
