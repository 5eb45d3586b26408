//! From the lines of a manifest to the lines of its report.

use vstd::prelude::*;
use crate::error::{Error, ErrorView};
use crate::manifest::{item_views, ItemTemplate, ItemView, PackTemplate, PackView};
use crate::ordering::{
    goes_first, in_order, lemma_ordering_is_stable, of_length, order_items, ordered_items,
};
use crate::packing::{
    event_views, lemma_packing_report, pack_items, pack_run, piece_of, pieces_of_events,
    pieces_of_items, repeated, PackFailure, Packing, PackingRun, Piece,
};
use crate::reader::{parse_input, parsed_manifest};
use crate::report::{render_report, report_lines};
use crate::sort_order::PackSortOrder;
use crate::text::line_views;

verus! {

/// The packing of the batches `items` after they were put into the order
/// that `pack` asks for.
pub open spec fn planned_run(pack: PackView, items: Seq<ItemView>) -> Packing {
    pack_run(pack, ordered_items(pack.order, items))
}

/// Orders the batches as `pack_template` asks and packs them.
pub fn plan_packs(items: Vec<ItemTemplate>, pack_template: &PackTemplate) -> (run: PackingRun)
    requires
        pack_template.sort_order != PackSortOrder::NotSet,
    ensures
        event_views(run.events@) == planned_run(pack_template@, item_views(items@)).events,
        run.failure == planned_run(pack_template@, item_views(items@)).failure,
{
    let ordered = order_items(pack_template.sort_order, items);
    pack_items(&ordered, pack_template)
}

/// Whether the lengths of `pieces` follow `order`: no piece stands behind
/// one that it must stand before.
pub open spec fn pieces_in_order(order: PackSortOrder, pieces: Seq<Piece>) -> bool {
    forall|i: int, j: int|
        0 <= i < j < pieces.len() ==> !goes_first(
            order,
            (#[trigger] pieces[j]).length,
            (#[trigger] pieces[i]).length,
        )
}

/// The pieces of `pieces` that have the length `length`, in their order.
pub open spec fn pieces_of_length(pieces: Seq<Piece>, length: int) -> Seq<Piece> {
    pieces.filter(|piece: Piece| piece.length == length)
}

/// Every piece of some batches is a piece of one of them.
pub proof fn lemma_piece_has_a_batch(items: Seq<ItemView>, at: int)
    requires
        0 <= at < pieces_of_items(items).len(),
    ensures
        exists|k: int|
            0 <= k < items.len() && pieces_of_items(items)[at] == piece_of(#[trigger] items[k]),
    decreases items.len(),
{
    let before = pieces_of_items(items.drop_last());
    if at < before.len() {
        lemma_piece_has_a_batch(items.drop_last(), at);
        let k = choose|k: int|
            0 <= k < items.len() - 1 && before[at] == piece_of(#[trigger] items.drop_last()[k]);
        assert(items[k] == items.drop_last()[k]);
    } else {
        assert(pieces_of_items(items)[at] == piece_of(items[items.len() - 1]));
    }
}

/// The pieces of batches that are in order are in order.
pub proof fn lemma_pieces_in_order(order: PackSortOrder, items: Seq<ItemView>)
    requires
        in_order(order, items),
    ensures
        pieces_in_order(order, pieces_of_items(items)),
    decreases items.len(),
{
    if items.len() > 0 {
        let earlier = items.drop_last();
        let before = pieces_of_items(earlier);
        let pieces = pieces_of_items(items);
        assert forall|i: int, j: int| 0 <= i < j < earlier.len() implies !goes_first(
            order,
            (#[trigger] earlier[j]).length,
            (#[trigger] earlier[i]).length,
        ) by {
            assert(earlier[i] == items[i] && earlier[j] == items[j]);
        }
        lemma_pieces_in_order(order, earlier);
        assert forall|i: int, j: int| 0 <= i < j < pieces.len() implies !goes_first(
            order,
            (#[trigger] pieces[j]).length,
            (#[trigger] pieces[i]).length,
        ) by {
            if j < before.len() {
                assert(pieces[i] == before[i] && pieces[j] == before[j]);
            } else if i < before.len() {
                // The later piece is of the last batch, the earlier of a batch before it.
                lemma_piece_has_a_batch(earlier, i);
                let k = choose|k: int|
                    0 <= k < earlier.len() && before[i] == piece_of(#[trigger] earlier[k]);
                assert(earlier[k] == items[k]);
                assert(pieces[j] == piece_of(items[items.len() - 1]));
            } else {
                assert(pieces[i] == pieces[j]);
            }
        }
    }
}

/// Of pieces that are all alike, those of one length are all of them or none.
pub proof fn lemma_alike_of_length(piece: Piece, count: int, length: int)
    ensures
        pieces_of_length(repeated(piece, count), length) == if piece.length == length {
            repeated(piece, count)
        } else {
            Seq::empty()
        },
    decreases count,
{
    reveal(Seq::filter);
    if count > 0 {
        lemma_alike_of_length(piece, count - 1, length);
        assert(repeated(piece, count).drop_last() =~= repeated(piece, count - 1));
        assert(repeated(piece, count - 1).push(piece) =~= repeated(piece, count));
    }
}

/// The pieces of one length among the pieces of some batches are the
/// pieces of the batches of that length.
pub proof fn lemma_pieces_of_length(items: Seq<ItemView>, length: int)
    ensures
        pieces_of_length(pieces_of_items(items), length) == pieces_of_items(
            of_length(items, length),
        ),
    decreases items.len(),
{
    reveal(Seq::filter);
    if items.len() > 0 {
        let earlier = items.drop_last();
        let last = items.last();
        let keep = |piece: Piece| piece.length == length;
        lemma_pieces_of_length(earlier, length);
        lemma_alike_of_length(piece_of(last), last.count, length);
        Seq::filter_distributes_over_add(
            pieces_of_items(earlier),
            repeated(piece_of(last), last.count),
            keep,
        );
        if last.length == length {
            let kept = of_length(earlier, length).push(last);
            assert(kept.drop_last() =~= of_length(earlier, length));
        } else {
            assert(pieces_of_items(earlier).filter(keep) + Seq::<Piece>::empty()
                =~= pieces_of_items(earlier).filter(keep));
        }
    }
}

/// Packing does not reorder. Unless the packing fails, the pieces that the
/// report places, one by one, are the pieces of the batches in the order
/// asked for: their lengths rise, or fall, as the order asks, and the pieces
/// of any one length stand in the report in the order in which their batches
/// came.
pub proof fn lemma_report_keeps_order(pack: PackView, items: Seq<ItemView>, length: int)
    requires
        planned_run(pack, items).failure is None,
    ensures
        pieces_of_events(planned_run(pack, items).events) == pieces_of_items(
            ordered_items(pack.order, items),
        ),
        pieces_in_order(pack.order, pieces_of_events(planned_run(pack, items).events)),
        pieces_of_length(pieces_of_events(planned_run(pack, items).events), length)
            == pieces_of_items(of_length(items, length)),
{
    let ordered = ordered_items(pack.order, items);
    lemma_packing_report(pack, ordered);
    lemma_ordering_is_stable(pack.order, items, length);
    lemma_pieces_in_order(pack.order, ordered);
    lemma_pieces_of_length(ordered, length);
}

/// The report of a manifest: its lines, and the failure that stopped the
/// packing, if one did. The lines report what was packed until it stopped.
#[derive(Debug, PartialEq)]
pub struct Report {
    pub lines: Vec<String>,
    pub failure: Option<PackFailure>,
}

/// The mathematical content of a [`Report`].
pub struct ReportView {
    pub lines: Seq<Seq<char>>,
    pub failure: Option<PackFailure>,
}

impl View for Report {
    type V = ReportView;

    open spec fn view(&self) -> ReportView {
        ReportView { lines: line_views(self.lines@), failure: self.failure }
    }
}

/// Why a manifest has no report.
#[derive(Debug, PartialEq)]
pub enum ReportError {
    /// The manifest could not be read.
    Manifest(Error),
    /// The manifest was read, but it has no line of pack information, and
    /// so no sort order.
    SortOrderNotSet,
}

/// The mathematical content of a [`ReportError`].
pub enum ReportErrorView {
    Manifest(ErrorView),
    SortOrderNotSet,
}

impl View for ReportError {
    type V = ReportErrorView;

    open spec fn view(&self) -> ReportErrorView {
        match *self {
            ReportError::Manifest(error) => ReportErrorView::Manifest(error@),
            ReportError::SortOrderNotSet => ReportErrorView::SortOrderNotSet,
        }
    }
}

/// The report of the manifest with the lines `lines`: the manifest is read,
/// its batches are ordered and packed, and every event is reported.
pub open spec fn manifest_report(lines: Seq<Seq<char>>) -> Result<ReportView, ReportErrorView> {
    match parsed_manifest(lines) {
        Err(error) => Err(ReportErrorView::Manifest(error)),
        Ok(manifest) => if manifest.pack.order == PackSortOrder::NotSet {
            Err(ReportErrorView::SortOrderNotSet)
        } else {
            let run = planned_run(manifest.pack, manifest.items);
            Ok(ReportView { lines: report_lines(run.events), failure: run.failure })
        },
    }
}

/// Reads the manifest from `lines`, orders and packs its batches, and
/// gives the lines of the report.
pub fn report_manifest(lines: &Vec<String>) -> (report: Result<Report, ReportError>)
    ensures
        match manifest_report(line_views(lines@)) {
            Ok(view) => report matches Ok(made) && made@ == view,
            Err(view) => report matches Err(error) && error@ == view,
        },
{
    let (pack_template, item_templates) = match parse_input(lines) {
        Ok(manifest) => manifest,
        Err(error) => {
            return Err(ReportError::Manifest(error));
        },
    };
    if let PackSortOrder::NotSet = pack_template.sort_order {
        return Err(ReportError::SortOrderNotSet);
    }
    let run = plan_packs(item_templates, &pack_template);
    Ok(Report { lines: render_report(&run.events), failure: run.failure })
}

/// The report is a function of the lines alone: to read the same lines
/// once more gives the same report, line for line.
pub proof fn lemma_same_lines_same_report(lines: Seq<Seq<char>>, again: Seq<Seq<char>>)
    requires
        lines == again,
    ensures
        manifest_report(lines) == manifest_report(again),
{
}

} // verus!
