//! The greedy packing of ordered batches into packs.
//!
//! A packing starts with an empty pack that bears no number and is never
//! announced or summed up. The pieces of a batch are placed in rounds. Each
//! round looks at the room that the current pack has for a piece of the batch.
//! Where there is none, the pack is closed and the next pack is opened under
//! the next number, beginning with 1: a closed pack is summed up unless it is
//! the very first, and the new pack is announced by a header. As many pieces
//! as fit go into the current pack. A pack is closed by nothing else, so the
//! pack that is current when the batches end is not summed up.

use vstd::prelude::*;
use vstd::arithmetic::div_mod::{lemma_fundamental_div_mod, lemma_mod_bound};
use crate::decimal::{units_in_range, Decimal, MAX_UNITS};
use crate::manifest::{item_views, ItemTemplate, ItemView, PackTemplate, PackView};
use crate::sort_order::PackSortOrder;

verus! {

/// The quotient `a / b` rounded down, for a divisor other than 0.
pub open spec fn floor_div(a: int, b: int) -> int {
    if b > 0 {
        a / b
    } else {
        (-a) / (-b)
    }
}

/// How many whole pieces of the weight `unit_weight`, which is not 0, the
/// weight headroom allows.
pub open spec fn max_by_weight(weight_headroom: int, unit_weight: int) -> int
    recommends
        unit_weight != 0,
{
    floor_div(weight_headroom, unit_weight)
}

/// The smaller of two integers.
pub open spec fn min_int(a: int, b: int) -> int {
    if a <= b {
        a
    } else {
        b
    }
}

/// The room that a pack has left for pieces of weight `unit_weight`: the
/// smaller of what the weight headroom and the piece headroom allow. For a
/// piece without weight no quotient is formed and no error arises: weight
/// does not bind it, and its room is the piece headroom alone. All weights
/// are counts of units.
pub open spec fn room(
    pack: PackView,
    current_weight: int,
    current_pieces: int,
    unit_weight: int,
) -> int {
    let piece_headroom = pack.max_pieces - current_pieces;
    if unit_weight == 0 {
        piece_headroom
    } else {
        min_int(max_by_weight(pack.max_weight - current_weight, unit_weight), piece_headroom)
    }
}

/// The larger of two integers.
pub open spec fn max_int(a: int, b: int) -> int {
    if a >= b {
        a
    } else {
        b
    }
}

/// `floor_div` is the largest integer whose product with the divisor does
/// not pass the dividend, seen from the side of the divisor's sign.
pub proof fn lemma_floor_div_bounds(a: int, b: int)
    requires
        b != 0,
    ensures
        b > 0 ==> floor_div(a, b) * b <= a < (floor_div(a, b) + 1) * b,
        b < 0 ==> floor_div(a, b) * b >= a > (floor_div(a, b) + 1) * b,
{
    if b > 0 {
        lemma_fundamental_div_mod(a, b);
        lemma_mod_bound(a, b);
        let q = a / b;
        assert(q * b == b * q) by (nonlinear_arith);
        assert((q + 1) * b == b * q + b) by (nonlinear_arith);
    } else {
        let q = (-a) / (-b);
        lemma_fundamental_div_mod(-a, -b);
        lemma_mod_bound(-a, -b);
        assert(q * b == -((-b) * q)) by (nonlinear_arith);
        assert((q + 1) * b == -((-b) * q) + b) by (nonlinear_arith);
    }
}

/// The number of pieces of `template` that can still be added to a pack that
/// holds `current_pack_item_count` pieces weighing `current_pack_weight`.
pub fn maximum_number_of_items_to_add(
    pack_template: &PackTemplate,
    current_pack_weight: Decimal,
    current_pack_item_count: i32,
    template: &ItemTemplate,
) -> (items_to_add: i64)
    ensures
        items_to_add == room(
            pack_template@,
            current_pack_weight@,
            current_pack_item_count as int,
            template@.weight,
        ),
{
    let weight_space_in_pack: i64 = pack_template.maximum_weight.units()
        - current_pack_weight.units();
    let item_space_in_pack: i64 = pack_template.maximum_number_of_pieces as i64
        - current_pack_item_count as i64;
    let unit_weight: i64 = template.weight.units();
    if unit_weight == 0 {
        return item_space_in_pack;
    }
    let max_items_by_weight: i64 = floor_quotient(weight_space_in_pack, unit_weight);
    if max_items_by_weight < item_space_in_pack {
        max_items_by_weight
    } else {
        item_space_in_pack
    }
}

/// `a / b` rounded down, on machine integers.
fn floor_quotient(a: i64, b: i64) -> (q: i64)
    requires
        b != 0,
        -2 * MAX_UNITS <= a <= 2 * MAX_UNITS,
        -MAX_UNITS <= b <= MAX_UNITS,
    ensures
        q == floor_div(a as int, b as int),
{
    let (n, d): (i64, i64) = if b > 0 {
        (a, b)
    } else {
        (-a, -b)
    };
    if n >= 0 {
        n / d
    } else {
        let m: i64 = -n;
        let up: i64 = (m + (d - 1)) / d;
        proof {
            // -m / d rounded down is the negation of m / d rounded up.
            let mi: int = m as int;
            let di: int = d as int;
            lemma_fundamental_div_mod(mi + (di - 1), di);
            lemma_mod_bound(mi + (di - 1), di);
            lemma_fundamental_div_mod(-mi, di);
            lemma_mod_bound(-mi, di);
            let u: int = (mi + (di - 1)) / di;
            let f: int = (-mi) / di;
            assert(f == -u) by (nonlinear_arith)
                requires
                    di > 0,
                    di * u <= mi + di - 1 < di * u + di,
                    di * f <= -mi < di * f + di,
            ;
        }
        -up
    }
}

/// What the packing reports, in the order in which it happens.
#[derive(Clone, Debug, PartialEq)]
pub enum PackEvent {
    /// The next pack was opened: it is announced under its number.
    Header { pack_number: usize },
    /// `quantity_placed` pieces of one batch went into the current pack.
    Fill { item_id: String, length: Decimal, quantity_placed: i32, unit_weight: Decimal },
    /// A pack other than the very first was closed with this total weight and
    /// this longest item. A blank separator follows it in a report.
    Summary { pack_number: usize, total_weight: Decimal, longest_item_length: Decimal },
}

/// The mathematical content of a [`PackEvent`]: lengths and weights in units.
pub enum PackEventView {
    Header { pack_number: int },
    Fill { item_id: Seq<char>, length: int, quantity_placed: int, unit_weight: int },
    Summary { pack_number: int, total_weight: int, longest_item_length: int },
}

impl View for PackEvent {
    type V = PackEventView;

    open spec fn view(&self) -> PackEventView {
        match *self {
            PackEvent::Header { pack_number } => PackEventView::Header {
                pack_number: pack_number as int,
            },
            PackEvent::Fill { item_id, length, quantity_placed, unit_weight } => {
                PackEventView::Fill {
                    item_id: item_id@,
                    length: length@,
                    quantity_placed: quantity_placed as int,
                    unit_weight: unit_weight@,
                }
            },
            PackEvent::Summary { pack_number, total_weight, longest_item_length } => {
                PackEventView::Summary {
                    pack_number: pack_number as int,
                    total_weight: total_weight@,
                    longest_item_length: longest_item_length@,
                }
            },
        }
    }
}

/// The views of a sequence of events, in the same order.
pub open spec fn event_views(events: Seq<PackEvent>) -> Seq<PackEventView> {
    events.map_values(|event: PackEvent| event@)
}

/// Why a packing stopped before all batches were placed. `item_index` is the
/// position of the batch, counted from 0, at which it stopped.
#[derive(Clone, Copy, Debug, PartialEq, Eq, Structural)]
pub enum PackFailure {
    /// One piece of the batch weighs more than a pack may weigh.
    ItemExceedsPackCapacity { item_index: usize },
    /// Not even an empty pack has room for one piece of the batch, although
    /// the piece is not too heavy: a pack may hold no pieces at all, or a
    /// weight is negative. Packing could only open pack after pack for ever.
    NoRoomInEmptyPack { item_index: usize },
}

/// The running state of the packing: the weight, the number of pieces and the
/// longest item of the current pack, and the number of packs opened so far.
pub struct PackState {
    pub weight: int,
    pub pieces: int,
    pub longest: int,
    pub pack_number: int,
}

/// A state together with the events that led to it.
pub struct Placement {
    pub state: PackState,
    pub events: Seq<PackEventView>,
}

/// The state in which a packing starts: an empty pack, and no pack opened.
pub open spec fn initial_state() -> PackState {
    PackState { weight: 0, pieces: 0, longest: 0, pack_number: 0 }
}

/// Closing the current pack and opening the next. A summary is reported for
/// every closed pack but the very first, and a header for the new pack.
pub open spec fn close_pack(state: PackState) -> Placement {
    let summary = if state.pack_number > 0 {
        seq![
            PackEventView::Summary {
                pack_number: state.pack_number,
                total_weight: state.weight,
                longest_item_length: state.longest,
            },
        ]
    } else {
        Seq::empty()
    };
    Placement {
        state: PackState { weight: 0, pieces: 0, longest: 0, pack_number: state.pack_number + 1 },
        events: summary.push(PackEventView::Header { pack_number: state.pack_number + 1 }),
    }
}

/// A state as it is, with no event.
pub open spec fn stay(state: PackState) -> Placement {
    Placement { state, events: Seq::empty() }
}

/// The room that the pack of `state` has left for pieces of `item`.
pub open spec fn room_in(pack: PackView, state: PackState, item: ItemView) -> int {
    room(pack, state.weight, state.pieces, item.weight)
}

/// Placing `left` pieces of `item`, starting in `state`, round by round.
///
/// A round that finds the pack without room closes it and opens the next.
/// As many pieces as fit, at most `left`, go into the current pack and
/// are reported as one fill. The rest of the pieces follows in further rounds.
/// Where even a pack that was just opened has no room, nothing more is placed.
pub open spec fn place_units(pack: PackView, state: PackState, item: ItemView, left: int)
    -> Placement
    decreases left,
{
    if left <= 0 {
        stay(state)
    } else {
        let opened = if room_in(pack, state, item) <= 0 {
            close_pack(state)
        } else {
            stay(state)
        };
        let space = room_in(pack, opened.state, item);
        if space <= 0 {
            opened
        } else {
            let placed = min_int(space, left);
            let fill = fill_of(item, placed);
            let rest = place_units(pack, after_event(opened.state, fill), item, left - placed);
            Placement { state: rest.state, events: opened.events.push(fill) + rest.events }
        }
    }
}

/// The fill that reports `placed` pieces of `item`.
pub open spec fn fill_of(item: ItemView, placed: int) -> PackEventView {
    PackEventView::Fill {
        item_id: item.id,
        length: item.length,
        quantity_placed: placed,
        unit_weight: item.weight,
    }
}

/// The state that `event` leaves behind, as the report shows it: a fill adds
/// its pieces and their weight to the current pack, a header begins an empty
/// pack under its number, and a summary changes nothing.
pub open spec fn after_event(state: PackState, event: PackEventView) -> PackState {
    match event {
        PackEventView::Header { pack_number } => PackState {
            weight: 0,
            pieces: 0,
            longest: 0,
            pack_number,
        },
        PackEventView::Fill { length, quantity_placed, unit_weight, .. } => PackState {
            weight: state.weight + quantity_placed * unit_weight,
            pieces: state.pieces + quantity_placed,
            longest: max_int(state.longest, length),
            pack_number: state.pack_number,
        },
        PackEventView::Summary { .. } => state,
    }
}

/// Why the batch `item` at position `item_index` cannot be packed, if it
/// cannot: one piece is heavier than a pack may be, or the batch has pieces
/// and an empty pack has no room for one of them.
pub open spec fn batch_failure(pack: PackView, item: ItemView, item_index: usize) -> Option<
    PackFailure,
> {
    if item.weight > pack.max_weight {
        Some(PackFailure::ItemExceedsPackCapacity { item_index })
    } else if item.count > 0 && room(pack, 0, 0, item.weight) <= 0 {
        Some(PackFailure::NoRoomInEmptyPack { item_index })
    } else {
        None
    }
}

/// The outcome of a packing: the state it ended in, the events in order, and
/// the failure that stopped it, if one did.
pub struct Packing {
    pub state: PackState,
    pub events: Seq<PackEventView>,
    pub failure: Option<PackFailure>,
}

/// Packing the batches `items` in order. Each batch is placed completely
/// before the next begins. The first batch that cannot be packed stops the
/// packing: nothing is reported for it or for any batch behind it.
pub open spec fn pack_run(pack: PackView, items: Seq<ItemView>) -> Packing
    decreases items.len(),
{
    if items.len() == 0 {
        Packing { state: initial_state(), events: Seq::empty(), failure: None }
    } else {
        let before = pack_run(pack, items.drop_last());
        let item = items.last();
        if before.failure is Some {
            before
        } else {
            match batch_failure(pack, item, (items.len() - 1) as usize) {
                Some(failure) => Packing { failure: Some(failure), ..before },
                None => {
                    let placement = place_units(pack, before.state, item, item.count);
                    Packing {
                        state: placement.state,
                        events: before.events + placement.events,
                        failure: None,
                    }
                },
            }
        }
    }
}

/// What a packing produced: the events in order, and the failure that
/// stopped it, if one did.
#[derive(Clone, Debug, PartialEq)]
pub struct PackingRun {
    pub events: Vec<PackEvent>,
    pub failure: Option<PackFailure>,
}

/// The weights and counts that a packing can reach: the weight of the current
/// pack lies between 0 and the weight limit, a pack that holds pieces holds
/// no more than the piece limit, and an empty pack weighs nothing.
pub open spec fn reachable(pack: PackView, state: PackState) -> bool {
    &&& min_int(0, pack.max_weight) <= state.weight <= max_int(0, pack.max_weight)
    &&& 0 <= state.pieces
    &&& state.pieces > 0 ==> state.pieces <= pack.max_pieces
    &&& state.pieces == 0 ==> state.weight == 0
    &&& 0 <= state.pack_number
}

/// The current pack and the events reported so far.
struct Packer {
    weight: Decimal,
    pieces: i32,
    longest: Decimal,
    pack_number: usize,
    events: Vec<PackEvent>,
}

impl Packer {
    /// The state of the packing.
    spec fn state(&self) -> PackState {
        PackState {
            weight: self.weight@,
            pieces: self.pieces as int,
            longest: self.longest@,
            pack_number: self.pack_number as int,
        }
    }

    /// The events reported so far.
    spec fn reported(&self) -> Seq<PackEventView> {
        event_views(self.events@)
    }

    /// Every pack that was closed held at least one fill, and so does a
    /// pack that holds pieces: the events outnumber the packs.
    spec fn counted(&self) -> bool {
        self.pack_number + (if self.pieces > 0 { 1int } else { 0int }) <= self.events.len()
    }

    /// An empty pack, before any pack was opened or anything reported.
    fn new() -> (packer: Packer)
        ensures
            packer.state() == initial_state(),
            packer.reported() == Seq::<PackEventView>::empty(),
            packer.counted(),
    {
        Packer {
            weight: Decimal::zero(),
            pieces: 0,
            longest: Decimal::zero(),
            pack_number: 0,
            events: Vec::new(),
        }
    }

    /// Adds `event` to the events reported.
    fn report(&mut self, event: PackEvent)
        ensures
            final(self).state() == old(self).state(),
            final(self).reported() == old(self).reported().push(event@),
            final(self).events@.len() == old(self).events@.len() + 1,
    {
        self.events.push(event);
    }

    /// Closes the current pack, which holds pieces, and opens the next.
    fn close(&mut self)
        requires
            old(self).pieces > 0,
            old(self).counted(),
        ensures
            final(self).state() == close_pack(old(self).state()).state,
            final(self).reported() == old(self).reported() + close_pack(old(self).state()).events,
            final(self).counted(),
    {
        if self.pack_number > 0 {
            self.report(
                PackEvent::Summary {
                    pack_number: self.pack_number,
                    total_weight: self.weight,
                    longest_item_length: self.longest,
                },
            );
        }
        self.pack_number = self.pack_number + 1;
        self.weight = Decimal::zero();
        self.pieces = 0;
        self.longest = Decimal::zero();
        self.report(PackEvent::Header { pack_number: self.pack_number });
    }
}

/// Packs the batches `items`, in the order given, into packs that obey the
/// limits of `pack_template`, and reports what happens.
///
/// The packing is greedy: a batch is placed completely before the next one
/// begins, as many pieces at a time as the current pack has room for, and a
/// pack is closed when it has no room for the piece that is placed next. The
/// first batch that cannot be packed stops the packing at once, with what was
/// reported until it.
pub fn pack_items(items: &Vec<ItemTemplate>, pack_template: &PackTemplate) -> (run: PackingRun)
    requires
        pack_template.sort_order != PackSortOrder::NotSet,
    ensures
        event_views(run.events@) == pack_run(pack_template@, item_views(items@)).events,
        run.failure == pack_run(pack_template@, item_views(items@)).failure,
{
    let ghost pack = pack_template@;
    let ghost views = item_views(items@);
    let mut packer = Packer::new();
    let mut index: usize = 0;
    while index < items.len()
        invariant
            index <= items.len(),
            pack == pack_template@,
            views == item_views(items@),
            pack_run(pack, views.take(index as int)).failure is None,
            pack_run(pack, views.take(index as int)).state == packer.state(),
            pack_run(pack, views.take(index as int)).events == packer.reported(),
            reachable(pack, packer.state()),
            packer.counted(),
        decreases items.len() - index,
    {
        let item = &items[index];
        proof {
            let upto = views.take(index as int + 1);
            assert(upto.drop_last() =~= views.take(index as int));
            if index + 1 == items.len() {
                assert(upto =~= views);
            }
        }
        if item.weight.units() > pack_template.maximum_weight.units() {
            proof {
                lemma_failure_stays(pack, views, index as int + 1);
            }
            return PackingRun {
                events: packer.events,
                failure: Some(PackFailure::ItemExceedsPackCapacity { item_index: index }),
            };
        }
        if item.count > 0 && maximum_number_of_items_to_add(
            pack_template,
            Decimal::zero(),
            0,
            item,
        ) <= 0 {
            proof {
                lemma_failure_stays(pack, views, index as int + 1);
            }
            return PackingRun {
                events: packer.events,
                failure: Some(PackFailure::NoRoomInEmptyPack { item_index: index }),
            };
        }
        place_batch(&mut packer, pack_template, item);
        index = index + 1;
    }
    assert(views.take(index as int) =~= views);
    PackingRun { events: packer.events, failure: None }
}

/// A batch of which one piece weighs more than a pack may weigh stops the
/// packing: where the batches before it were packed, the packing fails at
/// that batch, and it reports what those batches gave and nothing more. No
/// further pack is opened.
pub proof fn lemma_too_heavy_batch_stops(pack: PackView, items: Seq<ItemView>, n: int)
    requires
        0 <= n < items.len(),
        n <= usize::MAX,
        items[n].weight > pack.max_weight,
        pack_run(pack, items.take(n)).failure is None,
    ensures
        pack_run(pack, items).failure == Some(
            PackFailure::ItemExceedsPackCapacity { item_index: n as usize },
        ),
        pack_run(pack, items).events == pack_run(pack, items.take(n)).events,
        pack_run(pack, items).state == pack_run(pack, items.take(n)).state,
{
    assert(items.take(n + 1).drop_last() =~= items.take(n));
    lemma_failure_stays(pack, items, n + 1);
}

/// Once a packing has failed, further batches change nothing.
pub proof fn lemma_failure_stays(pack: PackView, items: Seq<ItemView>, n: int)
    requires
        0 <= n <= items.len(),
        pack_run(pack, items.take(n)).failure is Some,
    ensures
        pack_run(pack, items).failure == pack_run(pack, items.take(n)).failure,
        pack_run(pack, items).events == pack_run(pack, items.take(n)).events,
        pack_run(pack, items).state == pack_run(pack, items.take(n)).state,
    decreases items.len() - n,
{
    if n == items.len() {
        assert(items.take(n) =~= items);
    } else {
        assert(items.drop_last().take(n) =~= items.take(n));
        lemma_failure_stays(pack, items.drop_last(), n);
    }
}

/// Places all pieces of one batch that can be packed.
fn place_batch(packer: &mut Packer, pack_template: &PackTemplate, item: &ItemTemplate)
    requires
        batch_failure(pack_template@, item@, 0) is None,
        reachable(pack_template@, old(packer).state()),
        old(packer).counted(),
    ensures
        final(packer).state() == place_units(
            pack_template@,
            old(packer).state(),
            item@,
            item@.count,
        ).state,
        final(packer).reported() == old(packer).reported() + place_units(
            pack_template@,
            old(packer).state(),
            item@,
            item@.count,
        ).events,
        reachable(pack_template@, final(packer).state()),
        final(packer).counted(),
{
    let ghost pack = pack_template@;
    let ghost target = place_units(pack, packer.state(), item@, item@.count);
    let ghost start = packer.reported();
    let unit_weight: i64 = item.weight.units();
    let max_weight: i64 = pack_template.maximum_weight.units();
    let mut left: i32 = item.count;
    while left > 0
        invariant
            pack == pack_template@,
            unit_weight == item@.weight,
            max_weight == pack.max_weight,
            units_in_range(max_weight as int),
            left <= item.count,
            batch_failure(pack, item@, 0) is None,
            reachable(pack, packer.state()),
            packer.counted(),
            place_units(pack, packer.state(), item@, left as int).state == target.state,
            packer.reported() + place_units(pack, packer.state(), item@, left as int).events
                == start + target.events,
        decreases left,
    {
        let ghost entry_events = packer.reported();
        let ghost pending = place_units(pack, packer.state(), item@, left as int);
        let mut space: i64 = maximum_number_of_items_to_add(
            pack_template,
            packer.weight,
            packer.pieces,
            item,
        );
        if space <= 0 {
            packer.close();
            space = maximum_number_of_items_to_add(
                pack_template,
                packer.weight,
                packer.pieces,
                item,
            );
        }
        let ghost opened = packer.state();
        // An empty pack has room for the batch, and only a pack that holds
        // pieces was closed: there is room now.
        assert(space > 0);
        let placed: i32 = if space < left as i64 {
            space as i32
        } else {
            left
        };
        proof {
            lemma_fill_stays_within(pack, opened, item@, placed as int);
        }
        let added_weight: i64 = (placed as i64) * unit_weight;
        let new_weight: Decimal = Decimal::from_units_in_range(
            packer.weight.units() + added_weight,
        );
        packer.report(
            PackEvent::Fill {
                item_id: item.id.clone(),
                length: item.length,
                quantity_placed: placed,
                unit_weight: item.weight,
            },
        );
        packer.weight = new_weight;
        packer.pieces = packer.pieces + placed;
        if item.length.units() > packer.longest.units() {
            packer.longest = item.length;
        }
        left = left - placed;
        proof {
            // One round of `place_units` is done: what it says of the pieces
            // that were left is what was reported now and what is said of the rest.
            let rest = place_units(pack, packer.state(), item@, left as int);
            assert(pending.state == rest.state);
            assert(entry_events + pending.events =~= packer.reported() + rest.events);
        }
    }
}

/// A fill of at most the room of a pack keeps the pack within its limits.
proof fn lemma_fill_stays_within(pack: PackView, state: PackState, item: ItemView, placed: int)
    requires
        reachable(pack, state),
        0 < placed <= room_in(pack, state, item),
    ensures
        item.weight > 0 ==> 0 < placed * item.weight <= pack.max_weight - state.weight,
        item.weight == 0 ==> placed * item.weight == 0,
        item.weight < 0 ==> 0 > placed * item.weight >= pack.max_weight - state.weight,
        state.pieces + placed <= pack.max_pieces,
{
    let headroom = pack.max_weight - state.weight;
    let weight = item.weight;
    if weight == 0 {
        assert(placed * weight == 0) by (nonlinear_arith)
            requires
                weight == 0,
        ;
    } else {
        let quotient = floor_div(headroom, weight);
        lemma_floor_div_bounds(headroom, weight);
        if weight > 0 {
            assert(placed * weight <= quotient * weight) by (nonlinear_arith)
                requires
                    placed <= quotient,
                    weight > 0,
            ;
            assert(0 < placed * weight) by (nonlinear_arith)
                requires
                    placed > 0,
                    weight > 0,
            ;
        } else {
            assert(placed * weight >= quotient * weight) by (nonlinear_arith)
                requires
                    placed <= quotient,
                    weight < 0,
            ;
            assert(0 > placed * weight) by (nonlinear_arith)
                requires
                    placed > 0,
                    weight < 0,
            ;
        }
    }
}

/// One piece of a batch, as a report shows it.
pub struct Piece {
    pub id: Seq<char>,
    pub length: int,
    pub weight: int,
}

/// A piece of the batch `item`.
pub open spec fn piece_of(item: ItemView) -> Piece {
    Piece { id: item.id, length: item.length, weight: item.weight }
}

/// `count` times the same piece, none for a count below 1.
pub open spec fn repeated(piece: Piece, count: int) -> Seq<Piece> {
    Seq::new(max_int(count, 0) as nat, |i: int| piece)
}

/// The pieces that the batches `items` hold, one by one, in the order of the
/// batches.
pub open spec fn pieces_of_items(items: Seq<ItemView>) -> Seq<Piece>
    decreases items.len(),
{
    if items.len() == 0 {
        Seq::empty()
    } else {
        pieces_of_items(items.drop_last()) + repeated(piece_of(items.last()), items.last().count)
    }
}

/// The pieces that `event` places: those of a fill, none for any other event.
pub open spec fn pieces_of_event(event: PackEventView) -> Seq<Piece> {
    match event {
        PackEventView::Fill { item_id, length, quantity_placed, unit_weight } => repeated(
            Piece { id: item_id, length, weight: unit_weight },
            quantity_placed,
        ),
        _ => Seq::empty(),
    }
}

/// The pieces that the fills among `events` place, one by one, in the order
/// of the report.
pub open spec fn pieces_of_events(events: Seq<PackEventView>) -> Seq<Piece>
    decreases events.len(),
{
    if events.len() == 0 {
        Seq::empty()
    } else {
        pieces_of_events(events.drop_last()) + pieces_of_event(events.last())
    }
}

/// The state that a report leaves behind, read from its events alone.
pub open spec fn replayed(events: Seq<PackEventView>) -> PackState
    decreases events.len(),
{
    if events.len() == 0 {
        initial_state()
    } else {
        after_event(replayed(events.drop_last()), events.last())
    }
}

/// Whether `event` may follow a report that left `state` behind.
///
/// A fill places at least one piece and leaves the pack within its limits:
/// the pieces of the pack are no more than a pack may hold, and their weight
/// lies between 0 and the weight limit. A summary gives the number of the
/// current pack, which is not the very first, the weight of its pieces and the
/// length of its longest. A header gives the next number.
pub open spec fn event_fits(pack: PackView, state: PackState, event: PackEventView) -> bool {
    match event {
        PackEventView::Header { pack_number } => pack_number == state.pack_number + 1,
        PackEventView::Fill { quantity_placed, .. } => {
            &&& 0 < quantity_placed
            &&& reachable(pack, after_event(state, event))
        },
        PackEventView::Summary { pack_number, total_weight, longest_item_length } => {
            &&& pack_number == state.pack_number
            &&& pack_number > 0
            &&& total_weight == state.weight
            &&& longest_item_length == state.longest
        },
    }
}

/// Whether every event of a report may follow the events before it.
pub open spec fn report_fits(pack: PackView, events: Seq<PackEventView>) -> bool {
    forall|i: int|
        0 <= i < events.len() ==> event_fits(pack, replayed(events.take(i)), #[trigger] events[i])
}

/// An event that may follow a sound report makes a sound report with it.
pub proof fn lemma_one_more_event(pack: PackView, events: Seq<PackEventView>, event: PackEventView)
    requires
        report_fits(pack, events),
        event_fits(pack, replayed(events), event),
    ensures
        report_fits(pack, events.push(event)),
        replayed(events.push(event)) == after_event(replayed(events), event),
        pieces_of_events(events.push(event)) == pieces_of_events(events) + pieces_of_event(event),
{
    let longer = events.push(event);
    assert(longer.drop_last() =~= events);
    assert forall|i: int| 0 <= i < longer.len() implies event_fits(
        pack,
        replayed(longer.take(i)),
        #[trigger] longer[i],
    ) by {
        if i < events.len() {
            assert(longer.take(i) =~= events.take(i));
            assert(longer[i] == events[i]);
        } else {
            assert(longer.take(i) =~= events);
        }
    }
}

/// Closing the pack behind a sound report gives a sound report, with an
/// empty pack and no piece more.
pub proof fn lemma_close_pack_report(pack: PackView, before: Seq<PackEventView>)
    requires
        report_fits(pack, before),
        replayed(before).pack_number >= 0,
    ensures
        report_fits(pack, before + close_pack(replayed(before)).events),
        replayed(before + close_pack(replayed(before)).events) == close_pack(
            replayed(before),
        ).state,
        reachable(pack, close_pack(replayed(before)).state),
        pieces_of_events(before + close_pack(replayed(before)).events) == pieces_of_events(
            before,
        ),
{
    let state = replayed(before);
    let header = PackEventView::Header { pack_number: state.pack_number + 1 };
    if state.pack_number > 0 {
        let summary = PackEventView::Summary {
            pack_number: state.pack_number,
            total_weight: state.weight,
            longest_item_length: state.longest,
        };
        lemma_one_more_event(pack, before, summary);
        lemma_one_more_event(pack, before.push(summary), header);
        assert(before + close_pack(state).events =~= before.push(summary).push(header));
        assert(pieces_of_events(before) + pieces_of_event(summary) + pieces_of_event(header)
            =~= pieces_of_events(before));
    } else {
        lemma_one_more_event(pack, before, header);
        assert(before + close_pack(state).events =~= before.push(header));
        assert(pieces_of_events(before) + pieces_of_event(header) =~= pieces_of_events(before));
    }
}

/// A fill of no more than the room of the pack, behind a sound report, gives
/// a sound report with that many pieces more.
pub proof fn lemma_fill_report(
    pack: PackView,
    before: Seq<PackEventView>,
    item: ItemView,
    placed: int,
)
    requires
        report_fits(pack, before),
        reachable(pack, replayed(before)),
        0 < placed <= room_in(pack, replayed(before), item),
    ensures
        report_fits(pack, before.push(fill_of(item, placed))),
        replayed(before.push(fill_of(item, placed))) == after_event(
            replayed(before),
            fill_of(item, placed),
        ),
        reachable(pack, after_event(replayed(before), fill_of(item, placed))),
        pieces_of_events(before.push(fill_of(item, placed))) == pieces_of_events(before)
            + repeated(piece_of(item), placed),
{
    lemma_fill_stays_within(pack, replayed(before), item, placed);
    lemma_one_more_event(pack, before, fill_of(item, placed));
}

/// Placing the pieces of a batch that can be packed, behind a sound report,
/// gives a sound report: it places every one of the pieces, in rounds that
/// keep every pack within its limits.
pub proof fn lemma_place_units_report(
    pack: PackView,
    before: Seq<PackEventView>,
    item: ItemView,
    left: int,
)
    requires
        report_fits(pack, before),
        reachable(pack, replayed(before)),
        item.weight <= pack.max_weight,
        left > 0 ==> room(pack, 0, 0, item.weight) > 0,
    ensures
        report_fits(pack, before + place_units(pack, replayed(before), item, left).events),
        replayed(before + place_units(pack, replayed(before), item, left).events) == place_units(
            pack,
            replayed(before),
            item,
            left,
        ).state,
        reachable(pack, place_units(pack, replayed(before), item, left).state),
        pieces_of_events(before + place_units(pack, replayed(before), item, left).events)
            == pieces_of_events(before) + repeated(piece_of(item), left),
    decreases left,
{
    let state = replayed(before);
    let placement = place_units(pack, state, item, left);
    if left <= 0 {
        assert(before + placement.events =~= before);
        assert(pieces_of_events(before) + repeated(piece_of(item), left) =~= pieces_of_events(
            before,
        ));
    } else {
        let opening = if room_in(pack, state, item) <= 0 {
            close_pack(state)
        } else {
            stay(state)
        };
        let opened = before + opening.events;
        if room_in(pack, state, item) <= 0 {
            lemma_close_pack_report(pack, before);
        } else {
            assert(opened =~= before);
        }
        let placed = min_int(room_in(pack, opening.state, item), left);
        let fill = fill_of(item, placed);
        lemma_fill_report(pack, opened, item, placed);
        let filled = opened.push(fill);
        lemma_place_units_report(pack, filled, item, left - placed);
        let rest = place_units(pack, replayed(filled), item, left - placed);
        assert(before + placement.events =~= filled + rest.events);
        assert(pieces_of_events(before) + repeated(piece_of(item), placed) + repeated(
            piece_of(item),
            left - placed,
        ) =~= pieces_of_events(before) + repeated(piece_of(item), left));
    }
}

/// The report of a packing is sound, and unless the packing fails it places
/// every piece of every batch exactly once, in the order of the batches.
///
/// Every fill leaves its pack within the limits given, every summary states
/// the weight and the longest length of the fills of its pack, and the
/// headers count the packs from 1 on, one by one.
pub proof fn lemma_packing_report(pack: PackView, items: Seq<ItemView>)
    ensures
        report_fits(pack, pack_run(pack, items).events),
        replayed(pack_run(pack, items).events) == pack_run(pack, items).state,
        reachable(pack, pack_run(pack, items).state),
        pack_run(pack, items).failure is None ==> pieces_of_events(pack_run(pack, items).events)
            == pieces_of_items(items),
    decreases items.len(),
{
    if items.len() > 0 {
        let before = pack_run(pack, items.drop_last());
        let item = items.last();
        lemma_packing_report(pack, items.drop_last());
        if before.failure is None && batch_failure(pack, item, (items.len() - 1) as usize) is None {
            lemma_place_units_report(pack, before.events, item, item.count);
        }
    }
}

} // verus!
