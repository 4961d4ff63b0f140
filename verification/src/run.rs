//! Whole runs of a download: what a consumer is told over a sequence of
//! events, and what holds of every such sequence.

use crate::download::{
    accepts, all_declared, all_finished, buffers_of, download, fresh_tiles, progress_of, step,
    sum_downloaded, sum_total, tiles_after, Event, EventView, State, StateView, TileEventView,
};
use crate::id::DownloadId;
use crate::progress::{DownloadErrorView, Progress, ProgressView};
use crate::tile::TileView;
use vstd::prelude::*;

verus! {

/// What one step tells, as a sequence of at most one event.
pub open spec fn told(progress: Option<ProgressView>) -> Seq<ProgressView> {
    match progress {
        Some(progress) => seq![progress],
        None => Seq::empty(),
    }
}

/// Everything a consumer is told when the coordinator, starting in `state`,
/// takes one step for each of `events` in turn.
pub open spec fn run(state: StateView, events: Seq<EventView>) -> Seq<ProgressView>
    decreases events.len(),
{
    if events.len() == 0 {
        Seq::empty()
    } else {
        told(step(state, events[0]).0) + run(step(state, events[0]).1, events.drop_first())
    }
}

/// The state in which the coordinator is left by `events`.
pub open spec fn state_after(state: StateView, events: Seq<EventView>) -> StateView
    decreases events.len(),
{
    if events.len() == 0 {
        state
    } else {
        state_after(step(state, events[0]).1, events.drop_first())
    }
}

/// A delivery from a tile that is no failure: a chunk or an end of stream.
pub open spec fn is_delivery(event: EventView) -> bool {
    event matches EventView::Tile(_, delivered) && !(delivered is Failed)
}

/// Every one of `events` is a delivery that the state it meets waits for.
pub open spec fn deliveries_in_turn(state: StateView, events: Seq<EventView>) -> bool
    decreases events.len(),
{
    events.len() == 0 || (is_delivery(events[0]) && accepts(state, events[0])
        && deliveries_in_turn(step(state, events[0]).1, events.drop_first()))
}

/// A run over one event and then others is the first step's telling and
/// the run of the others from the state that follows.
pub proof fn lemma_run_unfolds(state: StateView, first: EventView, rest: Seq<EventView>)
    ensures
        run(state, seq![first] + rest) == told(step(state, first).0) + run(
            step(state, first).1,
            rest,
        ),
        state_after(state, seq![first] + rest) == state_after(step(state, first).1, rest),
{
    let events = seq![first] + rest;
    assert(events[0] == first);
    assert(events.drop_first() =~= rest);
}

/// A run over two sequences of events in a row is the run over the first
/// and then, from the state it leaves, the run over the second.
pub proof fn lemma_run_splits(state: StateView, head: Seq<EventView>, tail: Seq<EventView>)
    ensures
        run(state, head + tail) == run(state, head) + run(state_after(state, head), tail),
        state_after(state, head + tail) == state_after(state_after(state, head), tail),
    decreases head.len(),
{
    if head.len() == 0 {
        assert(head + tail =~= tail);
        assert(run(state, head) + run(state, tail) =~= run(state, tail));
    } else {
        let next = step(state, head[0]).1;
        assert((head + tail)[0] == head[0]);
        assert((head + tail).drop_first() =~= head.drop_first() + tail);
        lemma_run_splits(next, head.drop_first(), tail);
        assert(run(state, head + tail) =~= run(state, head) + run(state_after(state, head), tail));
    }
}

/// Once a download is over, nothing is told any more, whatever arrives,
/// and the state stays `Finished`.
pub proof fn lemma_finished_is_silent(events: Seq<EventView>)
    ensures
        run(StateView::Finished, events) == Seq::<ProgressView>::empty(),
        state_after(StateView::Finished, events) == StateView::Finished,
    decreases events.len(),
{
    if events.len() > 0 {
        lemma_finished_is_silent(events.drop_first());
        assert(run(StateView::Finished, events) =~= Seq::<ProgressView>::empty());
    }
}

/// Where one of the four responses declares no content length, the run
/// tells of one failure and of nothing else, whatever arrives afterwards.
pub proof fn lemma_missing_length_fails(
    id: DownloadId,
    lengths: Seq<Option<u64>>,
    rest: Seq<EventView>,
)
    requires
        !all_declared(lengths),
    ensures
        run(StateView::Ready(id), seq![EventView::Responses(Ok(lengths))] + rest) == seq![
            ProgressView::Failed(DownloadErrorView::MissingContentLength),
        ],
{
    let first = EventView::Responses(Ok(lengths));
    lemma_run_unfolds(StateView::Ready(id), first, rest);
    lemma_finished_is_silent(rest);
    assert(run(StateView::Ready(id), seq![first] + rest) =~= seq![
        ProgressView::Failed(DownloadErrorView::MissingContentLength),
    ]);
}

/// Where a request fails, the run tells of that failure and of nothing
/// else.
pub proof fn lemma_failed_request_fails(
    id: DownloadId,
    error: DownloadErrorView,
    rest: Seq<EventView>,
)
    ensures
        run(StateView::Ready(id), seq![EventView::Responses(Err(error))] + rest) == seq![
            ProgressView::Failed(error),
        ],
{
    let first = EventView::Responses(Err(error));
    lemma_run_unfolds(StateView::Ready(id), first, rest);
    lemma_finished_is_silent(rest);
    assert(run(StateView::Ready(id), seq![first] + rest) =~= seq![ProgressView::Failed(error)]);
}

/// While deliveries arrive in turn, each one is answered by one `Advanced`
/// and the download stays under way.
pub proof fn lemma_deliveries_advance(tiles: Seq<TileView>, deliveries: Seq<EventView>)
    requires
        deliveries_in_turn(StateView::Downloading(tiles), deliveries),
    ensures
        run(StateView::Downloading(tiles), deliveries).len() == deliveries.len(),
        forall|k: int|
            0 <= k < deliveries.len() ==> (#[trigger] run(
                StateView::Downloading(tiles),
                deliveries,
            )[k]) is Advanced,
        state_after(StateView::Downloading(tiles), deliveries) is Downloading,
    decreases deliveries.len(),
{
    if deliveries.len() > 0 {
        let state = StateView::Downloading(tiles);
        let next = step(state, deliveries[0]).1;
        let after = next->Downloading_0;
        lemma_deliveries_advance(after, deliveries.drop_first());
        let later = run(next, deliveries.drop_first());
        assert forall|k: int| 0 <= k < deliveries.len() implies (#[trigger] run(
            state,
            deliveries,
        )[k]) is Advanced by {
            if k > 0 {
                assert(run(state, deliveries)[k] == later[k - 1]);
            }
        }
    }
}

/// A stream that breaks after `deliveries` cuts the run short: the consumer
/// is told `Started`, one `Advanced` for each delivery, the failure, and
/// nothing after it, whatever arrives.
pub proof fn lemma_broken_stream_cuts_run(
    id: DownloadId,
    lengths: Seq<Option<u64>>,
    deliveries: Seq<EventView>,
    position: usize,
    error: DownloadErrorView,
    rest: Seq<EventView>,
)
    requires
        all_declared(lengths),
        deliveries_in_turn(StateView::Downloading(fresh_tiles(lengths)), deliveries),
        accepts(
            state_after(StateView::Downloading(fresh_tiles(lengths)), deliveries),
            EventView::Tile(position, TileEventView::Failed(error)),
        ),
    ensures
        ({
            let told = run(
                StateView::Ready(id),
                seq![EventView::Responses(Ok(lengths))] + (deliveries + (seq![
                    EventView::Tile(position, TileEventView::Failed(error)),
                ] + rest)),
            );
            &&& told.len() == deliveries.len() + 2
            &&& told[0] == ProgressView::Started
            &&& forall|k: int| 1 <= k <= deliveries.len() ==> (#[trigger] told[k]) is Advanced
            &&& told[deliveries.len() as int + 1] == ProgressView::Failed(error)
        }),
{
    let under_way = StateView::Downloading(fresh_tiles(lengths));
    let failure = EventView::Tile(position, TileEventView::Failed(error));
    let tail = seq![failure] + rest;
    lemma_run_unfolds(StateView::Ready(id), EventView::Responses(Ok(lengths)), deliveries + tail);
    lemma_run_splits(under_way, deliveries, tail);
    lemma_deliveries_advance(fresh_tiles(lengths), deliveries);
    let broken = state_after(under_way, deliveries);
    lemma_run_unfolds(broken, failure, rest);
    lemma_finished_is_silent(rest);
    assert(run(broken, tail) =~= seq![ProgressView::Failed(error)]);
    let told = run(
        StateView::Ready(id),
        seq![EventView::Responses(Ok(lengths))] + (deliveries + tail),
    );
    assert(told =~= seq![ProgressView::Started] + (run(under_way, deliveries) + seq![
        ProgressView::Failed(error),
    ]));
    assert forall|k: int| 1 <= k <= deliveries.len() implies (#[trigger] told[k]) is Advanced by {
        assert(told[k] == run(under_way, deliveries)[k - 1]);
    }
}

/// A delivery never lowers the bytes received and leaves the bytes
/// declared as they are.
pub proof fn lemma_delivery_adds(tiles: Seq<TileView>, position: int, delivered: TileEventView)
    requires
        tiles.len() == 4,
        0 <= position < 4,
    ensures
        sum_total(tiles_after(tiles, position, delivered)) == sum_total(tiles),
        sum_downloaded(tiles_after(tiles, position, delivered)) >= sum_downloaded(tiles),
        progress_of(tiles_after(tiles, position, delivered)).downloaded >= progress_of(
            tiles,
        ).downloaded,
        tiles_after(tiles, position, delivered).len() == 4,
{
}

/// Every `Advanced` of a run that starts while the transfers are under way
/// is a share of the same declared total, and no smaller than the share
/// that had arrived at the start.
pub proof fn lemma_advanced_from(tiles: Seq<TileView>, events: Seq<EventView>, k: int)
    requires
        tiles.len() == 4,
        0 <= k < run(StateView::Downloading(tiles), events).len(),
        run(StateView::Downloading(tiles), events)[k] is Advanced,
    ensures
        run(StateView::Downloading(tiles), events)[k]->Advanced_0.total == sum_total(tiles),
        run(StateView::Downloading(tiles), events)[k]->Advanced_0.downloaded >= progress_of(
            tiles,
        ).downloaded,
    decreases events.len(),
{
    let state = StateView::Downloading(tiles);
    let first = step(state, events[0]).0;
    let next = step(state, events[0]).1;
    let later = run(next, events.drop_first());
    if first is None {
        lemma_advanced_from(tiles, events.drop_first(), k);
    } else if next is Finished {
        lemma_finished_is_silent(events.drop_first());
    } else {
        let position = events[0]->Tile_0 as int;
        let delivered = events[0]->Tile_1;
        let after = tiles_after(tiles, position, delivered);
        lemma_delivery_adds(tiles, position, delivered);
        if k > 0 {
            assert(run(state, events)[k] == later[k - 1]);
            lemma_advanced_from(after, events.drop_first(), k - 1);
        }
    }
}

/// Within one run the reported shares never fall: of two `Advanced`, the
/// later is at least the earlier.
pub proof fn lemma_progress_never_falls(
    state: StateView,
    events: Seq<EventView>,
    earlier: int,
    later: int,
)
    requires
        state matches StateView::Downloading(tiles) ==> tiles.len() == 4,
        0 <= earlier <= later < run(state, events).len(),
        run(state, events)[earlier] is Advanced,
        run(state, events)[later] is Advanced,
    ensures
        run(state, events)[earlier]->Advanced_0.le(run(state, events)[later]->Advanced_0),
    decreases events.len(),
{
    let first = step(state, events[0]).0;
    let next = step(state, events[0]).1;
    let rest = events.drop_first();
    let low = run(state, events)[earlier]->Advanced_0;
    let high = run(state, events)[later]->Advanced_0;
    if earlier == later {
    } else if next is Finished {
        lemma_finished_is_silent(rest);
    } else if first is None {
        lemma_progress_never_falls(state, rest, earlier, later);
    } else {
        if state is Downloading {
            let tiles = state->Downloading_0;
            lemma_delivery_adds(tiles, events[0]->Tile_0 as int, events[0]->Tile_1);
        } else {
            assert(next->Downloading_0.len() == 4);
        }
        assert(run(state, events)[later] == run(next, rest)[later - 1]);
        if earlier > 0 {
            assert(run(state, events)[earlier] == run(next, rest)[earlier - 1]);
            lemma_progress_never_falls(next, rest, earlier - 1, later - 1);
        } else {
            let after = next->Downloading_0;
            lemma_advanced_from(after, rest, later - 1);
            assert(low.total == high.total);
            assert(low.downloaded <= high.downloaded);
            assert(low.downloaded * high.total <= high.downloaded * low.total) by (nonlinear_arith)
                requires
                    low.total == high.total,
                    low.downloaded <= high.downloaded,
            ;
        }
    }
}

/// No tile holds more bytes than its response declared.
pub open spec fn within_declared(tiles: Seq<TileView>) -> bool {
    forall|i: int| 0 <= i < 4 ==> (#[trigger] tiles[i]).downloaded() <= tiles[i].total
}

/// Every tile holds exactly as many bytes as its response declared.
pub open spec fn all_whole(tiles: Seq<TileView>) -> bool {
    forall|i: int| 0 <= i < 4 ==> (#[trigger] tiles[i]).downloaded() == tiles[i].total
}

/// Where no tile holds more than was declared, the reported share is the
/// whole exactly when every tile is whole.
pub proof fn lemma_whole_iff_every_tile_whole(tiles: Seq<TileView>)
    requires
        within_declared(tiles),
    ensures
        progress_of(tiles).is_one() <==> all_whole(tiles),
{
    assert(tiles[0].downloaded() <= tiles[0].total);
    assert(tiles[1].downloaded() <= tiles[1].total);
    assert(tiles[2].downloaded() <= tiles[2].total);
    assert(tiles[3].downloaded() <= tiles[3].total);
}

/// The tiles as they stand when a run from `tiles` hands out its buffers.
pub open spec fn tiles_at_finish(tiles: Seq<TileView>, events: Seq<EventView>) -> Seq<TileView>
    decreases events.len(),
{
    if events.len() == 0 {
        tiles
    } else {
        match step(StateView::Downloading(tiles), events[0]).1 {
            StateView::Downloading(after) => tiles_at_finish(after, events.drop_first()),
            _ => tiles,
        }
    }
}

/// A run that starts while the transfers are under way and ends with
/// `Finished` hands out the buffers of the tiles as they then stand, whose
/// declared lengths are those of the start. Unless every stream had ended
/// before the run began, the event just before `Finished` is an `Advanced`
/// with the share of those tiles.
pub proof fn lemma_finish_from(tiles: Seq<TileView>, events: Seq<EventView>)
    requires
        tiles.len() == 4,
        run(StateView::Downloading(tiles), events).len() > 0,
        run(StateView::Downloading(tiles), events).last() is Finished,
    ensures
        ({
            let told = run(StateView::Downloading(tiles), events);
            let last = tiles_at_finish(tiles, events);
            &&& last.len() == 4
            &&& forall|i: int| 0 <= i < 4 ==> (#[trigger] last[i]).total == tiles[i].total
            &&& told.last() == ProgressView::Finished(buffers_of(last))
            &&& told.len() == 1 ==> all_finished(tiles) && last == tiles
            &&& told.len() >= 2 ==> told[told.len() - 2] == ProgressView::Advanced(progress_of(last))
        }),
    decreases events.len(),
{
    let state = StateView::Downloading(tiles);
    let first = step(state, events[0]).0;
    let next = step(state, events[0]).1;
    let rest = events.drop_first();
    let told = run(state, events);
    if first is None {
        lemma_finish_from(tiles, rest);
    } else if next is Finished {
        lemma_finished_is_silent(rest);
        assert(told =~= seq![first->0]);
    } else {
        let after = next->Downloading_0;
        lemma_delivery_adds(tiles, events[0]->Tile_0 as int, events[0]->Tile_1);
        let later = run(next, rest);
        assert(told =~= seq![first->0] + later);
        assert(later.len() > 0);
        assert(later.last() == told.last());
        lemma_finish_from(after, rest);
        if later.len() >= 2 {
            assert(told[told.len() - 2] == later[later.len() - 2]);
        }
    }
}

/// In a run that is started by four declared lengths and ends with
/// `Finished`, the event just before `Finished` is an `Advanced`. Where no
/// buffer is longer than its tile's declared length, that last share is
/// the whole exactly when every buffer has its declared length.
pub proof fn lemma_last_share_is_whole_iff_complete(
    id: DownloadId,
    lengths: Seq<Option<u64>>,
    events: Seq<EventView>,
)
    requires
        run(StateView::Ready(id), seq![EventView::Responses(Ok(lengths))] + events).len() > 0,
        run(StateView::Ready(id), seq![EventView::Responses(Ok(lengths))] + events).last() is Finished,
    ensures
        ({
            let told = run(StateView::Ready(id), seq![EventView::Responses(Ok(lengths))] + events);
            let buffers = told.last()->Finished_0;
            &&& all_declared(lengths)
            &&& told.len() >= 3
            &&& told[0] == ProgressView::Started
            &&& told[told.len() - 2] is Advanced
            &&& buffers.len() == 4
            &&& (forall|i: int| 0 <= i < 4 ==> (#[trigger] buffers[i]).len() <= lengths[i]->0)
                ==> (told[told.len() - 2]->Advanced_0.is_one() <==> forall|i: int|
                0 <= i < 4 ==> (#[trigger] buffers[i]).len() == lengths[i]->0)
        }),
{
    let opening = EventView::Responses(Ok(lengths));
    let told = run(StateView::Ready(id), seq![opening] + events);
    lemma_run_unfolds(StateView::Ready(id), opening, events);
    if !all_declared(lengths) {
        lemma_finished_is_silent(events);
        assert(told =~= seq![ProgressView::Failed(DownloadErrorView::MissingContentLength)]);
    } else {
        let tiles = fresh_tiles(lengths);
        let later = run(StateView::Downloading(tiles), events);
        assert(told =~= seq![ProgressView::Started] + later);
        assert(later.len() > 0);
        assert(later.last() == told.last());
        lemma_finish_from(tiles, events);
        assert(!tiles[0].is_finished);
        assert(told[told.len() - 2] == later[later.len() - 2]);
        let last = tiles_at_finish(tiles, events);
        let buffers = told.last()->Finished_0;
        assert(buffers == buffers_of(last));
        assert forall|i: int| 0 <= i < 4 implies (#[trigger] buffers[i]).len() == last[i].downloaded()
            && last[i].total == lengths[i]->0 by {
            assert(last[i].total == tiles[i].total);
        }
        if forall|i: int| 0 <= i < 4 ==> (#[trigger] buffers[i]).len() <= lengths[i]->0 {
            assert forall|i: int| 0 <= i < 4 implies (#[trigger] last[i]).downloaded()
                <= last[i].total by {
                assert(buffers[i].len() <= lengths[i]->0);
            }
            lemma_whole_iff_every_tile_whole(last);
            if all_whole(last) {
                assert forall|i: int| 0 <= i < 4 implies (#[trigger] buffers[i]).len()
                    == lengths[i]->0 by {
                    assert(last[i].downloaded() == last[i].total);
                }
            }
            if forall|i: int| 0 <= i < 4 ==> (#[trigger] buffers[i]).len() == lengths[i]->0 {
                assert forall|i: int| 0 <= i < 4 implies (#[trigger] last[i]).downloaded()
                    == last[i].total by {
                    assert(buffers[i].len() == lengths[i]->0);
                }
            }
        }
    }
}

/// The tile `later` is the tile `earlier` further on: the same declared
/// length, the bytes of `earlier` with more behind them, and still ended
/// if `earlier` had ended.
pub open spec fn grown_from(later: TileView, earlier: TileView) -> bool {
    &&& later.total == earlier.total
    &&& earlier.data.is_prefix_of(later.data)
    &&& earlier.is_finished ==> later.is_finished
}

/// While a download is under way its tiles only grow: whatever arrives, no
/// declared length changes, no byte that was received is lost or moved, and
/// no stream that has ended opens again.
pub proof fn lemma_tiles_only_grow(tiles: Seq<TileView>, events: Seq<EventView>)
    requires
        tiles.len() == 4,
        state_after(StateView::Downloading(tiles), events) is Downloading,
    ensures
        state_after(StateView::Downloading(tiles), events)->Downloading_0.len() == 4,
        forall|i: int|
            0 <= i < 4 ==> grown_from(
                #[trigger] state_after(StateView::Downloading(tiles), events)->Downloading_0[i],
                tiles[i],
            ),
    decreases events.len(),
{
    if events.len() > 0 {
        let state = StateView::Downloading(tiles);
        let next = step(state, events[0]).1;
        let rest = events.drop_first();
        if next is Finished {
            lemma_finished_is_silent(rest);
        } else {
            let after = next->Downloading_0;
            lemma_tiles_only_grow(after, rest);
            let last = state_after(state, events)->Downloading_0;
            assert forall|i: int| 0 <= i < 4 implies grown_from(#[trigger] last[i], tiles[i]) by {
                assert(grown_from(last[i], after[i]));
                assert(grown_from(after[i], tiles[i]));
            }
        }
    }
}

/// The bytes that `events` deliver to the tile at `position`, in the order
/// of their arrival.
pub open spec fn delivered_to(events: Seq<EventView>, position: int) -> Seq<u8>
    decreases events.len(),
{
    if events.len() == 0 {
        Seq::empty()
    } else {
        (match events[0] {
            EventView::Tile(at, TileEventView::Chunk(chunk)) if at == position => chunk,
            _ => Seq::empty(),
        }) + delivered_to(events.drop_first(), position)
    }
}

/// After deliveries that arrived in turn, each tile holds the bytes it held
/// before and, behind them, the bytes that were delivered to it, in the
/// order of their arrival.
pub proof fn lemma_buffers_hold_what_arrived(tiles: Seq<TileView>, deliveries: Seq<EventView>)
    requires
        tiles.len() == 4,
        deliveries_in_turn(StateView::Downloading(tiles), deliveries),
    ensures
        state_after(StateView::Downloading(tiles), deliveries) is Downloading,
        forall|i: int|
            0 <= i < 4 ==> (#[trigger] state_after(
                StateView::Downloading(tiles),
                deliveries,
            )->Downloading_0[i]).data == tiles[i].data + delivered_to(deliveries, i),
    decreases deliveries.len(),
{
    let state = StateView::Downloading(tiles);
    if deliveries.len() > 0 {
        let next = step(state, deliveries[0]).1;
        let after = next->Downloading_0;
        let rest = deliveries.drop_first();
        lemma_buffers_hold_what_arrived(after, rest);
        let last = state_after(state, deliveries)->Downloading_0;
        assert forall|i: int| 0 <= i < 4 implies (#[trigger] last[i]).data == tiles[i].data
            + delivered_to(deliveries, i) by {
            assert(last[i].data == after[i].data + delivered_to(rest, i));
            assert(last[i].data =~= tiles[i].data + delivered_to(deliveries, i));
        }
    } else {
        assert forall|i: int| 0 <= i < 4 implies (#[trigger] tiles[i]).data == tiles[i].data
            + delivered_to(deliveries, i) by {
            assert(tiles[i].data + Seq::<u8>::empty() =~= tiles[i].data);
        }
    }
}

/// A download whose four responses declare a length and whose deliveries
/// arrive in turn until every stream has ended tells `Started`, one
/// `Advanced` for each delivery, and `Finished` with, for each tile, the
/// bytes that were delivered to it in the order of their arrival; and then
/// nothing more, whatever arrives.
pub proof fn lemma_whole_run(
    id: DownloadId,
    lengths: Seq<Option<u64>>,
    deliveries: Seq<EventView>,
    rest: Seq<EventView>,
)
    requires
        all_declared(lengths),
        deliveries_in_turn(StateView::Downloading(fresh_tiles(lengths)), deliveries),
        state_after(StateView::Downloading(fresh_tiles(lengths)), deliveries) matches StateView::Downloading(
            tiles,
        ) && all_finished(tiles),
    ensures
        ({
            let told = run(
                StateView::Ready(id),
                seq![EventView::Responses(Ok(lengths))] + (deliveries + (seq![EventView::Idle]
                    + rest)),
            );
            &&& told.len() == deliveries.len() + 2
            &&& told[0] == ProgressView::Started
            &&& forall|k: int| 1 <= k <= deliveries.len() ==> (#[trigger] told[k]) is Advanced
            &&& told[deliveries.len() as int + 1] == ProgressView::Finished(
                Seq::new(4, |i: int| delivered_to(deliveries, i)),
            )
        }),
{
    let fresh = fresh_tiles(lengths);
    let under_way = StateView::Downloading(fresh);
    let tail = seq![EventView::Idle] + rest;
    lemma_run_unfolds(StateView::Ready(id), EventView::Responses(Ok(lengths)), deliveries + tail);
    lemma_run_splits(under_way, deliveries, tail);
    lemma_deliveries_advance(fresh, deliveries);
    lemma_buffers_hold_what_arrived(fresh, deliveries);
    let ended = state_after(under_way, deliveries);
    let tiles = ended->Downloading_0;
    lemma_run_unfolds(ended, EventView::Idle, rest);
    lemma_finished_is_silent(rest);
    let handed = Seq::new(4, |i: int| delivered_to(deliveries, i));
    assert(buffers_of(tiles) =~= handed) by {
        assert forall|i: int| 0 <= i < 4 implies buffers_of(tiles)[i] == handed[i] by {
            assert(tiles[i].data == fresh[i].data + delivered_to(deliveries, i));
            assert(fresh[i].data + delivered_to(deliveries, i) =~= delivered_to(deliveries, i));
        }
    }
    assert(run(ended, tail) =~= seq![ProgressView::Finished(handed)]);
    let told = run(
        StateView::Ready(id),
        seq![EventView::Responses(Ok(lengths))] + (deliveries + tail),
    );
    assert(told =~= seq![ProgressView::Started] + (run(under_way, deliveries) + seq![
        ProgressView::Finished(handed),
    ]));
    assert forall|k: int| 1 <= k <= deliveries.len() implies (#[trigger] told[k]) is Advanced by {
        assert(told[k] == run(under_way, deliveries)[k - 1]);
    }
}

/// A download never goes back: once the transfers are under way it is
/// never `Ready` again, whatever arrives.
pub proof fn lemma_never_ready_again(tiles: Seq<TileView>, events: Seq<EventView>)
    ensures
        !(state_after(StateView::Downloading(tiles), events) is Ready),
    decreases events.len(),
{
    if events.len() > 0 {
        let next = step(StateView::Downloading(tiles), events[0]).1;
        if next is Finished {
            lemma_finished_is_silent(events.drop_first());
        } else {
            lemma_never_ready_again(next->Downloading_0, events.drop_first());
        }
    }
}

/// The event ends a download: `Finished` or `Failed`.
pub open spec fn is_terminal(progress: ProgressView) -> bool {
    progress is Finished || progress is Failed
}

/// The events of a run that starts while the transfers are under way come
/// in order: any number of `Advanced`, and then at most one `Finished` or
/// `Failed`, which is the last.
pub proof fn lemma_order_while_downloading(tiles: Seq<TileView>, events: Seq<EventView>, k: int)
    requires
        0 <= k < run(StateView::Downloading(tiles), events).len(),
    ensures
        run(StateView::Downloading(tiles), events)[k] is Advanced || (is_terminal(
            run(StateView::Downloading(tiles), events)[k],
        ) && k == run(StateView::Downloading(tiles), events).len() - 1),
    decreases events.len(),
{
    let state = StateView::Downloading(tiles);
    let first = step(state, events[0]).0;
    let next = step(state, events[0]).1;
    let rest = events.drop_first();
    if next is Finished {
        lemma_finished_is_silent(rest);
    } else if first is None {
        lemma_order_while_downloading(tiles, rest, k);
    } else if k > 0 {
        assert(run(state, events)[k] == run(next, rest)[k - 1]);
        lemma_order_while_downloading(next->Downloading_0, rest, k - 1);
    }
}

/// The events of a run from the start come in order: `Started`, any number
/// of `Advanced`, and then at most one `Finished` or `Failed`, which is the
/// last; or a single `Failed` and nothing else.
pub proof fn lemma_order_of_events(id: DownloadId, events: Seq<EventView>, k: int)
    requires
        0 <= k < run(StateView::Ready(id), events).len(),
    ensures
        ({
            let told = run(StateView::Ready(id), events);
            &&& k == 0 ==> told[0] is Started || (told[0] is Failed && told.len() == 1)
            &&& k > 0 ==> told[0] is Started && (told[k] is Advanced || (is_terminal(told[k]) && k
                == told.len() - 1))
        }),
    decreases events.len(),
{
    let state = StateView::Ready(id);
    let first = step(state, events[0]).0;
    let next = step(state, events[0]).1;
    let rest = events.drop_first();
    if next is Finished {
        lemma_finished_is_silent(rest);
    } else if first is None {
        lemma_order_of_events(id, rest, k);
    } else if k > 0 {
        assert(run(state, events)[k] == run(next, rest)[k - 1]);
        lemma_order_while_downloading(next->Downloading_0, rest, k - 1);
    }
}

/// Once a run has told `Finished` or `Failed`, it tells nothing more,
/// whatever state it started in and whatever arrives.
pub proof fn lemma_terminal_event_is_last(state: StateView, events: Seq<EventView>, k: int)
    requires
        0 <= k < run(state, events).len(),
        is_terminal(run(state, events)[k]),
    ensures
        k == run(state, events).len() - 1,
        state_after(state, events) is Finished,
    decreases events.len(),
{
    let first = step(state, events[0]).0;
    let next = step(state, events[0]).1;
    let rest = events.drop_first();
    if next is Finished {
        lemma_finished_is_silent(rest);
    } else if first is None {
        lemma_terminal_event_is_last(state, rest, k);
    } else {
        assert(k > 0);
        assert(run(state, events)[k] == run(next, rest)[k - 1]);
        lemma_terminal_event_is_last(next, rest, k - 1);
    }
}

/// A list of events as contracts see it.
pub open spec fn event_views(events: Seq<Event>) -> Seq<EventView> {
    events.map_values(|event: Event| event@)
}

/// What a consumer was told, without the tags, as contracts see it.
pub open spec fn progress_views(told: Seq<(DownloadId, Progress)>) -> Seq<ProgressView> {
    told.map_values(|told: (DownloadId, Progress)| told.1@)
}

/// Takes one step of the download named `timestamp` for each of `events`
/// in turn, and hands back everything the consumer is told, each tagged
/// with `timestamp`, and the state in which the coordinator is left.
pub fn replay(timestamp: DownloadId, state: State, events: Vec<Event>) -> (out: (
    Vec<(DownloadId, Progress)>,
    State,
))
    ensures
        progress_views(out.0@) == run(state@, event_views(events@)),
        out.1@ == state_after(state@, event_views(events@)),
        forall|k: int| 0 <= k < out.0@.len() ==> (#[trigger] out.0@[k]).0 == timestamp,
{
    let ghost all = event_views(events@);
    let ghost start = state@;
    let mut waiting = events;
    let mut pending: Vec<Event> = Vec::new();
    while waiting.len() > 0
        invariant
            waiting@.len() + pending@.len() == all.len(),
            event_views(waiting@) == all.take(waiting@.len() as int),
            forall|k: int|
                0 <= k < pending@.len() ==> (#[trigger] pending@[k])@ == all[all.len() - 1 - k],
        decreases waiting.len(),
    {
        let event = waiting.pop().unwrap();
        assert(event@ == all[waiting@.len() as int]) by {
            assert(all.take(waiting@.len() as int + 1)[waiting@.len() as int] == event@);
        }
        pending.push(event);
        assert(event_views(waiting@) =~= all.take(waiting@.len() as int));
    }
    let mut state = state;
    let mut told: Vec<(DownloadId, Progress)> = Vec::new();
    proof {
        assert(all.take(0) =~= Seq::<EventView>::empty());
        assert(all.skip(0) =~= all);
        assert(progress_views(told@) =~= Seq::<ProgressView>::empty());
        lemma_run_splits(start, all.take(0), all);
        assert(all.take(0) + all =~= all);
    }
    while pending.len() > 0
        invariant
            pending@.len() <= all.len(),
            forall|k: int|
                0 <= k < pending@.len() ==> (#[trigger] pending@[k])@ == all[all.len() - 1 - k],
            progress_views(told@) == run(start, all.take(all.len() - pending@.len())),
            state@ == state_after(start, all.take(all.len() - pending@.len())),
            forall|k: int| 0 <= k < told@.len() ==> (#[trigger] told@[k]).0 == timestamp,
        decreases pending.len(),
    {
        let ghost done = all.len() - pending@.len();
        let ghost before = progress_views(told@);
        let event = pending.pop().unwrap();
        proof {
            assert(event@ == all[done]);
            assert(all.take(done + 1) =~= all.take(done) + seq![event@]);
            lemma_run_splits(start, all.take(done), seq![event@]);
            lemma_run_unfolds(state@, event@, Seq::empty());
            assert(seq![event@] + Seq::<EventView>::empty() =~= seq![event@]);
        }
        let (step_told, next) = download(timestamp, state, event);
        state = next;
        match step_told {
            Some(progress) => {
                told.push(progress);
                assert(progress_views(told@) =~= before + seq![progress.1@]);
            },
            None => {
                assert(before + Seq::<ProgressView>::empty() =~= before);
            },
        }
    }
    assert(all.take(all.len() as int) =~= all);
    (told, state)
}

} // verus!
