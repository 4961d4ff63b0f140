//! The coordinator of one download: a state machine that takes what the
//! network delivered and says what the consumer is told.

use crate::id::DownloadId;
use crate::progress::{DownloadError, DownloadErrorView, Fraction, Progress, ProgressView, Ratio};
use crate::tile::{DownloadItem, TileView};
use vstd::prelude::*;

verus! {

/// Where a download stands. It moves from `Ready` to `Downloading` to
/// `Finished`, or to `Finished` at once when anything fails, and never back.
#[derive(Debug)]
pub enum State {
    /// Nothing has been requested yet.
    Ready(DownloadId),
    /// The four transfers are under way: top-left, bottom-left, top-right,
    /// bottom-right.
    Downloading([DownloadItem; 4]),
    /// The download is over and reports nothing further.
    Finished,
}

/// The four tiles of a download as contracts see them.
pub open spec fn tiles_view(items: [DownloadItem; 4]) -> Seq<TileView> {
    Seq::new(4, |i: int| items[i]@)
}

/// A `State` with its tiles as contracts see them.
pub enum StateView {
    Ready(DownloadId),
    Downloading(Seq<TileView>),
    Finished,
}

impl View for State {
    type V = StateView;

    open spec fn view(&self) -> StateView {
        match self {
            State::Ready(id) => StateView::Ready(*id),
            State::Downloading(items) => StateView::Downloading(tiles_view(*items)),
            State::Finished => StateView::Finished,
        }
    }
}

/// What one tile's stream delivered.
#[derive(Debug)]
pub enum TileEvent {
    /// The next chunk of the body.
    Chunk(Vec<u8>),
    /// The body is complete.
    EndOfStream,
    /// The stream broke.
    Failed(DownloadError),
}

/// A `TileEvent` with its chunk as a sequence of bytes.
pub enum TileEventView {
    Chunk(Seq<u8>),
    EndOfStream,
    Failed(DownloadErrorView),
}

impl View for TileEvent {
    type V = TileEventView;

    open spec fn view(&self) -> TileEventView {
        match self {
            TileEvent::Chunk(chunk) => TileEventView::Chunk(chunk@),
            TileEvent::EndOfStream => TileEventView::EndOfStream,
            TileEvent::Failed(error) => TileEventView::Failed(error@),
        }
    }
}

/// What the network delivered since the coordinator was last asked.
#[derive(Debug)]
pub enum Event {
    /// The four requests were answered, each with the content length that
    /// its response declared, or one of them failed.
    Responses(Result<[Option<u64>; 4], DownloadError>),
    /// The tile at this position was the first to deliver something.
    Tile(usize, TileEvent),
    /// Nothing was waited for.
    Idle,
}

/// An `Event` as contracts see it.
pub enum EventView {
    Responses(Result<Seq<Option<u64>>, DownloadErrorView>),
    Tile(usize, TileEventView),
    Idle,
}

impl View for Event {
    type V = EventView;

    open spec fn view(&self) -> EventView {
        match self {
            Event::Responses(Ok(lengths)) => EventView::Responses(Ok(lengths@)),
            Event::Responses(Err(error)) => EventView::Responses(Err(error@)),
            Event::Tile(position, event) => EventView::Tile(*position, event@),
            Event::Idle => EventView::Idle,
        }
    }
}

/// What the coordinator has to wait for before it can take its next step.
#[derive(Debug, Clone, Copy, PartialEq, Eq)]
pub enum Wait {
    /// The answers to the four requests.
    Responses,
    /// The first delivery from any tile whose flag is set.
    Tile([bool; 4]),
    /// Nothing: the next step can be taken at once.
    Nothing,
    /// The download is over: there is no next step.
    Forever,
}

/// Every response declared a content length.
pub open spec fn all_declared(lengths: Seq<Option<u64>>) -> bool {
    forall|i: int| 0 <= i < 4 ==> (#[trigger] lengths[i]) is Some
}

/// The four tiles before their first byte.
pub open spec fn fresh_tiles(lengths: Seq<Option<u64>>) -> Seq<TileView> {
    Seq::new(4, |i: int| TileView::fresh(lengths[i]->0 as nat))
}

/// Every tile's stream has ended.
pub open spec fn all_finished(tiles: Seq<TileView>) -> bool {
    forall|i: int| 0 <= i < 4 ==> (#[trigger] tiles[i]).is_finished
}

/// The bytes received over all four tiles.
pub open spec fn sum_downloaded(tiles: Seq<TileView>) -> nat {
    tiles[0].downloaded() + tiles[1].downloaded() + tiles[2].downloaded() + tiles[3].downloaded()
}

/// The bytes declared over all four tiles.
pub open spec fn sum_total(tiles: Seq<TileView>) -> nat {
    tiles[0].total + tiles[1].total + tiles[2].total + tiles[3].total
}

/// The share of the declared bytes that has arrived.
pub open spec fn progress_of(tiles: Seq<TileView>) -> Ratio {
    Ratio::clamped(sum_downloaded(tiles), sum_total(tiles))
}

/// The four buffers, in the order of the tiles.
pub open spec fn buffers_of(tiles: Seq<TileView>) -> Seq<Seq<u8>> {
    Seq::new(4, |i: int| tiles[i].data)
}

/// The tiles after the one at `position` took in what its stream delivered.
pub open spec fn tiles_after(tiles: Seq<TileView>, position: int, event: TileEventView) -> Seq<
    TileView,
> {
    match event {
        TileEventView::Chunk(chunk) => tiles.update(position, tiles[position].extended(chunk)),
        TileEventView::EndOfStream => tiles.update(position, tiles[position].closed()),
        TileEventView::Failed(_) => tiles,
    }
}

/// The event is one that the state waits for: the answers to the requests
/// while nothing has been requested, a delivery from a tile whose stream is
/// still open while the transfers are under way, and nothing once every
/// stream has ended.
pub open spec fn accepts(state: StateView, event: EventView) -> bool {
    match (state, event) {
        (StateView::Ready(_), EventView::Responses(_)) => true,
        (StateView::Downloading(tiles), EventView::Tile(position, _)) => position < 4
            && !tiles[position as int].is_finished,
        (StateView::Downloading(tiles), EventView::Idle) => all_finished(tiles),
        _ => false,
    }
}

/// One step of the coordinator: what the consumer is told, if anything, and
/// the state that follows.
///
/// From `Ready`, the answers to the requests start the download, or fail it
/// where a request failed or a response declared no content length. While
/// downloading, a chunk is appended to its tile and an end of stream closes
/// it, and either reports the share that has arrived; a broken stream fails
/// the download whatever the other tiles hold. Once every stream has ended,
/// the next step hands out the four buffers. `Finished` tells nothing, and
/// an event that the state does not wait for is passed over.
pub open spec fn step(state: StateView, event: EventView) -> (Option<ProgressView>, StateView) {
    if !accepts(state, event) {
        (None, state)
    } else {
        match (state, event) {
            (StateView::Ready(_), EventView::Responses(Ok(lengths))) => if all_declared(lengths) {
                (Some(ProgressView::Started), StateView::Downloading(fresh_tiles(lengths)))
            } else {
                (
                    Some(ProgressView::Failed(DownloadErrorView::MissingContentLength)),
                    StateView::Finished,
                )
            },
            (StateView::Ready(_), EventView::Responses(Err(error))) => (
                Some(ProgressView::Failed(error)),
                StateView::Finished,
            ),
            (StateView::Downloading(tiles), EventView::Tile(_, TileEventView::Failed(error))) => (
                Some(ProgressView::Failed(error)),
                StateView::Finished,
            ),
            (StateView::Downloading(tiles), EventView::Tile(position, event)) => (
                Some(ProgressView::Advanced(progress_of(tiles_after(tiles, position as int, event)))),
                StateView::Downloading(tiles_after(tiles, position as int, event)),
            ),
            (StateView::Downloading(tiles), EventView::Idle) => (
                Some(ProgressView::Finished(buffers_of(tiles))),
                StateView::Finished,
            ),
            _ => (None, state),
        }
    }
}

/// Starts the four records from the content lengths that the responses
/// declared. A response without one fails the whole batch.
pub fn get_download_items(lengths: [Option<u64>; 4]) -> (items: Result<
    [DownloadItem; 4],
    DownloadError,
>)
    ensures
        match items {
            Ok(items) => all_declared(lengths@) && tiles_view(items) == fresh_tiles(lengths@),
            Err(error) => !all_declared(lengths@) && error@
                == DownloadErrorView::MissingContentLength,
        },
{
    match (lengths[0], lengths[1], lengths[2], lengths[3]) {
        (Some(top_left), Some(bottom_left), Some(top_right), Some(bottom_right)) => {
            let items = [
                DownloadItem::new(top_left),
                DownloadItem::new(bottom_left),
                DownloadItem::new(top_right),
                DownloadItem::new(bottom_right),
            ];
            assert(tiles_view(items) =~= fresh_tiles(lengths@));
            Ok(items)
        },
        _ => Err(DownloadError::MissingContentLength),
    }
}

/// The share of the declared bytes that has arrived, over all four tiles.
pub fn aggregate(items: &[DownloadItem; 4]) -> (fraction: Fraction)
    ensures
        fraction@ == progress_of(tiles_view(*items)),
{
    let downloaded: u128 = items[0].downloaded() as u128 + items[1].downloaded() as u128
        + items[2].downloaded() as u128 + items[3].downloaded() as u128;
    let total: u128 = items[0].total() as u128 + items[1].total() as u128 + items[2].total() as u128
        + items[3].total() as u128;
    Fraction::clamped(downloaded, total)
}

impl State {
    /// The state of a download that has not begun.
    pub fn new(id: DownloadId) -> (state: State)
        ensures
            state@ == StateView::Ready(id),
    {
        State::Ready(id)
    }

    /// What has to be waited for before the next step: the answers to the
    /// requests, a delivery from one of the tiles whose stream is still
    /// open, nothing, or, once the download is over, for ever.
    pub fn wait(&self) -> (wait: Wait)
        ensures
            match wait {
                Wait::Responses => self@ is Ready,
                Wait::Tile(open) => self@ matches StateView::Downloading(tiles) && !all_finished(
                    tiles,
                ) && forall|i: int| 0 <= i < 4 ==> open[i] == !(#[trigger] tiles[i]).is_finished,
                Wait::Nothing => self@ matches StateView::Downloading(tiles) && all_finished(tiles),
                Wait::Forever => self@ is Finished,
            },
    {
        match self {
            State::Ready(_) => Wait::Responses,
            State::Downloading(items) => {
                let open = [
                    !items[0].is_finished(),
                    !items[1].is_finished(),
                    !items[2].is_finished(),
                    !items[3].is_finished(),
                ];
                if open[0] || open[1] || open[2] || open[3] {
                    assert(!tiles_view(*items)[0].is_finished || !tiles_view(*items)[1].is_finished
                        || !tiles_view(*items)[2].is_finished || !tiles_view(
                        *items,
                    )[3].is_finished);
                    Wait::Tile(open)
                } else {
                    Wait::Nothing
                }
            },
            State::Finished => Wait::Forever,
        }
    }

    /// Whether the download is over.
    pub fn is_terminal(&self) -> (terminal: bool)
        ensures
            terminal == (self@ is Finished),
    {
        match self {
            State::Finished => true,
            _ => false,
        }
    }
}

/// Takes the four buffers out of the records, in the order of the tiles.
fn collect(items: [DownloadItem; 4]) -> (buffers: [Vec<u8>; 4])
    ensures
        Seq::new(4, |i: int| buffers[i]@) == buffers_of(tiles_view(items)),
{
    let ghost tiles = tiles_view(items);
    let mut items = items;
    let mut top_left = DownloadItem::new(0);
    let mut bottom_left = DownloadItem::new(0);
    let mut top_right = DownloadItem::new(0);
    let mut bottom_right = DownloadItem::new(0);
    core::mem::swap(&mut items[0], &mut top_left);
    core::mem::swap(&mut items[1], &mut bottom_left);
    core::mem::swap(&mut items[2], &mut top_right);
    core::mem::swap(&mut items[3], &mut bottom_right);
    let buffers = [
        top_left.into_data(),
        bottom_left.into_data(),
        top_right.into_data(),
        bottom_right.into_data(),
    ];
    assert(Seq::new(4, |i: int| buffers[i]@) =~= buffers_of(tiles));
    buffers
}

/// Takes one step of the download named `timestamp`: from the state and
/// what the network delivered to what the consumer is told, tagged with
/// `timestamp`, and the state that follows.
///
/// Nothing is told once the download is over, or where the event is not one
/// that the state waits for; the state then stays as it is.
pub fn download(timestamp: DownloadId, state: State, event: Event) -> (out: (
    Option<(DownloadId, Progress)>,
    State,
))
    ensures
        out.1@ == step(state@, event@).1,
        match out.0 {
            Some((id, progress)) => id == timestamp && step(state@, event@).0 == Some(progress@),
            None => step(state@, event@).0 is None,
        },
{
    match state {
        State::Ready(id) => match event {
            Event::Responses(Ok(lengths)) => match get_download_items(lengths) {
                Ok(items) => (Some((timestamp, Progress::Started)), State::Downloading(items)),
                Err(error) => (Some((timestamp, Progress::Failed(error))), State::Finished),
            },
            Event::Responses(Err(error)) => (
                Some((timestamp, Progress::Failed(error))),
                State::Finished,
            ),
            _ => (None, State::Ready(id)),
        },
        State::Downloading(items) => match event {
            Event::Tile(position, delivered) => {
                if position >= 4 || items[position].is_finished() {
                    (None, State::Downloading(items))
                } else {
                    let ghost before = tiles_view(items);
                    let mut items = items;
                    match delivered {
                        TileEvent::Chunk(chunk) => {
                            items[position].push_chunk(chunk);
                        },
                        TileEvent::EndOfStream => {
                            items[position].finish();
                        },
                        TileEvent::Failed(error) => {
                            return (Some((timestamp, Progress::Failed(error))), State::Finished);
                        },
                    }
                    assert(tiles_view(items) =~= tiles_after(before, position as int, delivered@));
                    let fraction = aggregate(&items);
                    (Some((timestamp, Progress::Advanced(fraction))), State::Downloading(items))
                }
            },
            Event::Idle => {
                if items[0].is_finished() && items[1].is_finished() && items[2].is_finished()
                    && items[3].is_finished() {
                    let buffers = collect(items);
                    (Some((timestamp, Progress::Finished(buffers))), State::Finished)
                } else {
                    assert(!tiles_view(items)[0].is_finished || !tiles_view(items)[1].is_finished
                        || !tiles_view(items)[2].is_finished || !tiles_view(items)[3].is_finished);
                    (None, State::Downloading(items))
                }
            },
            _ => (None, State::Downloading(items)),
        },
        State::Finished => (None, State::Finished),
    }
}

} // verus!
