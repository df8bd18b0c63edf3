//! Fetching of torrents whose IDs arrive, one after the other.

use vstd::prelude::*;

use crate::types::{TorrentId, TorrentInfo};

verus! {

/// What the fetcher is doing.
#[derive(Debug, Clone, Copy, PartialEq, Eq, Structural)]
pub enum FetcherState {
    /// It waits for an ID.
    Waiting,
    /// It waits for the torrent with this ID.
    Fetching(TorrentId),
    /// It waits for the torrent to be taken.
    Delivering,
    /// It has stopped.
    Stopped,
}

/// What happens to the fetcher.
#[derive(Debug)]
pub enum FetcherEvent {
    /// The program is told to stop.
    Cancelled,
    /// No more IDs will arrive.
    Closed,
    /// An ID has arrived.
    Received(TorrentId),
    /// The torrent was fetched.
    Fetched(TorrentInfo),
    /// The torrent could not be fetched.
    FetchFailed,
    /// The torrent was taken.
    Delivered,
    /// Nobody takes torrents any more.
    ReceiverGone,
}

/// What the fetcher does.
#[derive(Debug)]
pub enum FetcherAction {
    /// Wait for the next ID.
    Wait,
    /// Fetch the torrent with this ID.
    Fetch(TorrentId),
    /// Hand the torrent on.
    Deliver(TorrentInfo),
    /// Count and report that the torrent with this ID could not be fetched, and
    /// wait for the next ID.
    ReportAndWait(TorrentId),
    /// Stop.
    Stop,
}

/// Whether an event can happen in a state: only what the fetcher waits for.
pub open spec fn expects(state: FetcherState, event: FetcherEvent) -> bool {
    match state {
        FetcherState::Waiting => event is Cancelled || event is Closed || event is Received,
        FetcherState::Fetching(_) => event is Fetched || event is FetchFailed,
        FetcherState::Delivering => event is Delivered || event is ReceiverGone,
        FetcherState::Stopped => false,
    }
}

/// Whether an event can happen in a state: only what the fetcher waits for.
pub fn is_expected(state: FetcherState, event: &FetcherEvent) -> (r: bool)
    ensures
        r == expects(state, *event),
{
    match (state, event) {
        (FetcherState::Waiting, FetcherEvent::Cancelled) => true,
        (FetcherState::Waiting, FetcherEvent::Closed) => true,
        (FetcherState::Waiting, FetcherEvent::Received(_)) => true,
        (FetcherState::Fetching(_), FetcherEvent::Fetched(_)) => true,
        (FetcherState::Fetching(_), FetcherEvent::FetchFailed) => true,
        (FetcherState::Delivering, FetcherEvent::Delivered) => true,
        (FetcherState::Delivering, FetcherEvent::ReceiverGone) => true,
        _ => false,
    }
}

/// The next state and what is done, after an event that is expected.
pub open spec fn next(state: FetcherState, event: FetcherEvent) -> (FetcherState, FetcherAction) {
    match (state, event) {
        (_, FetcherEvent::Received(id)) => (FetcherState::Fetching(id), FetcherAction::Fetch(id)),
        (_, FetcherEvent::Fetched(info)) => (
            FetcherState::Delivering,
            FetcherAction::Deliver(info),
        ),
        (FetcherState::Fetching(id), FetcherEvent::FetchFailed) => (
            FetcherState::Waiting,
            FetcherAction::ReportAndWait(id),
        ),
        (_, FetcherEvent::Delivered) => (FetcherState::Waiting, FetcherAction::Wait),
        _ => (FetcherState::Stopped, FetcherAction::Stop),
    }
}

/// What the fetcher does next. It fetches one torrent at a time, and waits until
/// that is taken before it turns to the next; a torrent that cannot be fetched is
/// no reason to stop.
pub fn run(state: &mut FetcherState, event: FetcherEvent) -> (r: FetcherAction)
    requires
        expects(*old(state), event),
    ensures
        (*final(state), r) == next(*old(state), event),
{
    match event {
        FetcherEvent::Received(id) => {
            *state = FetcherState::Fetching(id);
            FetcherAction::Fetch(id)
        },
        FetcherEvent::Fetched(info) => {
            *state = FetcherState::Delivering;
            FetcherAction::Deliver(info)
        },
        FetcherEvent::Delivered => {
            *state = FetcherState::Waiting;
            FetcherAction::Wait
        },
        FetcherEvent::FetchFailed => {
            match *state {
                FetcherState::Fetching(id) => {
                    *state = FetcherState::Waiting;
                    FetcherAction::ReportAndWait(id)
                },
                _ => {
                    *state = FetcherState::Stopped;
                    FetcherAction::Stop
                },
            }
        },
        FetcherEvent::Cancelled | FetcherEvent::Closed | FetcherEvent::ReceiverGone => {
            *state = FetcherState::Stopped;
            FetcherAction::Stop
        },
    }
}

/// The event by which a fetch ends.
pub open spec fn reply(fetched: Option<TorrentInfo>) -> FetcherEvent {
    match fetched {
        Some(info) => FetcherEvent::Fetched(info),
        None => FetcherEvent::FetchFailed,
    }
}

/// The state after an ID arrived, the fetch ended and the torrent was taken, and
/// the torrent that was handed on.
pub open spec fn after_id(state: FetcherState, id: TorrentId, fetched: Option<TorrentInfo>) -> (
    FetcherState,
    Option<TorrentInfo>,
) {
    let asked = next(state, FetcherEvent::Received(id));
    let answered = next(asked.0, reply(fetched));
    match answered.1 {
        FetcherAction::Deliver(info) => (
            next(answered.0, FetcherEvent::Delivered).0,
            Some(info),
        ),
        _ => (answered.0, None),
    }
}

/// The state after some IDs arrived, and the torrents that were handed on.
pub open spec fn after_ids(ids: Seq<(TorrentId, Option<TorrentInfo>)>) -> (
    FetcherState,
    Seq<TorrentInfo>,
)
    decreases ids.len(),
{
    if ids.len() == 0 {
        (FetcherState::Waiting, Seq::<TorrentInfo>::empty())
    } else {
        let (state, delivered) = after_ids(ids.drop_last());
        match after_id(state, ids.last().0, ids.last().1) {
            (state, Some(info)) => (state, delivered.push(info)),
            (state, None) => (state, delivered),
        }
    }
}

/// Torrents are handed on in the order in which their IDs arrived, each one that
/// could be fetched exactly once; after each, the fetcher waits for the next ID.
pub proof fn torrents_are_delivered_in_order(ids: Seq<(TorrentId, Option<TorrentInfo>)>)
    ensures
        after_ids(ids).0 == FetcherState::Waiting,
        after_ids(ids).1 == ids.filter(
            |i: (TorrentId, Option<TorrentInfo>)| i.1 is Some,
        ).map_values(|i: (TorrentId, Option<TorrentInfo>)| i.1->0),
    decreases ids.len(),
{
    let some = |i: (TorrentId, Option<TorrentInfo>)| i.1 is Some;
    let info = |i: (TorrentId, Option<TorrentInfo>)| i.1->0;
    reveal(Seq::filter);
    if ids.len() > 0 {
        torrents_are_delivered_in_order(ids.drop_last());
        let front = ids.drop_last().filter(some);
        if some(ids.last()) {
            assert(front.push(ids.last()).map_values(info) =~= front.map_values(info).push(
                info(ids.last()),
            ));
        }
    } else {
        assert(ids.filter(some).map_values(info) =~= Seq::<TorrentInfo>::empty());
    }
}

/// The request that is made is for the ID that arrived, and a report names it.
pub proof fn failure_is_reported_for_its_id(id: TorrentId)
    ensures
        next(FetcherState::Waiting, FetcherEvent::Received(id)).1 == FetcherAction::Fetch(id),
        next(
            next(FetcherState::Waiting, FetcherEvent::Received(id)).0,
            FetcherEvent::FetchFailed,
        ) == (FetcherState::Waiting, FetcherAction::ReportAndWait(id)),
{
}

/// The fetcher stops exactly if it is told to, if no more IDs arrive, or if nobody takes
/// torrents; every torrent that was fetched is handed on, and only one ID is worked on at
/// a time.
pub proof fn fetcher_stops_only_when_it_must(state: FetcherState, event: FetcherEvent)
    requires
        match state {
            FetcherState::Waiting => event is Cancelled || event is Closed || event is Received,
            FetcherState::Fetching(_) => event is Fetched || event is FetchFailed,
            FetcherState::Delivering => event is Delivered || event is ReceiverGone,
            FetcherState::Stopped => false,
        },
    ensures
        expects(state, event),
        ({
            let (after, action) = next(state, event);
            &&& action is Stop <==> event is Cancelled || event is Closed || event is ReceiverGone
            &&& after is Stopped <==> action is Stop
            &&& event matches FetcherEvent::Received(id) ==> action == FetcherAction::Fetch(id)
                && after == FetcherState::Fetching(id)
            &&& event matches FetcherEvent::Fetched(info) ==> action == FetcherAction::Deliver(
                info,
            ) && after is Delivering
            &&& event is Delivered ==> action is Wait && after is Waiting
            &&& event is FetchFailed ==> after is Waiting && (
            state matches FetcherState::Fetching(id) && action == FetcherAction::ReportAndWait(id))
        }),
{
}

} // verus!
