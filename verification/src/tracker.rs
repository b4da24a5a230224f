//! The tracker: what is known of the server after each probe, and which
//! changes are worth an alert.
//!
//! `step` takes the outcome of one probe and the state left by the probes
//! before it, and gives the alerts to send and the state to keep. It reads
//! nothing else and changes nothing: what it returns is fixed by `emitted`
//! and `next_state`, two functions of the outcome and the state.

use crate::names::{
    lemma_ascending_no_duplicates, lemma_listing_exists, lemma_lists_is_listing, listing, lists,
    Name,
};
use crate::roster::{names_of, PlayerSet};
use vstd::prelude::*;

verus! {

/// Whether the server answered the last probe. `Unknown` until the first
/// probe of a run has been made.
#[derive(Clone, Copy, Debug, PartialEq, Eq, Structural)]
pub enum AvailabilityState {
    Unknown,
    Up,
    Down,
}

/// What the tracker keeps between two probes.
#[derive(Debug, Clone, PartialEq, Eq)]
pub struct TrackerState {
    /// The roster of the last probe, if that probe was answered.
    pub last_roster: Option<PlayerSet>,
    /// Whether the last probe was answered.
    pub availability: AvailabilityState,
}

/// The result of one probe.
#[derive(Debug, Clone, PartialEq, Eq)]
pub enum ProbeOutcome {
    /// The server answered, with these players online.
    Success(PlayerSet),
    /// The server did not answer; the text says why.
    Failure(String),
}

/// A change that is reported.
#[derive(Debug, Clone, PartialEq, Eq)]
pub enum AlertEvent {
    PlayerJoined(String),
    PlayerLeft(String),
    ServerDown,
    ServerUp,
}

/// A tracker state in specifications.
pub struct TrackerView {
    pub last_roster: Option<Set<Name>>,
    pub availability: AvailabilityState,
}

/// A probe outcome in specifications.
pub enum OutcomeView {
    Success(Set<Name>),
    Failure(Seq<char>),
}

/// An alert event in specifications.
pub enum EventView {
    PlayerJoined(Name),
    PlayerLeft(Name),
    ServerDown,
    ServerUp,
}

impl View for TrackerState {
    type V = TrackerView;

    open spec fn view(&self) -> TrackerView {
        TrackerView {
            last_roster: match self.last_roster {
                Some(roster) => Some(roster@),
                None => None,
            },
            availability: self.availability,
        }
    }
}

impl View for ProbeOutcome {
    type V = OutcomeView;

    open spec fn view(&self) -> OutcomeView {
        match self {
            ProbeOutcome::Success(roster) => OutcomeView::Success(roster@),
            ProbeOutcome::Failure(reason) => OutcomeView::Failure(reason@),
        }
    }
}

impl View for AlertEvent {
    type V = EventView;

    open spec fn view(&self) -> EventView {
        match self {
            AlertEvent::PlayerJoined(name) => EventView::PlayerJoined(name@),
            AlertEvent::PlayerLeft(name) => EventView::PlayerLeft(name@),
            AlertEvent::ServerDown => EventView::ServerDown,
            AlertEvent::ServerUp => EventView::ServerUp,
        }
    }
}

/// The events that a sequence of alerts holds, position by position.
pub open spec fn events_of(alerts: Seq<AlertEvent>) -> Seq<EventView> {
    Seq::new(alerts.len(), |i: int| alerts[i]@)
}

/// One `PlayerJoined` for each name, in the order of the names.
pub open spec fn joins(names: Seq<Name>) -> Seq<EventView> {
    Seq::new(names.len(), |i: int| EventView::PlayerJoined(names[i]))
}

/// One `PlayerLeft` for each name, in the order of the names.
pub open spec fn leaves(names: Seq<Name>) -> Seq<EventView> {
    Seq::new(names.len(), |i: int| EventView::PlayerLeft(names[i]))
}

/// The player events of an answered probe: none when there is no roster to
/// hold the new one against; else the players that are new, in ascending
/// order, and then those that are gone, in ascending order.
pub open spec fn roster_events(last: Option<Set<Name>>, now: Set<Name>) -> Seq<EventView> {
    match last {
        None => Seq::empty(),
        Some(before) => joins(listing(now.difference(before))) + leaves(
            listing(before.difference(now)),
        ),
    }
}

/// The events of one step. An answered probe reports `ServerUp` if the
/// server was down, and then the player events. An unanswered probe reports
/// `ServerDown` if the server was up, and nothing else.
pub open spec fn emitted(outcome: OutcomeView, state: TrackerView) -> Seq<EventView> {
    match outcome {
        OutcomeView::Success(roster) => {
            let recovery = if state.availability == AvailabilityState::Down {
                seq![EventView::ServerUp]
            } else {
                Seq::empty()
            };
            recovery + roster_events(state.last_roster, roster)
        },
        OutcomeView::Failure(_) => {
            if state.availability == AvailabilityState::Up {
                seq![EventView::ServerDown]
            } else {
                Seq::empty()
            }
        },
    }
}

/// The state after one step. An answered probe leaves its roster and `Up`.
/// An unanswered probe leaves `Down` and no roster, so that the next
/// answered probe starts afresh.
pub open spec fn next_state(outcome: OutcomeView, state: TrackerView) -> TrackerView {
    match outcome {
        OutcomeView::Success(roster) => TrackerView {
            last_roster: Some(roster),
            availability: AvailabilityState::Up,
        },
        OutcomeView::Failure(_) => TrackerView {
            last_roster: None,
            availability: AvailabilityState::Down,
        },
    }
}

impl TrackerState {
    /// The state at the start of a run: nothing is known.
    pub fn new() -> (state: TrackerState)
        ensures
            state@ == (TrackerView { last_roster: None, availability: AvailabilityState::Unknown }),
    {
        TrackerState { last_roster: None, availability: AvailabilityState::Unknown }
    }
}

/// Appends one `PlayerJoined` for each of `names`.
fn push_joins(events: &mut Vec<AlertEvent>, names: &Vec<String>)
    ensures
        events_of(final(events)@) == events_of(old(events)@) + joins(names_of(names@)),
{
    let ghost had = events_of(events@);
    let mut i: usize = 0;
    while i < names.len()
        invariant
            0 <= i <= names.len(),
            events_of(events@) == had + joins(names_of(names@.take(i as int))),
        decreases names.len() - i,
    {
        let ghost so_far = events_of(events@);
        events.push(AlertEvent::PlayerJoined(names[i].clone()));
        assert(events_of(events@) =~= so_far.push(EventView::PlayerJoined(names@[i as int]@)));
        assert(events_of(events@) =~= had + joins(names_of(names@.take(i + 1))));
        i = i + 1;
    }
    assert(names@.take(i as int) =~= names@);
}

/// Appends one `PlayerLeft` for each of `names`.
fn push_leaves(events: &mut Vec<AlertEvent>, names: &Vec<String>)
    ensures
        events_of(final(events)@) == events_of(old(events)@) + leaves(names_of(names@)),
{
    let ghost had = events_of(events@);
    let mut i: usize = 0;
    while i < names.len()
        invariant
            0 <= i <= names.len(),
            events_of(events@) == had + leaves(names_of(names@.take(i as int))),
        decreases names.len() - i,
    {
        let ghost so_far = events_of(events@);
        events.push(AlertEvent::PlayerLeft(names[i].clone()));
        assert(events_of(events@) =~= so_far.push(EventView::PlayerLeft(names@[i as int]@)));
        assert(events_of(events@) =~= had + leaves(names_of(names@.take(i + 1))));
        i = i + 1;
    }
    assert(names@.take(i as int) =~= names@);
}

/// Takes the outcome of one probe and the state before it; gives the alerts
/// to send, in the order in which to send them, and the state after it.
pub fn step(outcome: ProbeOutcome, state: TrackerState) -> (result: (Vec<AlertEvent>, TrackerState))
    ensures
        events_of(result.0@) == emitted(outcome@, state@),
        result.1@ == next_state(outcome@, state@),
{
    let mut events: Vec<AlertEvent> = Vec::new();
    assert(events_of(events@) =~= Seq::<EventView>::empty());
    match outcome {
        ProbeOutcome::Success(roster) => {
            if state.availability == AvailabilityState::Down {
                events.push(AlertEvent::ServerUp);
                assert(events_of(events@) =~= seq![EventView::ServerUp]);
            }
            match state.last_roster {
                Some(before) => {
                    let arrived = roster.difference(&before);
                    let gone = before.difference(&roster);
                    push_joins(&mut events, &arrived);
                    push_leaves(&mut events, &gone);
                    assert(events_of(events@) =~= emitted(outcome@, state@));
                },
                None => {
                    assert(events_of(events@) =~= emitted(outcome@, state@));
                },
            }
            (events, TrackerState { last_roster: Some(roster), availability: AvailabilityState::Up })
        },
        ProbeOutcome::Failure(_) => {
            if state.availability == AvailabilityState::Up {
                events.push(AlertEvent::ServerDown);
                assert(events_of(events@) =~= seq![EventView::ServerDown]);
            }
            (events, TrackerState { last_roster: None, availability: AvailabilityState::Down })
        },
    }
}

/// Whether a state holds a roster exactly when the server is up. The state
/// at the start of a run is such a state, and so is every state that a
/// step leaves.
pub open spec fn settled(state: TrackerView) -> bool {
    state.last_roster is Some <==> state.availability == AvailabilityState::Up
}

/// Whatever the state before it, a step leaves a settled state: after an
/// answered probe the server is up and its roster is kept, after an
/// unanswered probe the server is down and no roster is kept.
pub proof fn lemma_step_settles(outcome: OutcomeView, state: TrackerView)
    ensures
        settled(next_state(outcome, state)),
        outcome is Failure ==> next_state(outcome, state).last_roster is None,
{
}

/// The empty set is listed by the empty sequence.
proof fn lemma_listing_of_nobody()
    ensures
        listing(Set::<Name>::empty()) == Seq::<Name>::empty(),
{
    let nobody = Seq::<Name>::empty();
    assert(lists(nobody, Set::<Name>::empty()));
    lemma_lists_is_listing(nobody, Set::<Name>::empty());
}

/// Two answered probes in a row with the same roster: the second step
/// reports nothing at all, whatever the state before the first.
pub proof fn lemma_same_roster_is_silent(state: TrackerView, roster: Set<Name>)
    ensures
        emitted(OutcomeView::Success(roster), next_state(OutcomeView::Success(roster), state))
            == Seq::<EventView>::empty(),
{
    lemma_listing_of_nobody();
    assert(roster.difference(roster) =~= Set::<Name>::empty());
    assert(emitted(OutcomeView::Success(roster), next_state(OutcomeView::Success(roster), state))
        =~= Seq::<EventView>::empty());
}

/// Two answered probes in a row, the first with roster `before` and the
/// second with roster `now`: the second step reports `PlayerJoined` for
/// exactly the players of `now` that are not in `before`, `PlayerLeft` for
/// exactly the players of `before` that are not in `now`, nothing on the
/// server, no event twice, and no player as both joined and left.
pub proof fn lemma_roster_change_is_reported(
    state: TrackerView,
    before: Set<Name>,
    now: Set<Name>,
)
    requires
        before.finite(),
        now.finite(),
    ensures
        ({
            let events = emitted(
                OutcomeView::Success(now),
                next_state(OutcomeView::Success(before), state),
            );
            &&& forall|n: Name| #[trigger]
                events.contains(EventView::PlayerJoined(n)) <==> now.contains(n)
                    && !before.contains(n)
            &&& forall|n: Name| #[trigger]
                events.contains(EventView::PlayerLeft(n)) <==> before.contains(n) && !now.contains(
                    n,
                )
            &&& !events.contains(EventView::ServerUp)
            &&& !events.contains(EventView::ServerDown)
            &&& events.no_duplicates()
            &&& forall|n: Name|
                !(events.contains(EventView::PlayerJoined(n)) && events.contains(
                    EventView::PlayerLeft(n),
                ))
        }),
{
    let events = emitted(
        OutcomeView::Success(now),
        next_state(OutcomeView::Success(before), state),
    );
    let arrived = listing(now.difference(before));
    let gone = listing(before.difference(now));
    lemma_listing_exists(now.difference(before));
    lemma_listing_exists(before.difference(now));
    lemma_ascending_no_duplicates(arrived);
    lemma_ascending_no_duplicates(gone);
    assert(events =~= joins(arrived) + leaves(gone));
    assert forall|i: int| 0 <= i < events.len() implies #[trigger] events[i] == (if i
        < arrived.len() {
        EventView::PlayerJoined(arrived[i])
    } else {
        EventView::PlayerLeft(gone[i - arrived.len()])
    }) by {}
    assert forall|n: Name| #[trigger]
        events.contains(EventView::PlayerJoined(n)) <==> now.contains(n) && !before.contains(
            n,
        ) by {
        if events.contains(EventView::PlayerJoined(n)) {
            let i = choose|i: int| 0 <= i < events.len() && events[i] == EventView::PlayerJoined(n);
            assert(arrived[i] == n);
            assert(arrived.contains(n));
        }
        if now.contains(n) && !before.contains(n) {
            assert(arrived.contains(n));
            let i = choose|i: int| 0 <= i < arrived.len() && arrived[i] == n;
            assert(events[i] == EventView::PlayerJoined(n));
        }
    }
    assert forall|n: Name| #[trigger]
        events.contains(EventView::PlayerLeft(n)) <==> before.contains(n) && !now.contains(
            n,
        ) by {
        if events.contains(EventView::PlayerLeft(n)) {
            let i = choose|i: int| 0 <= i < events.len() && events[i] == EventView::PlayerLeft(n);
            assert(gone[i - arrived.len()] == n);
            assert(gone.contains(n));
        }
        if before.contains(n) && !now.contains(n) {
            assert(gone.contains(n));
            let i = choose|i: int| 0 <= i < gone.len() && gone[i] == n;
            assert(events[arrived.len() + i] == EventView::PlayerLeft(n));
        }
    }
    assert(!events.contains(EventView::ServerUp));
    assert(!events.contains(EventView::ServerDown));
    assert forall|i: int, j: int|
        0 <= i < events.len() && 0 <= j < events.len() && i != j implies events[i]
        != events[j] by {
        if i < arrived.len() && j < arrived.len() {
            assert(arrived[i] != arrived[j]);
        } else if i >= arrived.len() && j >= arrived.len() {
            assert(gone[i - arrived.len()] != gone[j - arrived.len()]);
        }
    }
}

/// Two unanswered probes in a row: the first step reports `ServerDown` if
/// the server was up and nothing otherwise, the second step reports nothing.
pub proof fn lemma_down_is_reported_once(state: TrackerView, first: Seq<char>, second: Seq<char>)
    ensures
        emitted(OutcomeView::Failure(first), state) == (if state.availability
            == AvailabilityState::Up {
            seq![EventView::ServerDown]
        } else {
            Seq::<EventView>::empty()
        }),
        emitted(OutcomeView::Failure(second), next_state(OutcomeView::Failure(first), state))
            == Seq::<EventView>::empty(),
{
}

/// An unanswered probe and then an answered one: the second step reports
/// `ServerUp` and nothing else, whoever is on the new roster and whoever
/// was on the roster before the server went down.
pub proof fn lemma_recovery_starts_afresh(state: TrackerView, reason: Seq<char>, roster: Set<Name>)
    ensures
        emitted(OutcomeView::Success(roster), next_state(OutcomeView::Failure(reason), state))
            == seq![EventView::ServerUp],
{
    assert(emitted(OutcomeView::Success(roster), next_state(OutcomeView::Failure(reason), state))
        =~= seq![EventView::ServerUp]);
}

/// A step depends on nothing but the outcome and the state it is given:
/// two runs of `step` on outcomes and states that hold the same values
/// give the same events in the same order and leave the same state.
pub proof fn lemma_step_repeats(
    outcome: ProbeOutcome,
    state: TrackerState,
    again_outcome: ProbeOutcome,
    again_state: TrackerState,
    first: (Vec<AlertEvent>, TrackerState),
    second: (Vec<AlertEvent>, TrackerState),
)
    requires
        outcome@ == again_outcome@,
        state@ == again_state@,
        events_of(first.0@) == emitted(outcome@, state@),
        first.1@ == next_state(outcome@, state@),
        events_of(second.0@) == emitted(again_outcome@, again_state@),
        second.1@ == next_state(again_outcome@, again_state@),
    ensures
        events_of(first.0@) == events_of(second.0@),
        first.1@ == second.1@,
{
}

} // verus!
