//! From what a status query returned to the outcome that the tracker takes.

use crate::names::Name;
use crate::roster::{names_of, PlayerSet};
use crate::tracker::{OutcomeView, ProbeOutcome};
use vstd::prelude::*;

verus! {

/// What an answered status query told of the players.
#[derive(Debug, Clone, PartialEq, Eq)]
pub enum ServerReport {
    /// A Java edition server. `sample` holds the names of the online
    /// players that the server chose to list, if it listed any.
    Java { sample: Option<Vec<String>> },
    /// A Bedrock edition server, which lists no players.
    Bedrock,
}

/// The players that a report names: those of the sample of a Java edition
/// server, each once; nobody where there is no sample.
pub open spec fn reported_players(report: ServerReport) -> Set<Name> {
    match report {
        ServerReport::Java { sample: Some(players) } => names_of(players@).to_set(),
        ServerReport::Java { sample: None } => Set::empty(),
        ServerReport::Bedrock => Set::empty(),
    }
}

/// The outcome that the result of a status query stands for: a report is a
/// success with the players it names, even if it names none; an error is a
/// failure, and its text is the reason.
pub open spec fn outcome_for(result: Result<ServerReport, String>) -> OutcomeView {
    match result {
        Ok(report) => OutcomeView::Success(reported_players(report)),
        Err(reason) => OutcomeView::Failure(reason@),
    }
}

/// Builds the roster of the players that `report` names.
pub fn roster_of(report: ServerReport) -> (roster: PlayerSet)
    ensures
        roster@ == reported_players(report),
{
    match report {
        ServerReport::Java { sample: Some(players) } => PlayerSet::from_names(players),
        ServerReport::Java { sample: None } => PlayerSet::new(),
        ServerReport::Bedrock => PlayerSet::new(),
    }
}

/// Builds the outcome that the result of a status query stands for.
pub fn outcome_of(result: Result<ServerReport, String>) -> (outcome: ProbeOutcome)
    ensures
        outcome@ == outcome_for(result),
{
    match result {
        Ok(report) => ProbeOutcome::Success(roster_of(report)),
        Err(reason) => ProbeOutcome::Failure(reason),
    }
}

} // verus!
