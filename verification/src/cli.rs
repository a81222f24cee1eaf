//! The command line: what each invocation asks for, and how an invocation
//! is turned into the action to run.

use vstd::prelude::*;

use crate::error::WitError;
use crate::query::{arg_views, parse_query, query_args_ok, query_of, Query, QueryView};

verus! {

/// A `wit` invocation: a subcommand, or a shorthand query.
#[derive(Debug)]
pub struct Cli {
    pub command: Option<Command>,
    /// Quick weather query: wit tokyo, wit tokyo 7d, wit tokyo..boston
    pub query: Vec<String>,
}

/// The subcommands of `wit`.
#[derive(Debug)]
#[allow(inconsistent_fields)]
pub enum Command {
    /// Initialize a new wit repo
    Init { path: Option<String> },
    /// Track a new location
    Add { location: String },
    /// Fetch weather for all tracked locations and commit
    Snap,
    /// Alias for snap
    Fetch,
    /// Show weather history
    Log { location: Option<String>, n: usize },
    /// Dashboard of current conditions
    Status { location: Option<String> },
    /// List tracked locations
    Locations,
    /// Compare weather snapshots
    Diff { args: Vec<String> },
    /// Backfill historical weather data for a tracked location
    Backfill { location: String, since: String },
    /// ASCII chart of weather metrics over time
    Chart { metric: Option<String>, location: Vec<String>, range: String },
}

/// What an invocation asks the program to do.
#[derive(Debug)]
pub enum Action {
    /// Run a subcommand.
    Run(Command),
    /// Answer a shorthand query with these arguments.
    Query(Vec<String>),
    /// `wit diff` was given a query that compares nothing.
    NeedsComparison,
    /// Show the getting-started help.
    Help,
}

/// Decides what an invocation does. `initialized` says whether the journal
/// exists. `wit diff` checks its query first: errors come back as errors,
/// and a query that compares nothing asks for a comparison. No subcommand
/// and no query shows the dashboard when the journal exists, else help.
pub fn dispatch(cli: Cli, initialized: bool) -> (r: Result<Action, WitError>)
    requires
        cli.command matches Some(Command::Diff { args }) ==> query_args_ok(arg_views(args@)),
    ensures
        match cli.command {
            Some(Command::Diff { args }) => match query_of(arg_views(args@)) {
                Err(e) => r matches Err(re) && re@ == e,
                Ok(QueryView::Current { .. }) => r matches Ok(Action::NeedsComparison),
                Ok(_) => r matches Ok(Action::Query(a)) && a == args,
            },
            Some(c) => r == Ok::<Action, WitError>(Action::Run(c)),
            None => if cli.query@.len() > 0 {
                r matches Ok(Action::Query(a)) && a == cli.query
            } else if initialized {
                r matches Ok(Action::Run(Command::Status { location: None }))
            } else {
                r matches Ok(Action::Help)
            },
        },
{
    match cli.command {
        Some(Command::Diff { args }) => match parse_query(args.as_slice()) {
            Err(e) => Err(e),
            Ok(Query::Current { .. }) => Ok(Action::NeedsComparison),
            Ok(_) => Ok(Action::Query(args)),
        },
        Some(c) => Ok(Action::Run(c)),
        None => {
            if cli.query.len() > 0 {
                Ok(Action::Query(cli.query))
            } else if initialized {
                Ok(Action::Run(Command::Status { location: None }))
            } else {
                Ok(Action::Help)
            }
        },
    }
}

} // verus!
