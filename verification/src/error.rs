//! The library's error type and the text each error is reported with.

use vstd::prelude::*;

verus! {

/// Everything that can go wrong in `wit`.
#[derive(Debug, PartialEq, Eq)]
pub enum WitError {
    NotInitialized,
    LocationNotFound(String),
    LocationExists(String),
    NoLocations,
    NoSnapshots,
    InvalidTime(String),
    AmbiguousLocation { name: String, options: String },
    Api(String),
    Git(String),
    Other(String),
}

/// The mathematical model of a `WitError`: the same variants over character sequences.
pub enum ErrorView {
    NotInitialized,
    LocationNotFound(Seq<char>),
    LocationExists(Seq<char>),
    NoLocations,
    NoSnapshots,
    InvalidTime(Seq<char>),
    AmbiguousLocation { name: Seq<char>, options: Seq<char> },
    Api(Seq<char>),
    Git(Seq<char>),
    Other(Seq<char>),
}

impl View for WitError {
    type V = ErrorView;

    open spec fn view(&self) -> ErrorView {
        match self {
            WitError::NotInitialized => ErrorView::NotInitialized,
            WitError::LocationNotFound(s) => ErrorView::LocationNotFound(s@),
            WitError::LocationExists(s) => ErrorView::LocationExists(s@),
            WitError::NoLocations => ErrorView::NoLocations,
            WitError::NoSnapshots => ErrorView::NoSnapshots,
            WitError::InvalidTime(s) => ErrorView::InvalidTime(s@),
            WitError::AmbiguousLocation { name, options } => ErrorView::AmbiguousLocation {
                name: name@,
                options: options@,
            },
            WitError::Api(s) => ErrorView::Api(s@),
            WitError::Git(s) => ErrorView::Git(s@),
            WitError::Other(s) => ErrorView::Other(s@),
        }
    }
}

/// The text a user is shown for an error.
pub open spec fn error_text(e: ErrorView) -> Seq<char> {
    match e {
        ErrorView::NotInitialized => "wit repo not initialized — run `wit init` first"@,
        ErrorView::LocationNotFound(s) => "location '"@ + s
            + "' not found — check spelling or try a nearby city"@,
        ErrorView::LocationExists(s) => "location '"@ + s + "' is already tracked"@,
        ErrorView::NoLocations => "no tracked locations — run `wit add <city>` first"@,
        ErrorView::NoSnapshots => "no snapshots yet — run `wit snap` first"@,
        ErrorView::InvalidTime(s) => "could not resolve time '"@ + s
            + "' — try formats like 7d, 2w, 3m, 1y, yesterday"@,
        ErrorView::AmbiguousLocation { name, options } => "ambiguous location '"@ + name
            + "' — did you mean one of these?\n"@ + options,
        ErrorView::Api(s) => "API error: "@ + s,
        ErrorView::Git(s) => "git error: "@ + s,
        ErrorView::Other(s) => s,
    }
}

impl WitError {
    /// The text a user is shown for this error.
    pub fn message(&self) -> (r: String)
        ensures
            r@ == error_text(self@),
    {
        match self {
            WitError::NotInitialized => String::from_str(
                "wit repo not initialized — run `wit init` first",
            ),
            WitError::LocationNotFound(s) => {
                let mut r = String::from_str("location '");
                r.append(s.as_str());
                r.append("' not found — check spelling or try a nearby city");
                r
            },
            WitError::LocationExists(s) => {
                let mut r = String::from_str("location '");
                r.append(s.as_str());
                r.append("' is already tracked");
                r
            },
            WitError::NoLocations => String::from_str(
                "no tracked locations — run `wit add <city>` first",
            ),
            WitError::NoSnapshots => String::from_str("no snapshots yet — run `wit snap` first"),
            WitError::InvalidTime(s) => {
                let mut r = String::from_str("could not resolve time '");
                r.append(s.as_str());
                r.append("' — try formats like 7d, 2w, 3m, 1y, yesterday");
                r
            },
            WitError::AmbiguousLocation { name, options } => {
                let mut r = String::from_str("ambiguous location '");
                r.append(name.as_str());
                r.append("' — did you mean one of these?\n");
                r.append(options.as_str());
                r
            },
            WitError::Api(s) => {
                let mut r = String::from_str("API error: ");
                r.append(s.as_str());
                r
            },
            WitError::Git(s) => {
                let mut r = String::from_str("git error: ");
                r.append(s.as_str());
                r
            },
            WitError::Other(s) => s.clone(),
        }
    }
}

} // verus!
