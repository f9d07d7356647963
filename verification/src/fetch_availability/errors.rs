//! What can go wrong between the page and the slots, stage by stage.

use vstd::prelude::*;
use vstd::string::StringExecFns;

verus! {

/// A raw string could not be decoded.
#[derive(Debug, Clone, Copy, PartialEq, Eq)]
pub enum ParseError {
    /// Nothing is left once the quoting is stripped.
    EmptyRaw,
}

/// A raw string could not be obtained from the page.
#[derive(Debug, Clone, Copy, PartialEq, Eq)]
pub enum FetchError {
    /// The script could not be evaluated.
    FailedEval,
    /// The script ran and gave no value.
    EvalNoValue,
}

/// A record of the availability matrix could not be turned into a slot.
#[derive(Debug, PartialEq, Eq)]
pub enum ProcessResultError {
    /// The record has no first field.
    AvailMatrixNoNext { section: String },
    /// The record's first field is not a usable timestamp.
    AvailMatrixFailedTimestampParse { timestamp: String },
}

/// The browser could not be driven to the page.
#[derive(Debug, Clone, Copy, PartialEq, Eq)]
pub enum HeadlessChromeError {
    FailedToLaunch,
    FailedToNewTab,
    FailedToNavigate,
    FailedToWaitUntilNavigated,
}

/// Any failure on the way from the page to the slots, tagged by its stage.
#[derive(Debug, PartialEq, Eq)]
pub enum ParseWhen2MeetError {
    Fetch(FetchError),
    Parse(ParseError),
    ProcessResult(ProcessResultError),
    HeadlessChrome(HeadlessChromeError),
}

impl ParseError {
    pub open spec fn message_text(self) -> Seq<char> {
        "Raw names string is empty, cannot parse"@
    }

    /// The message a person reads for this error.
    pub fn message(&self) -> (text: String)
        ensures
            text@ == self.message_text(),
    {
        "Raw names string is empty, cannot parse".to_owned()
    }
}

impl FetchError {
    pub open spec fn message_text(self) -> Seq<char> {
        match self {
            FetchError::FailedEval => "Failed to evaluate JS"@,
            FetchError::EvalNoValue => "Evaluated JS returned no value"@,
        }
    }

    /// The message a person reads for this error.
    pub fn message(&self) -> (text: String)
        ensures
            text@ == self.message_text(),
    {
        match self {
            FetchError::FailedEval => "Failed to evaluate JS".to_owned(),
            FetchError::EvalNoValue => "Evaluated JS returned no value".to_owned(),
        }
    }
}

impl ProcessResultError {
    /// This is the error of a record without a first field, and it carries
    /// the record `section`.
    pub open spec fn is_no_next(self, section: Seq<char>) -> bool {
        self matches ProcessResultError::AvailMatrixNoNext { section: carried } && carried@
            == section
    }

    /// This is the error of a timestamp that could not be used, and it
    /// carries the text `field`.
    pub open spec fn is_bad_timestamp(self, field: Seq<char>) -> bool {
        self matches ProcessResultError::AvailMatrixFailedTimestampParse { timestamp }
            && timestamp@ == field
    }

    pub open spec fn message_text(self) -> Seq<char> {
        match self {
            ProcessResultError::AvailMatrixNoNext { section } => {
                "Failed to get next part of availability matrix: "@ + section@
            },
            ProcessResultError::AvailMatrixFailedTimestampParse { timestamp } => {
                "Failed to parse timestamp from availability matrix: "@ + timestamp@
            },
        }
    }

    /// The message a person reads for this error; it ends with the raw text
    /// that could not be used.
    pub fn message(&self) -> (text: String)
        ensures
            text@ == self.message_text(),
    {
        match self {
            ProcessResultError::AvailMatrixNoNext { section } => {
                "Failed to get next part of availability matrix: ".to_owned().concat(
                    section.as_str(),
                )
            },
            ProcessResultError::AvailMatrixFailedTimestampParse { timestamp } => {
                "Failed to parse timestamp from availability matrix: ".to_owned().concat(
                    timestamp.as_str(),
                )
            },
        }
    }
}

impl HeadlessChromeError {
    pub open spec fn message_text(self) -> Seq<char> {
        match self {
            HeadlessChromeError::FailedToLaunch => "Failed to launch headless chrome"@,
            HeadlessChromeError::FailedToNewTab => "Failed to create new tab"@,
            HeadlessChromeError::FailedToNavigate => "Failed to navigate to URL"@,
            HeadlessChromeError::FailedToWaitUntilNavigated => "Failed to wait until navigated"@,
        }
    }

    /// The message a person reads for this error.
    pub fn message(&self) -> (text: String)
        ensures
            text@ == self.message_text(),
    {
        match self {
            HeadlessChromeError::FailedToLaunch => "Failed to launch headless chrome".to_owned(),
            HeadlessChromeError::FailedToNewTab => "Failed to create new tab".to_owned(),
            HeadlessChromeError::FailedToNavigate => "Failed to navigate to URL".to_owned(),
            HeadlessChromeError::FailedToWaitUntilNavigated => {
                "Failed to wait until navigated".to_owned()
            },
        }
    }
}

impl ParseWhen2MeetError {
    pub open spec fn message_text(self) -> Seq<char> {
        match self {
            ParseWhen2MeetError::Fetch(e) => "Fetch error: "@ + e.message_text(),
            ParseWhen2MeetError::Parse(e) => "Parse error: "@ + e.message_text(),
            ParseWhen2MeetError::ProcessResult(e) => "Process result error: "@ + e.message_text(),
            ParseWhen2MeetError::HeadlessChrome(e) => "Headless Chrome error: "@
                + e.message_text(),
        }
    }

    /// The message a person reads for this error: the stage, then the
    /// message of the failure inside it.
    pub fn message(&self) -> (text: String)
        ensures
            text@ == self.message_text(),
    {
        match self {
            ParseWhen2MeetError::Fetch(e) => "Fetch error: ".to_owned().concat(
                e.message().as_str(),
            ),
            ParseWhen2MeetError::Parse(e) => "Parse error: ".to_owned().concat(
                e.message().as_str(),
            ),
            ParseWhen2MeetError::ProcessResult(e) => "Process result error: ".to_owned().concat(
                e.message().as_str(),
            ),
            ParseWhen2MeetError::HeadlessChrome(e) => "Headless Chrome error: ".to_owned().concat(
                e.message().as_str(),
            ),
        }
    }
}

} // verus!
