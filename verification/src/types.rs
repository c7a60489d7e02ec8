//! The failures that a run collects, and a stream that is one of three.

use vstd::prelude::*;
use vstd::std_specs::convert::FromSpecImpl;

verus! {

/// `regex::Error`, the error of a pattern that does not compile. It is
/// carried, never looked into.
#[verifier::external_type_specification]
#[verifier::external_body]
pub struct ExRegexError(regex::Error);

/// `aho_corasick::BuildError`, the error of a matcher that cannot be built.
/// It is carried, never looked into.
#[verifier::external_type_specification]
#[verifier::external_body]
pub struct ExBuildError(aho_corasick::BuildError);

/// `tokio::task::JoinError`, the error of a task that did not run to its
/// end.
#[verifier::external_type_specification]
#[verifier::external_body]
pub struct ExJoinError(tokio::task::JoinError);

/// `std::path::PathBuf`, an owned path. It is carried, never looked into.
#[verifier::external_type_specification]
#[verifier::external_body]
pub struct ExPathBuf(std::path::PathBuf);

/// `std::io::ErrorKind`, the kind of an input or output error. It is
/// carried, never looked into.
#[verifier::external_type_specification]
#[verifier::external_body]
pub struct ExErrorKind(std::io::ErrorKind);

/// `Clone::clone` of `regex::Error` hands out another such error.
pub assume_specification[ <regex::Error as Clone>::clone ](e: &regex::Error) -> regex::Error;

/// `Clone::clone` of `aho_corasick::BuildError` hands out another such error.
pub assume_specification[ <aho_corasick::BuildError as Clone>::clone ](
    e: &aho_corasick::BuildError,
) -> aho_corasick::BuildError;

/// `Clone::clone` of `std::path::PathBuf` hands out another path.
pub assume_specification[ <std::path::PathBuf as Clone>::clone ](
    p: &std::path::PathBuf,
) -> std::path::PathBuf;

/// `Clone::clone` of `std::io::ErrorKind` hands out another kind.
pub assume_specification[ <std::io::ErrorKind as Clone>::clone ](
    k: &std::io::ErrorKind,
) -> std::io::ErrorKind;

/// Why a run failed. A failure owns all it holds, so it can be cloned and
/// handed from one task to another.
#[derive(Clone, Debug)]
pub enum Fail {
    /// A task of the pipeline could not be awaited to its end.
    Join,
    /// The run was asked to stop.
    Interrupt,
    /// A pattern was malformed.
    RegexError(regex::Error),
    /// A matcher could not be built.
    BuildError(aho_corasick::BuildError),
    /// The configuration was invalid.
    ArgumentError(String),
    /// An operation on the file at the path failed.
    IO(std::path::PathBuf, std::io::ErrorKind),
    /// A helper process for the path ended with the given code.
    BadExit(std::path::PathBuf, i32),
}

/// Whether the task behind a join error was cancelled.
pub uninterp spec fn join_cancelled(e: tokio::task::JoinError) -> bool;

/// `tokio::task::JoinError::is_cancelled` tells whether the task was
/// cancelled, as opposed to having panicked. The answer is read off the
/// error itself, so it is the same whenever the same error is asked.
pub assume_specification[ tokio::task::JoinError::is_cancelled ](
    e: &tokio::task::JoinError,
) -> (cancelled: bool)
    ensures
        cancelled == join_cancelled(*e),
;

/// The fields of a failure as the pretty form of `Debug` writes them.
pub uninterp spec fn pretty_fields(fail: Fail) -> Seq<char>;

/// Calls the formatter that `Debug` derives for `Fail`, in its pretty form.
/// What it writes depends on the failure alone.
#[verifier::external_body]
fn pretty(fail: &Fail) -> (text: String)
    ensures
        text@ == pretty_fields(*fail),
{
    format!("{fail:#?}")
}

impl Fail {
    /// The failure that a task leaves which could not be joined: an
    /// interrupt where it was cancelled, a join failure otherwise.
    pub fn of_join(cancelled: bool) -> (fail: Fail)
        ensures
            fail == if cancelled {
                Fail::Interrupt
            } else {
                Fail::Join
            },
    {
        if cancelled {
            Fail::Interrupt
        } else {
            Fail::Join
        }
    }

    /// A heading line and, after it, the given text.
    pub fn headed(fields: &str) -> (text: String)
        ensures
            text@ == "Error:\n"@ + fields@,
    {
        let mut text = String::new();
        vstd::string::StringExecFns::append(&mut text, "Error:\n");
        vstd::string::StringExecFns::append(&mut text, fields);
        text
    }

    /// The failure as a reader sees it: a heading line and the failure's
    /// fields as the formatter writes them.
    pub fn to_string(&self) -> (text: String)
        ensures
            text@ == "Error:\n"@ + pretty_fields(*self),
    {
        let fields = pretty(self);
        Fail::headed(fields.as_str())
    }
}

impl From<tokio::task::JoinError> for Fail {
    /// The failure that a task leaves which could not be joined: an
    /// interrupt where the task was cancelled, a join failure otherwise.
    fn from(e: tokio::task::JoinError) -> (fail: Fail)
        ensures
            fail == if join_cancelled(e) {
                Fail::Interrupt
            } else {
                Fail::Join
            },
    {
        Fail::of_join(e.is_cancelled())
    }
}

impl FromSpecImpl<tokio::task::JoinError> for Fail {
    open spec fn obeys_from_spec() -> bool {
        true
    }

    open spec fn from_spec(e: tokio::task::JoinError) -> Fail {
        if join_cancelled(e) {
            Fail::Interrupt
        } else {
            Fail::Join
        }
    }
}

impl From<regex::Error> for Fail {
    fn from(e: regex::Error) -> (fail: Fail) {
        Fail::RegexError(e)
    }
}

impl FromSpecImpl<regex::Error> for Fail {
    open spec fn obeys_from_spec() -> bool {
        true
    }

    open spec fn from_spec(e: regex::Error) -> Fail {
        Fail::RegexError(e)
    }
}

impl From<aho_corasick::BuildError> for Fail {
    fn from(e: aho_corasick::BuildError) -> (fail: Fail) {
        Fail::BuildError(e)
    }
}

impl FromSpecImpl<aho_corasick::BuildError> for Fail {
    open spec fn obeys_from_spec() -> bool {
        true
    }

    open spec fn from_spec(e: aho_corasick::BuildError) -> Fail {
        Fail::BuildError(e)
    }
}

/// One of three streams of the same items, taken as one stream.
pub enum E3<A, B, C> {
    A(A),
    B(B),
    C(C),
}

} // verus!
