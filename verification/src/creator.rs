//! The settings of a run, and what follows from them.

use vstd::prelude::*;
use vstd::string::StringExecFns;
use crate::batch::{Batch, BatchText};
use crate::expand::{expand, expand_all, expansion, planned_paths};

verus! {

/// The settings of a run.
pub struct FileCreator {
    /// Whether failures are reported in full.
    pub debug: bool,
    /// Whether new files are announced to the notifier.
    pub use_gntp: bool,
}

/// The words that open the report of a failed registration.
pub open spec fn registration_failed() -> Seq<char> {
    "GNTP registration failed: "@
}

/// The text of the notification for a new file of the given name.
pub open spec fn notification_text(file_name: Seq<char>) -> Seq<char> {
    "File created: \""@ + file_name + "\""@
}

impl FileCreator {
    /// The settings with the given switches.
    pub fn new(debug: bool, use_gntp: bool) -> (creator: FileCreator)
        ensures
            creator.debug == debug,
            creator.use_gntp == use_gntp,
    {
        FileCreator { debug, use_gntp }
    }

    /// Expands a token into the paths that it stands for.
    pub fn parse_brace_expansion(&self, text: &str) -> (paths: Vec<String>)
        ensures
            paths.deep_view() == expansion(text@),
    {
        expand(text)
    }

    /// Makes the batch of the paths that the tokens stand for, in the order
    /// of the tokens, with no work done yet. The number of its paths is the
    /// total that the run reports.
    pub fn create_files(&self, files: &[String]) -> (batch: Batch)
        ensures
            batch@ == BatchText::start(planned_paths(files.deep_view()), self.use_gntp),
    {
        Batch::new(expand_all(files), self.use_gntp)
    }

    /// What a failed registration with the notifier comes to: an error that
    /// quotes the notifier's words in a debugging run, and nothing
    /// otherwise. Without notifications there is nothing to fail.
    pub fn registration_outcome(&self, failure: Option<&str>) -> (outcome: Result<(), String>)
        ensures
            match outcome {
                Ok(_) => failure is None || !self.debug || !self.use_gntp,
                Err(report) => failure is Some && self.debug && self.use_gntp && report@
                    == registration_failed() + failure->0@,
            },
    {
        match failure {
            Some(detail) => {
                if self.debug && self.use_gntp {
                    let report = String::from_str("GNTP registration failed: ").concat(detail);
                    Err(report)
                } else {
                    Ok(())
                }
            },
            None => Ok(()),
        }
    }
}

/// The text of the notification for a new file of the given name.
pub fn notification_message(file_name: &str) -> (message: String)
    ensures
        message@ == notification_text(file_name@),
{
    String::from_str("File created: \"").concat(file_name).concat("\"")
}

} // verus!
