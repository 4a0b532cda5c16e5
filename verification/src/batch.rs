//! Working through a batch of paths, one file per path.
//!
//! The batch decides and keeps the books; its caller touches the disk, the
//! clipboard and the notifier. The caller asks for the next [`Action`],
//! carries it out, and reports what happened as an [`Event`]. No failure
//! ends the batch: every path is tried, in order, and gets one
//! [`CreationResult`].

use vstd::prelude::*;
use vstd::string::StringExecFns;
use crate::text::{decimal, decimal_string};

verus! {

/// What became of one path.
pub struct CreationResult {
    /// The path that was tried.
    pub path: String,
    /// Whether the file now exists, empty.
    pub succeeded: bool,
    /// The system's words on the failure, if there was one.
    pub error_detail: Option<String>,
}

/// A [`CreationResult`] as plain values.
pub struct ResultText {
    pub path: Seq<char>,
    pub succeeded: bool,
    pub error_detail: Option<Seq<char>>,
}

impl View for CreationResult {
    type V = ResultText;

    open spec fn view(&self) -> ResultText {
        ResultText {
            path: self.path@,
            succeeded: self.succeeded,
            error_detail: match self.error_detail {
                Some(detail) => Some(detail@),
                None => None,
            },
        }
    }
}

/// The views of the results, in order.
pub open spec fn result_texts(results: Seq<CreationResult>) -> Seq<ResultText> {
    Seq::new(results.len(), |i: int| results[i]@)
}

/// The tally of a batch.
#[derive(Clone, Copy, Debug, PartialEq, Eq, Structural)]
pub struct BatchOutcome {
    /// The paths whose file was created.
    pub success_count: usize,
    /// The paths of the batch.
    pub total_count: usize,
}

/// What the caller is to do next.
pub enum Action {
    /// Create the missing directories above the path.
    CreateParent(String),
    /// Create the file, or empty it if it exists.
    CreateFile(String),
    /// Find the absolute form of the path.
    Resolve(String),
    /// Tell of the new file: put `absolute` on the clipboard and, if
    /// `notify` is set, send a notification for `path`. Failures of either
    /// are not reported back.
    Announce { absolute: String, path: String, notify: bool },
    /// Nothing: every path has its result.
    Finished,
}

/// An [`Action`] as plain values.
pub enum ActionText {
    CreateParent(Seq<char>),
    CreateFile(Seq<char>),
    Resolve(Seq<char>),
    Announce { absolute: Seq<char>, path: Seq<char>, notify: bool },
    Finished,
}

impl View for Action {
    type V = ActionText;

    open spec fn view(&self) -> ActionText {
        match self {
            Action::CreateParent(path) => ActionText::CreateParent(path@),
            Action::CreateFile(path) => ActionText::CreateFile(path@),
            Action::Resolve(path) => ActionText::Resolve(path@),
            Action::Announce { absolute, path, notify } => ActionText::Announce {
                absolute: absolute@,
                path: path@,
                notify: *notify,
            },
            Action::Finished => ActionText::Finished,
        }
    }
}

/// What happened when the caller carried out the last action.
pub enum Event {
    /// The directories, or the file, are there.
    Created,
    /// The directories, or the file, could not be created; the system's
    /// words on it.
    Failed(String),
    /// The absolute form of the path.
    Resolved(String),
    /// The path has no absolute form that could be found.
    Unresolved,
    /// The clipboard and the notifier were tried.
    Announced,
}

/// An [`Event`] as plain values.
pub enum EventText {
    Created,
    Failed(Seq<char>),
    Resolved(Seq<char>),
    Unresolved,
    Announced,
}

impl View for Event {
    type V = EventText;

    open spec fn view(&self) -> EventText {
        match self {
            Event::Created => EventText::Created,
            Event::Failed(detail) => EventText::Failed(detail@),
            Event::Resolved(absolute) => EventText::Resolved(absolute@),
            Event::Unresolved => EventText::Unresolved,
            Event::Announced => EventText::Announced,
        }
    }
}

/// How far the work on the current path has come.
pub enum Stage {
    /// The directories above it are due.
    Parent,
    /// The file is due.
    File,
    /// The file is there; its absolute path is due.
    Resolve,
    /// The file is there, under this absolute path; the announcement is due.
    Announce(String),
}

/// A [`Stage`] as plain values.
pub enum StageText {
    Parent,
    File,
    Resolve,
    Announce(Seq<char>),
}

impl View for Stage {
    type V = StageText;

    open spec fn view(&self) -> StageText {
        match self {
            Stage::Parent => StageText::Parent,
            Stage::File => StageText::File,
            Stage::Resolve => StageText::Resolve,
            Stage::Announce(absolute) => StageText::Announce(absolute@),
        }
    }
}

/// The number of results that report success.
pub open spec fn count_succeeded(results: Seq<ResultText>) -> nat
    decreases results.len(),
{
    if results.len() == 0 {
        0
    } else {
        count_succeeded(results.drop_last()) + if results.last().succeeded {
            1nat
        } else {
            0nat
        }
    }
}

/// The result of a path whose directories or file could not be created.
pub open spec fn failure(path: Seq<char>, detail: Seq<char>) -> ResultText {
    ResultText { path, succeeded: false, error_detail: Some(detail) }
}

/// The result of a path whose file was created.
pub open spec fn success(path: Seq<char>) -> ResultText {
    ResultText { path, succeeded: true, error_detail: None }
}

/// A batch as plain values: the paths, the results of those that are done,
/// and the stage of the one in work.
pub struct BatchText {
    pub paths: Seq<Seq<char>>,
    pub results: Seq<ResultText>,
    pub stage: StageText,
    pub notify: bool,
}

impl BatchText {
    /// The batch before any work.
    pub open spec fn start(paths: Seq<Seq<char>>, notify: bool) -> BatchText {
        BatchText { paths, results: Seq::empty(), stage: StageText::Parent, notify }
    }

    /// The results belong to the first paths, one to each, in order.
    pub open spec fn well_formed(self) -> bool {
        &&& self.results.len() <= self.paths.len()
        &&& forall|i: int|
            0 <= i < self.results.len() ==> (#[trigger] self.results[i]).path == self.paths[i]
    }

    /// Whether every path has its result.
    pub open spec fn finished(self) -> bool {
        self.results.len() >= self.paths.len()
    }

    /// The path in work: the first one without a result.
    pub open spec fn current(self) -> Seq<char> {
        self.paths[self.results.len() as int]
    }

    /// What is to be done next.
    pub open spec fn action(self) -> ActionText {
        if self.finished() {
            ActionText::Finished
        } else {
            match self.stage {
                StageText::Parent => ActionText::CreateParent(self.current()),
                StageText::File => ActionText::CreateFile(self.current()),
                StageText::Resolve => ActionText::Resolve(self.current()),
                StageText::Announce(absolute) => ActionText::Announce {
                    absolute,
                    path: self.current(),
                    notify: self.notify,
                },
            }
        }
    }

    /// The batch at another stage of the same path.
    pub open spec fn at_stage(self, stage: StageText) -> BatchText {
        BatchText { stage, ..self }
    }

    /// The batch with the current path done, and the next one not begun.
    pub open spec fn done_with(self, result: ResultText) -> BatchText {
        BatchText { results: self.results.push(result), stage: StageText::Parent, ..self }
    }

    /// Whether the event answers the action that is due.
    pub open spec fn expects(self, event: EventText) -> bool {
        !self.finished() && match (self.stage, event) {
            (StageText::Parent, EventText::Created) => true,
            (StageText::Parent, EventText::Failed(_)) => true,
            (StageText::File, EventText::Created) => true,
            (StageText::File, EventText::Failed(_)) => true,
            (StageText::Resolve, EventText::Resolved(_)) => true,
            (StageText::Resolve, EventText::Unresolved) => true,
            (StageText::Announce(_), EventText::Announced) => true,
            _ => false,
        }
    }

    /// The batch after the event.
    ///
    /// Missing directories fail the path, and its file is not tried. A path
    /// without an absolute form is announced as it was given. An event that
    /// does not answer the action that is due changes nothing.
    pub open spec fn step(self, event: EventText) -> BatchText {
        if self.finished() {
            self
        } else {
            match (self.stage, event) {
                (StageText::Parent, EventText::Created) => self.at_stage(StageText::File),
                (StageText::Parent, EventText::Failed(detail)) => self.done_with(
                    failure(self.current(), detail),
                ),
                (StageText::File, EventText::Created) => self.at_stage(StageText::Resolve),
                (StageText::File, EventText::Failed(detail)) => self.done_with(
                    failure(self.current(), detail),
                ),
                (StageText::Resolve, EventText::Resolved(absolute)) => self.at_stage(
                    StageText::Announce(absolute),
                ),
                (StageText::Resolve, EventText::Unresolved) => self.at_stage(
                    StageText::Announce(self.current()),
                ),
                (StageText::Announce(_), EventText::Announced) => self.done_with(
                    success(self.current()),
                ),
                _ => self,
            }
        }
    }

    /// The most events that the batch still takes before it is finished.
    pub open spec fn steps_left(self) -> nat {
        if self.finished() {
            0
        } else {
            let after = (self.paths.len() - self.results.len() - 1) * 4;
            (after + match self.stage {
                StageText::Parent => 4int,
                StageText::File => 3int,
                StageText::Resolve => 2int,
                StageText::Announce(_) => 1int,
            }) as nat
        }
    }

    /// The tally: the successes among the results, and the paths.
    pub open spec fn successes(self) -> nat {
        count_succeeded(self.results)
    }
}

/// There are no more successes than results.
pub proof fn lemma_count_succeeded_bound(results: Seq<ResultText>)
    ensures
        count_succeeded(results) <= results.len(),
    decreases results.len(),
{
    if results.len() > 0 {
        lemma_count_succeeded_bound(results.drop_last());
    }
}

/// One more result adds one success if it reports one, and none otherwise.
pub proof fn lemma_count_succeeded_push(results: Seq<ResultText>, result: ResultText)
    ensures
        count_succeeded(results.push(result)) == count_succeeded(results) + if result.succeeded {
            1nat
        } else {
            0nat
        },
{
    assert(results.push(result).drop_last() == results);
}

/// An event leaves the batch well formed, keeps its paths and the results
/// it had, and adds at most one result: that of the path in work.
pub proof fn lemma_step_keeps_results(batch: BatchText, event: EventText)
    requires
        batch.well_formed(),
    ensures
        batch.step(event).well_formed(),
        batch.step(event).paths == batch.paths,
        batch.step(event).notify == batch.notify,
        batch.step(event).results == batch.results || (exists|result: ResultText|
            #![auto]
            batch.step(event).results == batch.results.push(result) && result.path
                == batch.current()),
{
    let next = batch.step(event);
    if next.results != batch.results {
        let result = next.results.last();
        assert(next.results == batch.results.push(result));
    }
}

/// An event that answers the action that is due brings the batch nearer to
/// its end; so a caller that does as it is told finishes the batch, after
/// at most four events for each path.
pub proof fn lemma_step_progress(batch: BatchText, event: EventText)
    requires
        batch.well_formed(),
        batch.expects(event),
    ensures
        batch.step(event).steps_left() < batch.steps_left(),
        batch.steps_left() <= 4 * (batch.paths.len() - batch.results.len()),
{
}

/// While the batch is not finished it asks for an action, and some event
/// answers it.
pub proof fn lemma_action_until_finished(batch: BatchText)
    requires
        batch.well_formed(),
    ensures
        batch.action() is Finished <==> batch.finished(),
        !batch.finished() ==> exists|event: EventText| batch.expects(event),
{
    if !batch.finished() {
        match batch.stage {
            StageText::Parent => assert(batch.expects(EventText::Created)),
            StageText::File => assert(batch.expects(EventText::Created)),
            StageText::Resolve => assert(batch.expects(EventText::Unresolved)),
            StageText::Announce(_) => assert(batch.expects(EventText::Announced)),
        }
    }
}

/// A finished batch has one result for each path, in the order of the
/// paths, whatever failed on the way.
pub proof fn lemma_finished_batch(batch: BatchText)
    requires
        batch.well_formed(),
        batch.finished(),
    ensures
        batch.results.len() == batch.paths.len(),
        forall|i: int| 0 <= i < batch.paths.len() ==> (#[trigger] batch.results[i]).path == batch.paths[i],
        batch.successes() <= batch.paths.len(),
{
    lemma_count_succeeded_bound(batch.results);
}

/// A path succeeds exactly if its file was created: what happens
/// afterwards, when its absolute path is looked up and it is announced,
/// does not count.
pub proof fn lemma_success_is_settled(batch: BatchText, resolved: EventText)
    requires
        batch.well_formed(),
        !batch.finished(),
        batch.stage is Resolve,
        resolved is Resolved || resolved is Unresolved,
    ensures
        batch.step(resolved).step(EventText::Announced).results == batch.results.push(
            success(batch.current()),
        ),
{
}

/// The batch: the paths, the results so far, and the stage of the path in
/// work.
pub struct Batch {
    paths: Vec<String>,
    results: Vec<CreationResult>,
    stage: Stage,
    notify: bool,
}

impl View for Batch {
    type V = BatchText;

    closed spec fn view(&self) -> BatchText {
        BatchText {
            paths: self.paths.deep_view(),
            results: result_texts(self.results@),
            stage: self.stage@,
            notify: self.notify,
        }
    }
}

impl Batch {
    #[verifier::type_invariant]
    spec fn inv(self) -> bool {
        self@.well_formed()
    }

    /// A batch of the given paths, with no work done. `notify` says whether
    /// new files are to be announced to the notifier.
    pub fn new(paths: Vec<String>, notify: bool) -> (batch: Batch)
        ensures
            batch@ == BatchText::start(paths.deep_view(), notify),
    {
        let batch = Batch { paths, results: Vec::new(), stage: Stage::Parent, notify };
        assert(batch@.results == Seq::<ResultText>::empty());
        batch
    }

    /// Whether every path has its result.
    pub fn is_finished(&self) -> (done: bool)
        ensures
            self@.well_formed(),
            done == self@.finished(),
    {
        proof {
            use_type_invariant(self);
        }
        self.results.len() >= self.paths.len()
    }

    /// What the caller is to do next.
    pub fn action(&self) -> (action: Action)
        ensures
            self@.well_formed(),
            action@ == self@.action(),
    {
        proof {
            use_type_invariant(self);
        }
        let done = self.results.len();
        if done >= self.paths.len() {
            Action::Finished
        } else {
            let path = self.paths[done].clone();
            match &self.stage {
                Stage::Parent => Action::CreateParent(path),
                Stage::File => Action::CreateFile(path),
                Stage::Resolve => Action::Resolve(path),
                Stage::Announce(absolute) => Action::Announce {
                    absolute: absolute.clone(),
                    path,
                    notify: self.notify,
                },
            }
        }
    }

    /// Takes in what happened when the caller carried out the action that
    /// was due.
    pub fn advance(&mut self, event: Event)
        ensures
            final(self)@ == old(self)@.step(event@),
            final(self)@.well_formed(),
    {
        proof {
            use_type_invariant(&*self);
            lemma_step_keeps_results(self@, event@);
        }
        let done = self.results.len();
        if done >= self.paths.len() {
            return ;
        }
        let ghost before = self@;
        match (&self.stage, event) {
            (Stage::Parent, Event::Created) => {
                self.stage = Stage::File;
            },
            (Stage::Parent, Event::Failed(detail)) | (Stage::File, Event::Failed(detail)) => {
                let result = CreationResult {
                    path: self.paths[done].clone(),
                    succeeded: false,
                    error_detail: Some(detail),
                };
                assert(result@ == failure(before.current(), detail@));
                self.record(result);
            },
            (Stage::File, Event::Created) => {
                self.stage = Stage::Resolve;
            },
            (Stage::Resolve, Event::Resolved(absolute)) => {
                self.stage = Stage::Announce(absolute);
            },
            (Stage::Resolve, Event::Unresolved) => {
                self.stage = Stage::Announce(self.paths[done].clone());
            },
            (Stage::Announce(_), Event::Announced) => {
                let result = CreationResult {
                    path: self.paths[done].clone(),
                    succeeded: true,
                    error_detail: None,
                };
                assert(result@ == success(before.current()));
                self.record(result);
            },
            _ => {},
        }
    }

    /// Files the result of the path in work; the next path is not begun.
    fn record(&mut self, result: CreationResult)
        requires
            !old(self)@.finished(),
            result@.path == old(self)@.current(),
        ensures
            final(self)@ == old(self)@.done_with(result@),
    {
        proof {
            use_type_invariant(&*self);
        }
        let ghost before = self@;
        let mut results: Vec<CreationResult> = Vec::new();
        std::mem::swap(&mut self.results, &mut results);
        results.push(result);
        assert(result_texts(results@) == before.results.push(result@));
        self.results = results;
        self.stage = Stage::Parent;
    }

    /// The results so far, one for each path that is done, in order.
    pub fn results(&self) -> (results: &Vec<CreationResult>)
        ensures
            self@.well_formed(),
            result_texts(results@) == self@.results,
    {
        proof {
            use_type_invariant(self);
        }
        &self.results
    }

    /// The paths of the batch.
    pub fn paths(&self) -> (paths: &Vec<String>)
        ensures
            paths.deep_view() == self@.paths,
    {
        &self.paths
    }

    /// The tally so far: the successes among the results, and the number of
    /// paths, which is fixed when the batch is made.
    pub fn outcome(&self) -> (outcome: BatchOutcome)
        ensures
            outcome.success_count == self@.successes(),
            outcome.total_count == self@.paths.len(),
            outcome.success_count <= self@.results.len() <= outcome.total_count,
    {
        proof {
            use_type_invariant(self);
        }
        let success_count = tally(&self.results);
        BatchOutcome { success_count, total_count: self.paths.len() }
    }
}

/// Counts the results that report success.
pub fn tally(results: &Vec<CreationResult>) -> (count: usize)
    ensures
        count == count_succeeded(result_texts(results@)),
        count <= results.len(),
{
    let ghost all = result_texts(results@);
    let mut count: usize = 0;
    let mut i: usize = 0;
    while i < results.len()
        invariant
            i <= results.len(),
            all == result_texts(results@),
            count == count_succeeded(all.take(i as int)),
            count <= i,
        decreases results.len() - i,
    {
        proof {
            lemma_count_succeeded_push(all.take(i as int), all[i as int]);
            assert(all.take(i as int).push(all[i as int]) == all.take(i + 1));
        }
        if results[i].succeeded {
            count += 1;
        }
        i += 1;
    }
    assert(all.take(i as int) == all);
    count
}

/// The line that sums a run up: the successes, a stroke, the total, and
/// the words that follow.
pub open spec fn summary_text(outcome: BatchOutcome) -> Seq<char> {
    decimal(outcome.success_count as nat) + "/"@ + decimal(outcome.total_count as nat)
        + " file(s) created successfully"@
}

impl BatchOutcome {
    /// The line that sums the run up, as in `2/3 file(s) created
    /// successfully`.
    pub fn summary(&self) -> (line: String)
        ensures
            line@ == summary_text(*self),
    {
        let total = decimal_string(self.total_count);
        decimal_string(self.success_count).concat("/").concat(total.as_str()).concat(
            " file(s) created successfully",
        )
    }

    /// Whether every path of the batch succeeded; an empty batch did.
    pub fn all_created(&self) -> (all: bool)
        ensures
            all == (self.success_count == self.total_count),
    {
        self.success_count == self.total_count
    }

    /// The exit code of the process: 0 if every path succeeded, 1 otherwise.
    pub fn exit_code(&self) -> (code: i32)
        ensures
            code == if self.success_count == self.total_count {
                0i32
            } else {
                1i32
            },
    {
        if self.success_count == self.total_count {
            0
        } else {
            1
        }
    }
}

} // verus!
