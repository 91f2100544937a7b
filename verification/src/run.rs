//! A run of a suite as a machine of states: the library decides, the caller
//! sends the requests.
//!
//! A run is loaded with its suite and with the stored snapshot, if there is
//! one. Given the environment it replaces the suite's placeholders and asks
//! for the first request to be sent. Each response is held against the
//! expected status, redacted and written into the snapshot of the run, and
//! the next request is asked for: one at a time, in the order of the suite.
//! After the last response the run ends: with the snapshot to store where
//! none was stored before, with the comparison against the stored one where
//! one was. Anything that goes wrong on the way ends the run at once, and no
//! later test case is looked at.
//!
//! So a run goes from `Loaded`, through the resolving of its placeholders,
//! to `Executing` for one test case after the other, and ends in `Baselined`
//! or `Compared`; from any step on the way it may end in `Failed`. A run
//! that has ended stays where it is.

use vstd::prelude::*;
use crate::agreement::lemma_same_snapshot_no_diffs;
use crate::compare::{compare, compared, DiffView, SnapshotDiff};
use crate::http::url_parses;
use crate::json::{Json, JsonView};
use crate::request::{
    join_url, plan, planned, record, recorded, Request, RequestView, RunError,
};
use crate::snapshot::{
    distinct_names, lemma_index_of_name, lemma_put_keeps_distinct, optional_view, put, OutputView,
    Snapshot,
};
use crate::strmap::StringMap;
use crate::suite::{resolved, Rigor, RigorView};

verus! {

/// Where a run stands.
#[derive(Copy, Clone, Debug, PartialEq, Eq, Structural)]
pub enum Stage {
    /// The suite is there as it was declared; the environment is awaited.
    Loaded,
    /// A request has been asked for; its response is awaited.
    Executing,
    /// Over: every test case ran and no snapshot was stored before.
    Baselined,
    /// Over: every test case ran and the outputs were compared with the
    /// stored snapshot.
    Compared,
    /// Over: the run was given up.
    Failed,
}

/// What the caller reports to a run.
#[derive(Debug)]
pub enum Event {
    /// The environment from which placeholders are replaced.
    Environment(StringMap),
    /// The response to the request that was asked for: its status, and its
    /// body. A response without a body, or with one that is not JSON, is
    /// reported with no body; neither ends the run.
    Response { status: u16, body: Option<Json> },
    /// The request could not be sent, or no response came.
    TransportFailure,
}

/// What a run asks of the caller.
#[derive(Debug)]
pub enum Action {
    /// Nothing: the event was not awaited, and the run stands as it stood.
    Idle,
    /// Send this request and report what comes back.
    Send(Request),
    /// The run is over and there was no stored snapshot: store this one.
    Store(Snapshot),
    /// The run is over and agrees with the stored snapshot.
    Pass,
    /// The run is over and differs from the stored snapshot in these.
    Report(SnapshotDiff),
    /// The run is given up for this reason.
    Abort(RunError),
}

/// A run of a suite.
#[derive(Debug)]
pub struct Run {
    suite: Rigor,
    prior: Option<Snapshot>,
    stage: Stage,
    next: usize,
    snapshot: Snapshot,
}

/// The mathematical value of a [`Run`].
pub struct RunView {
    /// The suite: as declared while the run is loaded, resolved after.
    pub suite: RigorView,
    /// The entries of the stored snapshot, if it counts.
    pub prior: Option<Seq<OutputView>>,
    pub stage: Stage,
    /// The place of the test case whose response is awaited.
    pub next: nat,
    /// The entries of the run's own snapshot so far.
    pub entries: Seq<OutputView>,
}

/// The mathematical value of an [`Event`].
pub enum EventView {
    Environment(Map<Seq<char>, Seq<char>>),
    Response { status: u16, body: Option<JsonView> },
    TransportFailure,
}

/// The mathematical value of an [`Action`].
pub enum ActionView {
    Idle,
    Send(RequestView),
    Store(Seq<OutputView>),
    Pass,
    Report(Seq<DiffView>),
    Abort(RunError),
}

impl View for Event {
    type V = EventView;

    open spec fn view(&self) -> EventView {
        match self {
            Event::Environment(env) => EventView::Environment(env@),
            Event::Response { status, body } => EventView::Response {
                status: *status,
                body: optional_view(*body),
            },
            Event::TransportFailure => EventView::TransportFailure,
        }
    }
}

impl View for Action {
    type V = ActionView;

    open spec fn view(&self) -> ActionView {
        match self {
            Action::Idle => ActionView::Idle,
            Action::Send(request) => ActionView::Send(request@),
            Action::Store(snapshot) => ActionView::Store(snapshot.entries()),
            Action::Pass => ActionView::Pass,
            Action::Report(diff) => ActionView::Report(diff@),
            Action::Abort(e) => ActionView::Abort(*e),
        }
    }
}

/// The stored snapshot as it counts for a run: not at all where the caller
/// asks to overwrite it.
pub open spec fn counted(prior: Option<Seq<OutputView>>, overwrite: bool) -> Option<
    Seq<OutputView>,
> {
    if overwrite {
        None
    } else {
        prior
    }
}

/// How a run ends whose test cases all ran: where no stored snapshot counts,
/// its own is to be stored; where one does, the two are compared.
pub open spec fn concluded(prior: Option<Seq<OutputView>>, entries: Seq<OutputView>) -> (
    Stage,
    ActionView,
) {
    match prior {
        None => (Stage::Baselined, ActionView::Store(entries)),
        Some(stored) => (
            Stage::Compared,
            if compared(stored, entries).len() == 0 {
                ActionView::Pass
            } else {
                ActionView::Report(compared(stored, entries))
            },
        ),
    }
}

/// The URL of the test case at place `test`.
pub open spec fn url_of(suite: RigorView, test: int) -> Seq<char> {
    suite.endpoint + suite.tests[test].route
}

/// What a run does once the test cases before `next` have run: it ends if
/// none is left, else asks for the request of the next, or is given up over
/// what is wrong with that one.
pub open spec fn proceeded(
    suite: RigorView,
    prior: Option<Seq<OutputView>>,
    entries: Seq<OutputView>,
    next: nat,
) -> (RunView, ActionView) {
    if next >= suite.tests.len() {
        (
            RunView { suite, prior, stage: concluded(prior, entries).0, next, entries },
            concluded(prior, entries).1,
        )
    } else {
        match planned(
            suite.tests[next as int],
            suite.endpoint,
            next as usize,
            url_parses(url_of(suite, next as int)),
        ) {
            Ok(request) => (
                RunView { suite, prior, stage: Stage::Executing, next, entries },
                ActionView::Send(request),
            ),
            Err(e) => (
                RunView { suite, prior, stage: Stage::Failed, next, entries },
                ActionView::Abort(e),
            ),
        }
    }
}

/// The step of a run: its next state and what it asks for.
///
/// A loaded run awaits the environment, an executing one a response or the
/// news that none came. Any other event leaves the run as it is.
pub open spec fn advanced(run: RunView, event: EventView) -> (RunView, ActionView) {
    match (run.stage, event) {
        (Stage::Loaded, EventView::Environment(env)) => proceeded(
            resolved(run.suite, env),
            run.prior,
            Seq::empty(),
            0,
        ),
        (Stage::Executing, EventView::TransportFailure) => if run.next < run.suite.tests.len() {
            (
                RunView { stage: Stage::Failed, ..run },
                ActionView::Abort(RunError::Transport { test: run.next as usize }),
            )
        } else {
            (run, ActionView::Idle)
        },
        (Stage::Executing, EventView::Response { status, body }) => if run.next
            < run.suite.tests.len() {
            match recorded(
                run.suite.tests[run.next as int],
                run.next as usize,
                url_of(run.suite, run.next as int),
                status,
                body,
            ) {
                Ok(output) => proceeded(
                    run.suite,
                    run.prior,
                    put(run.entries, output),
                    run.next + 1,
                ),
                Err(e) => (RunView { stage: Stage::Failed, ..run }, ActionView::Abort(e)),
            }
        } else {
            (run, ActionView::Idle)
        },
        _ => (run, ActionView::Idle),
    }
}

impl View for Run {
    type V = RunView;

    closed spec fn view(&self) -> RunView {
        RunView {
            suite: self.suite@,
            prior: match self.prior {
                Some(stored) => Some(stored.entries()),
                None => None,
            },
            stage: self.stage,
            next: self.next as nat,
            entries: self.snapshot.entries(),
        }
    }
}

impl Run {
    /// A run of `suite` against the stored snapshot `prior`, which does not
    /// count where `overwrite` is set.
    pub fn load(suite: Rigor, prior: Option<Snapshot>, overwrite: bool) -> (run: Run)
        ensures
            run@ == (RunView {
                suite: suite@,
                prior: counted(
                    match prior {
                        Some(stored) => Some(stored.entries()),
                        None => None,
                    },
                    overwrite,
                ),
                stage: Stage::Loaded,
                next: 0,
                entries: Seq::empty(),
            }),
            sound(run@),
    {
        Run {
            suite,
            prior: if overwrite {
                None
            } else {
                prior
            },
            stage: Stage::Loaded,
            next: 0,
            snapshot: Snapshot::new(),
        }
    }

    /// Where the run stands.
    pub fn stage(&self) -> (stage: Stage)
        ensures
            stage == self@.stage,
    {
        self.stage
    }

    /// The place of the test case whose response is awaited.
    pub fn next(&self) -> (next: usize)
        ensures
            next == self@.next,
    {
        self.next
    }

    /// The snapshot of the run so far.
    pub fn snapshot(&self) -> (snapshot: &Snapshot)
        ensures
            snapshot.entries() == self@.entries,
    {
        &self.snapshot
    }

    /// Goes on once the test cases before `self.next` have run.
    fn proceed(&mut self) -> (action: Action)
        ensures
            (final(self)@, action@) == proceeded(
                old(self)@.suite,
                old(self)@.prior,
                old(self)@.entries,
                old(self)@.next,
            ),
    {
        if self.next >= self.suite.tests.len() {
            match &self.prior {
                None => {
                    self.stage = Stage::Baselined;
                    Action::Store(self.snapshot.clone())
                },
                Some(stored) => {
                    let diff = compare(stored, &self.snapshot);
                    self.stage = Stage::Compared;
                    if diff.is_empty() {
                        Action::Pass
                    } else {
                        Action::Report(diff)
                    }
                },
            }
        } else {
            let planned = plan(&self.suite.tests[self.next], self.suite.endpoint.as_str(), self.next);
            match planned {
                Ok(request) => {
                    self.stage = Stage::Executing;
                    Action::Send(request)
                },
                Err(e) => {
                    self.stage = Stage::Failed;
                    Action::Abort(e)
                },
            }
        }
    }

    /// Takes an event and says what to do next.
    pub fn advance(&mut self, event: Event) -> (action: Action)
        ensures
            (final(self)@, action@) == advanced(old(self)@, event@),
            sound(old(self)@) ==> sound(final(self)@),
    {
        proof {
            if sound(self@) {
                lemma_step_keeps_sound(self@, event@);
            }
        }
        match self.stage {
            Stage::Loaded => match event {
                Event::Environment(env) => {
                    self.suite.ensure_env(&env);
                    self.next = 0;
                    self.snapshot = Snapshot::new();
                    self.proceed()
                },
                _ => Action::Idle,
            },
            Stage::Executing => {
                if self.next >= self.suite.tests.len() {
                    return Action::Idle;
                }
                match event {
                    Event::TransportFailure => {
                        self.stage = Stage::Failed;
                        Action::Abort(RunError::Transport { test: self.next })
                    },
                    Event::Response { status, body } => {
                        let url = join_url(
                            self.suite.endpoint.as_str(),
                            self.suite.tests[self.next].route.as_str(),
                        );
                        match record(
                            &self.suite.tests[self.next],
                            self.next,
                            url.as_str(),
                            status,
                            body,
                        ) {
                            Ok(output) => {
                                self.snapshot.insert(output);
                                self.next = self.next + 1;
                                self.proceed()
                            },
                            Err(e) => {
                                self.stage = Stage::Failed;
                                Action::Abort(e)
                            },
                        }
                    },
                    _ => Action::Idle,
                }
            },
            _ => Action::Idle,
        }
    }
}

/// What holds of a run in every state that it can reach.
///
/// A run that awaits a response has a test case to await it for. A run that
/// has ended well has run every test case. The run's snapshot holds each
/// name once, and no more entries than test cases have run.
pub open spec fn sound(run: RunView) -> bool {
    &&& distinct_names(run.entries)
    &&& run.entries.len() <= run.next
    &&& run.stage == Stage::Loaded ==> run.next == 0
    &&& run.stage == Stage::Executing ==> run.next < run.suite.tests.len()
    &&& run.stage == Stage::Baselined || run.stage == Stage::Compared ==> run.next
        == run.suite.tests.len()
}

/// A run that was just loaded is sound.
pub proof fn lemma_loaded_is_sound(suite: RigorView, prior: Option<Seq<OutputView>>)
    ensures
        sound(RunView { suite, prior, stage: Stage::Loaded, next: 0, entries: Seq::empty() }),
{
}

/// Every step keeps a run sound.
pub proof fn lemma_step_keeps_sound(run: RunView, event: EventView)
    requires
        sound(run),
    ensures
        sound(advanced(run, event).0),
{
    match (run.stage, event) {
        (Stage::Executing, EventView::Response { status, body }) => {
            match recorded(
                run.suite.tests[run.next as int],
                run.next as usize,
                url_of(run.suite, run.next as int),
                status,
                body,
            ) {
                Ok(output) => {
                    lemma_put_keeps_distinct(run.entries, output);
                    lemma_index_of_name(run.entries, output.name);
                },
                Err(_) => {},
            }
        },
        _ => {},
    }
}

/// A run that is over stays as it is, whatever is reported to it.
pub proof fn lemma_over_stays_over(run: RunView, event: EventView)
    requires
        run.stage == Stage::Baselined || run.stage == Stage::Compared || run.stage
            == Stage::Failed,
    ensures
        advanced(run, event) == (run, ActionView::Idle),
{
}

/// A run ends well only when every test case has run: from a sound state, a
/// step into `Baselined` or `Compared` leaves no test case behind.
pub proof fn lemma_ends_after_the_last(run: RunView, event: EventView)
    requires
        sound(run),
        advanced(run, event).0.stage == Stage::Baselined || advanced(run, event).0.stage
            == Stage::Compared,
    ensures
        advanced(run, event).0.next == advanced(run, event).0.suite.tests.len(),
{
    lemma_step_keeps_sound(run, event);
}

/// A request that cannot be sent ends the run at once: the run fails, its
/// snapshot stays as it was, and no later test case is asked for.
pub proof fn lemma_transport_failure_ends_run(run: RunView)
    requires
        run.stage == Stage::Executing,
        run.next < run.suite.tests.len(),
    ensures
        advanced(run, EventView::TransportFailure) == (
            RunView { stage: Stage::Failed, ..run },
            ActionView::Abort(RunError::Transport { test: run.next as usize }),
        ),
{
}

/// A response whose status is not the expected one ends the run at once:
/// the run fails with the two statuses, and nothing is compared.
pub proof fn lemma_wrong_status_ends_run(
    run: RunView,
    status: u16,
    body: Option<JsonView>,
    expected: u16,
)
    requires
        run.stage == Stage::Executing,
        run.next < run.suite.tests.len(),
        run.suite.tests[run.next as int].expected_status_code == Some(expected),
        expected != status,
    ensures
        advanced(run, EventView::Response { status, body }) == (
            RunView { stage: Stage::Failed, ..run },
            ActionView::Abort(
                RunError::StatusMismatch { test: run.next as usize, expected, actual: status },
            ),
        ),
{
}

/// A loaded run waits for the environment: nothing else moves it, and what
/// moves it resolves the suite first.
pub proof fn lemma_loaded_awaits_environment(run: RunView, event: EventView)
    requires
        run.stage == Stage::Loaded,
    ensures
        event matches EventView::Environment(env) ==> advanced(run, event).0.suite == resolved(
            run.suite,
            env,
        ),
        !(event is Environment) ==> advanced(run, event) == (run, ActionView::Idle),
{
}

/// A run whose outputs are those of the stored snapshot passes.
pub proof fn lemma_same_outputs_pass(entries: Seq<OutputView>)
    requires
        distinct_names(entries),
    ensures
        concluded(Some(entries), entries) == (Stage::Compared, ActionView::Pass),
{
    lemma_same_snapshot_no_diffs(entries);
}

/// Given the environment, a suite that does not ask for it runs as it was
/// declared.
pub proof fn lemma_literal_suite_runs_as_declared(run: RunView, env: Map<Seq<char>, Seq<char>>)
    requires
        run.stage == Stage::Loaded,
        !run.suite.use_env,
    ensures
        advanced(run, EventView::Environment(env)).0.suite == run.suite,
{
}

} // verus!
