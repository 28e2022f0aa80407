//! The service supervisor's state machine: the states a long-running task
//! moves through, the verdict of one loop iteration, and the transitions the
//! runner applies. The asynchronous runner around these decisions lives
//! outside the library; the decisions themselves are plain functions.

use vstd::prelude::*;

verus! {

/// The lifecycle of a supervised service.
#[derive(Debug)]
pub enum State {
    NotStarted,
    Starting,
    Started,
    Stopping,
    Stopped,
    StoppedWithError(String),
}

impl State {
    pub fn not_started(&self) -> (r: bool)
        ensures
            r <==> *self is NotStarted,
    {
        matches!(self, State::NotStarted)
    }

    pub fn starting(&self) -> (r: bool)
        ensures
            r <==> *self is Starting,
    {
        matches!(self, State::Starting)
    }

    pub fn started(&self) -> (r: bool)
        ensures
            r <==> *self is Started,
    {
        matches!(self, State::Started)
    }

    pub fn stopped(&self) -> (r: bool)
        ensures
            r <==> (*self is Stopped || *self is StoppedWithError),
    {
        match self {
            State::Stopped => true,
            State::StoppedWithError(_) => true,
            _ => false,
        }
    }
}

/// Used when a service shares no data asynchronously.
#[derive(PartialEq, Eq, Structural, Clone, Copy, Debug)]
pub struct EmptyShared;

/// The verdict of a single iteration of the service task.
#[derive(Debug)]
pub enum TaskNextAction {
    /// Run the task again.
    Continue,
    /// Abandon the task.
    Stop,
    /// Run again, but report an error.
    ErrorContinue(String),
}

impl TaskNextAction {
    /// Treats any outcome as reason to go on: an error is reported, never
    /// fatal.
    pub fn always_continue<T>(res: Result<T, String>) -> (r: TaskNextAction)
        ensures
            res is Ok ==> r is Continue,
            res is Err ==> r == TaskNextAction::ErrorContinue(res->Err_0),
    {
        match res {
            Ok(_) => TaskNextAction::Continue,
            Err(e) => TaskNextAction::ErrorContinue(e),
        }
    }

    /// A boolean outcome: the loop runs while it holds and ends when it
    /// clears; an error is noted and the loop runs on.
    pub fn from_result(result: Result<bool, String>) -> (r: TaskNextAction)
        ensures
            result == Ok::<bool, String>(true) ==> r is Continue,
            result == Ok::<bool, String>(false) ==> r is Stop,
            result is Err ==> r == TaskNextAction::ErrorContinue(result->Err_0),
    {
        match result {
            Ok(should_continue) => {
                if should_continue {
                    TaskNextAction::Continue
                } else {
                    TaskNextAction::Stop
                }
            },
            Err(e) => TaskNextAction::ErrorContinue(e),
        }
    }
}

/// The lifecycle interface of a running service.
pub trait Service {
    /// Signals the service to start; an error when it already was started.
    fn start(&mut self) -> Result<(), String>;

    /// Signals the service to stop; whether it was running.
    fn stop(&mut self) -> bool;

    /// The current state.
    fn state(&self) -> State;
}

/// The business logic a runner supervises, before it starts.
pub trait RunnableService {
    /// Data shared with observers of the running service.
    type SharedData;

    /// The initialized task the run loop drives.
    type Task: RunnableTask;

    /// A handle on the shared data.
    fn shared_data(&self) -> Self::SharedData;

    /// Converts the service into its running task.
    fn into_task(self) -> Result<Self::Task, String>;
}

/// One iteration of the supervised loop, and the graceful way out.
pub trait RunnableTask {
    /// One iteration; runs until it asks to stop, errs and goes on, or the
    /// supervisor stops it.
    fn run(&mut self) -> TaskNextAction;

    /// Graceful shutdown after the loop ends.
    fn shutdown(self) -> Result<(), String>;
}

/// The payload a captured panic carries.
pub enum PanicPayload {
    Text(String),
    Unknown,
}

/// Renders a captured panic payload for the stopped-with-error state.
pub fn panic_to_string(e: PanicPayload) -> (r: String)
    ensures
        e is Text ==> r@ == e->Text_0@,
        e is Unknown ==> r@ == "Unknown Source of Error"@,
{
    match e {
        PanicPayload::Text(s) => s,
        PanicPayload::Unknown => "Unknown Source of Error".to_owned(),
    }
}

/// The start signal: only a service never started moves to starting.
pub fn start_transition(state: State) -> (r: (State, bool))
    ensures
        state is NotStarted ==> r.0 is Starting && r.1,
        !(state is NotStarted) ==> r.0 == state && !r.1,
{
    match state {
        State::NotStarted => (State::Starting, true),
        other => (other, false),
    }
}

/// The stop signal: anything not yet winding down moves to stopping.
pub fn stop_transition(state: State) -> (r: (State, bool))
    ensures
        (state is NotStarted || state is Starting || state is Started)
            ==> r.0 is Stopping && r.1,
        !(state is NotStarted || state is Starting || state is Started)
            ==> r.0 == state && !r.1,
{
    match state {
        State::NotStarted => (State::Stopping, true),
        State::Starting => (State::Stopping, true),
        State::Started => (State::Stopping, true),
        other => (other, false),
    }
}

/// The task came up: a starting service is running.
pub fn started_transition(state: State) -> (r: (State, bool))
    ensures
        state is Starting ==> r.0 is Started && r.1,
        !(state is Starting) ==> r.0 == state && !r.1,
{
    match state {
        State::Starting => (State::Started, true),
        other => (other, false),
    }
}

/// The loop ended: a captured panic is preserved, a clean end is a clean
/// stop; a service already stopped keeps its state.
pub fn stopped_transition(state: State, got_panic: Option<String>) -> (r: State)
    ensures
        (state is Stopped || state is StoppedWithError) ==> r == state,
        !(state is Stopped || state is StoppedWithError) ==> match got_panic {
            Some(p) => r is StoppedWithError && r->StoppedWithError_0@ == p@,
            None => r is Stopped,
        },
{
    match state {
        State::Stopped => State::Stopped,
        State::StoppedWithError(e) => State::StoppedWithError(e),
        _ => match got_panic {
            Some(p) => State::StoppedWithError(p),
            None => State::Stopped,
        },
    }
}

/// One turn of the supervised loop: whether to run the task again.
pub fn run_task_step(state: &State, action: TaskNextAction) -> (r: bool)
    ensures
        r <==> (*state is Started && !(action is Stop)),
{
    if !state.started() {
        return false;
    }
    match action {
        TaskNextAction::Continue => true,
        TaskNextAction::Stop => false,
        TaskNextAction::ErrorContinue(_) => true,
    }
}

/// What shutdown leaves behind: an earlier panic wins over one thrown while
/// shutting down, which is preserved only when nothing failed earlier.
pub fn shutdown_panic(
    got_panic: Option<String>,
    shutdown_panic_payload: Option<String>,
) -> (r: Option<String>)
    ensures
        got_panic is Some ==> r == got_panic,
        got_panic is None ==> r == shutdown_panic_payload,
{
    match got_panic {
        Some(p) => Some(p),
        None => shutdown_panic_payload,
    }
}

} // verus!
