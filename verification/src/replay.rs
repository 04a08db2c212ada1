//! Replay of a recorded command: it is looked up, shown, and run once the user agrees.
//!
//! The work outside (looking up, asking, running) is named by an action. What came of
//! it is reported by the next event.
use vstd::prelude::*;

use crate::number::{decimal, i64_text};
use crate::text::{is_white_space, lemma_trimmed, same_text, trim, trimmed};

verus! {

/// The line above a command that is shown before it is run.
pub const FRAME_TOP: &'static str = "┌─────────────────────────────────────────┐";

/// The line below a command that is shown before it is run.
pub const FRAME_BOTTOM: &'static str = "└─────────────────────────────────────────┘";

/// How to call a replay.
pub const USAGE: &'static str = "Usage: recall replay <id>";

/// How far a replay has come.
#[derive(Debug)]
pub enum ReplayState {
    /// The session with this identifier is looked for.
    Looking(i64),
    /// The user is asked whether the command is to run in the directory.
    Asking { command: String, cwd: String },
    /// The command runs.
    Running,
    /// There is nothing left to do.
    Finished,
}

/// What came of the work outside.
#[derive(Debug)]
pub enum ReplayEvent {
    /// The session was found.
    Found { command: String, cwd: String },
    /// There is no such session.
    Missing,
    /// The user typed this.
    Answered(String),
    /// The command ended, with its exit code where it has one.
    Ended { success: bool, code: Option<i32> },
    /// The command could not be run, for the reason given.
    NotRun(String),
}

/// What is to be done next.
#[derive(Debug)]
pub enum ReplayAction {
    /// Print the text and read an answer.
    Ask(String),
    /// Run the command in the directory.
    Run { command: String, cwd: String },
    /// Print the text as a line.
    Say(String),
    /// Nothing.
    Stop,
}

/// What an action amounts to.
pub enum ActionView {
    Ask(Seq<char>),
    Run { command: Seq<char>, cwd: Seq<char> },
    Say(Seq<char>),
    Stop,
}

/// What a state amounts to.
pub enum StateView {
    Looking(i64),
    Asking { command: Seq<char>, cwd: Seq<char> },
    Running,
    Finished,
}

/// What an event amounts to.
pub enum EventView {
    Found { command: Seq<char>, cwd: Seq<char> },
    Missing,
    Answered(Seq<char>),
    Ended { success: bool, code: Option<i32> },
    NotRun(Seq<char>),
}

impl View for ReplayState {
    type V = StateView;

    open spec fn view(&self) -> StateView {
        match self {
            ReplayState::Looking(id) => StateView::Looking(*id),
            ReplayState::Asking { command, cwd } => StateView::Asking {
                command: command@,
                cwd: cwd@,
            },
            ReplayState::Running => StateView::Running,
            ReplayState::Finished => StateView::Finished,
        }
    }
}

impl View for ReplayEvent {
    type V = EventView;

    open spec fn view(&self) -> EventView {
        match self {
            ReplayEvent::Found { command, cwd } => EventView::Found { command: command@, cwd: cwd@ },
            ReplayEvent::Missing => EventView::Missing,
            ReplayEvent::Answered(input) => EventView::Answered(input@),
            ReplayEvent::Ended { success, code } => EventView::Ended {
                success: *success,
                code: *code,
            },
            ReplayEvent::NotRun(reason) => EventView::NotRun(reason@),
        }
    }
}

impl View for ReplayAction {
    type V = ActionView;

    open spec fn view(&self) -> ActionView {
        match self {
            ReplayAction::Ask(text) => ActionView::Ask(text@),
            ReplayAction::Run { command, cwd } => ActionView::Run { command: command@, cwd: cwd@ },
            ReplayAction::Say(text) => ActionView::Say(text@),
            ReplayAction::Stop => ActionView::Stop,
        }
    }
}

/// Whether the user agreed: a single `y` of either case, with white space around it or not.
pub open spec fn agrees(input: Seq<char>) -> bool {
    trimmed(input) == "y"@ || trimmed(input) == "Y"@
}

/// What the user is shown and asked.
pub open spec fn question_view(command: Seq<char>, cwd: Seq<char>) -> Seq<char> {
    FRAME_TOP@ + "\n  Command:   "@ + command + "\n  Directory: "@ + cwd + "\n"@ + FRAME_BOTTOM@
        + "\nRun this command? [y/n]: "@
}

/// What is said of a command that ended.
pub open spec fn ended_view(success: bool, code: Option<i32>) -> Seq<char> {
    if success {
        "\u{2713} Command completed successfully."@
    } else {
        "\u{2717} Command exited with code: "@ + decimal(
            match code {
                Some(c) => c as int,
                None => -1,
            },
        )
    }
}

/// The next state and what to do, for an event that the state waits for. Any other
/// event ends the replay.
pub open spec fn replay_step(state: StateView, event: EventView) -> (StateView, ActionView) {
    match (state, event) {
        (StateView::Looking(id), EventView::Found { command, cwd }) => (
            StateView::Asking { command, cwd },
            ActionView::Ask(question_view(command, cwd)),
        ),
        (StateView::Looking(id), EventView::Missing) => (
            StateView::Finished,
            ActionView::Say("No session found with ID "@ + decimal(id as int)),
        ),
        (StateView::Asking { command, cwd }, EventView::Answered(input)) => if agrees(input) {
            (StateView::Running, ActionView::Run { command, cwd })
        } else {
            (StateView::Finished, ActionView::Say("Aborted."@))
        },
        (StateView::Running, EventView::Ended { success, code }) => (
            StateView::Finished,
            ActionView::Say(ended_view(success, code)),
        ),
        (StateView::Running, EventView::NotRun(reason)) => (
            StateView::Finished,
            ActionView::Say("Failed to run command: "@ + reason),
        ),
        _ => (StateView::Finished, ActionView::Stop),
    }
}

/// A command is run only when the user was asked about that very command and directory,
/// and agreed.
pub proof fn lemma_nothing_runs_without_consent(
    state: StateView,
    event: EventView,
    command: Seq<char>,
    cwd: Seq<char>,
)
    ensures
        replay_step(state, event).1 == (ActionView::Run { command, cwd }) <==> {
            &&& state == (StateView::Asking { command, cwd })
            &&& event matches EventView::Answered(input) && agrees(input)
        },
{
}

/// What the user is asked about is what was found, and the text shows it.
pub proof fn lemma_question_is_about_what_was_found(
    state: StateView,
    event: EventView,
    command: Seq<char>,
    cwd: Seq<char>,
)
    requires
        replay_step(state, event).0 == (StateView::Asking { command, cwd }),
    ensures
        event == (EventView::Found { command, cwd }),
        replay_step(state, event).1 == ActionView::Ask(question_view(command, cwd)),
{
}

/// A replay ends after three events at most.
pub proof fn lemma_replay_ends(
    id: i64,
    first: EventView,
    second: EventView,
    third: EventView,
)
    ensures
        replay_step(
            replay_step(replay_step(StateView::Looking(id), first).0, second).0,
            third,
        ).0 == StateView::Finished,
{
}

/// The user agrees with a `y` of either case and nothing else but white space, before or
/// behind it.
pub proof fn lemma_only_a_lone_y_agrees(input: Seq<char>)
    ensures
        agrees(input) <==> exists|i: int|
            0 <= i < input.len() && (#[trigger] input[i] == 'y' || input[i] == 'Y') && forall|
                j: int,
            |
                0 <= j < input.len() && j != i ==> is_white_space(#[trigger] input[j]),
{
    reveal_strlit("y");
    reveal_strlit("Y");
    let (from, to) = lemma_trimmed(input);
    let rest = trimmed(input);
    if agrees(input) {
        assert(rest.len() == 1);
        assert(rest[0] == input[from]);
    }
    if exists|i: int|
        0 <= i < input.len() && (#[trigger] input[i] == 'y' || input[i] == 'Y') && forall|j: int|
            0 <= j < input.len() && j != i ==> is_white_space(#[trigger] input[j]) {
        let i = choose|i: int|
            0 <= i < input.len() && (#[trigger] input[i] == 'y' || input[i] == 'Y') && forall|
                j: int,
            |
                0 <= j < input.len() && j != i ==> is_white_space(#[trigger] input[j]);
        assert(!is_white_space(input[i]));
        assert(from <= i < to);
        assert(rest.first() == input[from]);
        assert(rest.last() == input[to - 1]);
        assert(from == i && to == i + 1);
        assert(rest =~= seq![input[i]]);
        assert("y"@ =~= seq!['y']);
        assert("Y"@ =~= seq!['Y']);
    }
}

/// What a replay does with each event that it waits for.
pub proof fn lemma_replay_answers_every_event(
    id: i64,
    command: Seq<char>,
    cwd: Seq<char>,
    input: Seq<char>,
    code: i32,
    reason: Seq<char>,
)
    ensures
        replay_step(StateView::Looking(id), EventView::Found { command, cwd }) == (
            StateView::Asking { command, cwd },
            ActionView::Ask(question_view(command, cwd)),
        ),
        replay_step(StateView::Looking(id), EventView::Missing) == (
            StateView::Finished,
            ActionView::Say("No session found with ID "@ + decimal(id as int)),
        ),
        agrees(input) ==> replay_step(
            StateView::Asking { command, cwd },
            EventView::Answered(input),
        ) == (StateView::Running, ActionView::Run { command, cwd }),
        !agrees(input) ==> replay_step(
            StateView::Asking { command, cwd },
            EventView::Answered(input),
        ) == (StateView::Finished, ActionView::Say("Aborted."@)),
        replay_step(StateView::Running, EventView::Ended { success: true, code: Some(code) }) == (
            StateView::Finished,
            ActionView::Say("\u{2713} Command completed successfully."@),
        ),
        replay_step(StateView::Running, EventView::Ended { success: true, code: None }) == (
            StateView::Finished,
            ActionView::Say("\u{2713} Command completed successfully."@),
        ),
        replay_step(StateView::Running, EventView::Ended { success: false, code: Some(code) }) == (
            StateView::Finished,
            ActionView::Say("\u{2717} Command exited with code: "@ + decimal(code as int)),
        ),
        replay_step(StateView::Running, EventView::Ended { success: false, code: None }) == (
            StateView::Finished,
            ActionView::Say("\u{2717} Command exited with code: "@ + decimal(-1)),
        ),
        replay_step(StateView::Running, EventView::NotRun(reason)) == (
            StateView::Finished,
            ActionView::Say("Failed to run command: "@ + reason),
        ),
{
}

/// A replay that is over does nothing more, whatever comes.
pub proof fn lemma_finished_replay_does_nothing(event: EventView)
    ensures
        replay_step(StateView::Finished, event) == (StateView::Finished, ActionView::Stop),
{
}

/// An event that the state does not wait for ends the replay without a word.
pub proof fn lemma_unexpected_event_ends_the_replay(state: StateView, event: EventView)
    requires
        state is Looking ==> !(event is Found) && !(event is Missing),
        state is Asking ==> !(event is Answered),
        state is Running ==> !(event is Ended) && !(event is NotRun),
    ensures
        replay_step(state, event) == (StateView::Finished, ActionView::Stop),
{
}

/// The question shows the whole command and the whole directory, in a frame.
pub proof fn lemma_question_shows_command_and_directory(command: Seq<char>, cwd: Seq<char>)
    ensures
        question_view(command, cwd) == "┌─────────────────────────────────────────┐"@
            + "\n  Command:   "@ + command + "\n  Directory: "@ + cwd + "\n"@
            + "└─────────────────────────────────────────┘"@ + "\nRun this command? [y/n]: "@,
        USAGE@ == "Usage: recall replay <id>"@,
{
}

/// States, events and actions are seen as they are: no text is changed or left out.
pub proof fn lemma_views_of_a_replay(
    id: i64,
    command: String,
    cwd: String,
    success: bool,
    code: Option<i32>,
)
    ensures
        (ReplayState::Looking(id))@ == StateView::Looking(id),
        (ReplayState::Asking { command, cwd })@ == (StateView::Asking {
            command: command@,
            cwd: cwd@,
        }),
        (ReplayState::Running)@ == StateView::Running,
        (ReplayState::Finished)@ == StateView::Finished,
        (ReplayEvent::Found { command, cwd })@ == (EventView::Found {
            command: command@,
            cwd: cwd@,
        }),
        (ReplayEvent::Missing)@ == EventView::Missing,
        (ReplayEvent::Answered(command))@ == EventView::Answered(command@),
        (ReplayEvent::Ended { success, code })@ == (EventView::Ended { success, code }),
        (ReplayEvent::NotRun(command))@ == EventView::NotRun(command@),
        (ReplayAction::Ask(command))@ == ActionView::Ask(command@),
        (ReplayAction::Run { command, cwd })@ == (ActionView::Run {
            command: command@,
            cwd: cwd@,
        }),
        (ReplayAction::Say(command))@ == ActionView::Say(command@),
        (ReplayAction::Stop)@ == ActionView::Stop,
{
}

/// Whether what the user typed is a yes.
pub fn confirmed(input: &str) -> (yes: bool)
    ensures
        yes == agrees(input@),
{
    let answer = trim(input);
    same_text(answer.as_str(), "y") || same_text(answer.as_str(), "Y")
}

fn question(command: &str, cwd: &str) -> (s: String)
    ensures
        s@ == question_view(command@, cwd@),
{
    let mut s = FRAME_TOP.to_string();
    s.append("\n  Command:   ");
    s.append(command);
    s.append("\n  Directory: ");
    s.append(cwd);
    s.append("\n");
    s.append(FRAME_BOTTOM);
    s.append("\nRun this command? [y/n]: ");
    s
}

fn ended(success: bool, code: Option<i32>) -> (s: String)
    ensures
        s@ == ended_view(success, code),
{
    if success {
        return "\u{2713} Command completed successfully.".to_string();
    }
    let shown: i64 = match code {
        Some(c) => c as i64,
        None => -1,
    };
    let mut s = "\u{2717} Command exited with code: ".to_string();
    s.append(i64_text(shown).as_str());
    s
}

/// Takes what came of the work outside and says what to do next.
pub fn replay_session(state: ReplayState, event: ReplayEvent) -> (next: (ReplayState, ReplayAction))
    ensures
        (next.0@, next.1@) == replay_step(state@, event@),
{
    match (state, event) {
        (ReplayState::Looking(_), ReplayEvent::Found { command, cwd }) => {
            let text = question(command.as_str(), cwd.as_str());
            (ReplayState::Asking { command, cwd }, ReplayAction::Ask(text))
        },
        (ReplayState::Looking(id), ReplayEvent::Missing) => {
            let mut text = "No session found with ID ".to_string();
            text.append(i64_text(id).as_str());
            (ReplayState::Finished, ReplayAction::Say(text))
        },
        (ReplayState::Asking { command, cwd }, ReplayEvent::Answered(input)) => {
            if confirmed(input.as_str()) {
                (ReplayState::Running, ReplayAction::Run { command, cwd })
            } else {
                (ReplayState::Finished, ReplayAction::Say("Aborted.".to_string()))
            }
        },
        (ReplayState::Running, ReplayEvent::Ended { success, code }) => {
            (ReplayState::Finished, ReplayAction::Say(ended(success, code)))
        },
        (ReplayState::Running, ReplayEvent::NotRun(reason)) => {
            let mut text = "Failed to run command: ".to_string();
            text.append(reason.as_str());
            (ReplayState::Finished, ReplayAction::Say(text))
        },
        _ => (ReplayState::Finished, ReplayAction::Stop),
    }
}

} // verus!
