//! A player's turn: what the interpreter stops for, and what a turn reports.

use crate::elements::TranscriptElem;
use crate::transcript::CaptureRun;
use vstd::prelude::*;

verus! {

/// Which kind of input the interpreter is waiting for.
#[derive(Clone, Copy, Debug, PartialEq, Eq, Structural)]
pub enum InputKind {
    /// A full line of text.
    Line,
    /// A single keypress.
    Char,
    /// An event that is no typed input: a timer, the mouse or a hyperlink.
    Event,
}

/// Which input or output of its own the game is suspended on.
#[derive(Clone, Copy, Debug, PartialEq, Eq, Structural)]
pub enum PendingIo {
    Save,
    Restore,
}

/// A game's request for a file name, awaiting the host's answer.
#[derive(Clone, Copy, Debug, PartialEq, Eq, Structural)]
pub struct FilenameReq {
    /// What the file is used for.
    pub usage: u32,
    /// How the file is opened: 1 to write, 2 to read, 3 for both, 5 to append.
    pub fmode: u32,
}

/// An operation on a sound channel, as far as playback is concerned.
#[derive(Clone, Copy, Debug, PartialEq, Eq, Structural)]
pub enum SchannelOp {
    /// Plays a sound. `volume` and `paused` are the channel's own when it was issued.
    Play { chan: u32, snd: u32, repeats: u32, notify: u32, volume: u32, paused: bool },
    Stop { chan: u32 },
    SetVolume { chan: u32, vol: u32 },
    Destroy { chan: u32 },
    /// Pauses playback, keeping its position.
    Pause { chan: u32 },
    /// Resumes a paused channel.
    Unpause { chan: u32 },
    /// Changes the volume over `duration_ms`, at once if that is zero.
    SetVolumeExt { chan: u32, vol: u32, duration_ms: u32, notify: u32 },
}

/// A sound effect that the game asked for.
#[derive(Clone, Copy, Debug, PartialEq, Eq, Structural)]
pub struct SoundEvent {
    pub number: u16,
    pub effect: u16,
    pub volume: u16,
    pub routine: u16,
}

/// A picture drawn or erased, in the order of the game's own calls.
#[derive(Clone, Copy, Debug, PartialEq, Eq)]
pub struct PictureEvent {
    /// The picture's number; zero with `erase` stands for erasing the whole window.
    pub number: u16,
    /// The window drawn into.
    pub window: u8,
    /// Where in the window, counted from one.
    pub x: u16,
    pub y: u16,
    pub erase: bool,
    /// How many characters the story window had taken when the call was made.
    pub out_chars: u64,
    /// The margin that the game set on the same window right after the call.
    pub margin_after: Option<u16>,
    /// Whether the picture landed on the line the text cursor was on.
    pub at_cursor: bool,
    /// The window's box when the call was made: its origin, counted from one, and its size.
    pub win_box: (u16, u16, u16, u16),
}

/// An object of the game, as the player's location is reported.
#[derive(Debug)]
pub struct ObjectSnapshot {
    pub number: u16,
    pub parent: u16,
    pub name: String,
}

/// How the player's location was found.
#[derive(Clone, Copy, Debug, PartialEq, Eq, Structural)]
pub enum LocationMethod {
    /// The object that holds the player.
    PlayerParent,
    /// A global variable that names the room.
    Global,
    /// A heading printed in the story.
    RoomHeading,
    /// The name on the status line, with no object behind it.
    NameOnly,
}

/// The player's location, by the way it was found.
#[derive(Debug)]
pub enum Location {
    PlayerParent(ObjectSnapshot),
    Global(ObjectSnapshot),
    RoomHeading(ObjectSnapshot),
    NameOnly(String),
}

impl Location {
    /// The way the location was found.
    pub open spec fn found_by(&self) -> LocationMethod {
        match self {
            Location::PlayerParent(_) => LocationMethod::PlayerParent,
            Location::Global(_) => LocationMethod::Global,
            Location::RoomHeading(_) => LocationMethod::RoomHeading,
            Location::NameOnly(_) => LocationMethod::NameOnly,
        }
    }

    /// The way the location was found.
    pub fn method(&self) -> (r: LocationMethod)
        ensures
            r == self.found_by(),
    {
        match self {
            Location::PlayerParent(_) => LocationMethod::PlayerParent,
            Location::Global(_) => LocationMethod::Global,
            Location::RoomHeading(_) => LocationMethod::RoomHeading,
            Location::NameOnly(_) => LocationMethod::NameOnly,
        }
    }
}

/// Turns a location into the object that stands for the room. A bare name has no object
/// behind it and gets the number that is made from it.
pub fn location_to_snapshot(loc: Location, number_of_name: u16) -> (r: ObjectSnapshot)
    ensures
        match loc {
            Location::PlayerParent(o) => r == o,
            Location::Global(o) => r == o,
            Location::RoomHeading(o) => r == o,
            Location::NameOnly(name) => r == (ObjectSnapshot {
                number: number_of_name,
                parent: 0,
                name,
            }),
        },
{
    match loc {
        Location::PlayerParent(o) => o,
        Location::Global(o) => o,
        Location::RoomHeading(o) => o,
        Location::NameOnly(name) => ObjectSnapshot { number: number_of_name, parent: 0, name },
    }
}

/// The result of one player turn.
#[derive(Debug)]
pub struct TurnResult {
    pub transcript: String,
    /// The styles of the transcript.
    pub transcript_runs: Vec<CaptureRun>,
    pub location: Option<ObjectSnapshot>,
    pub quit: bool,
    /// Whether the game cleared the screen this turn.
    pub erase_lower: bool,
    /// A note for the player.
    pub info: Option<String>,
    pub sounds: Vec<SoundEvent>,
    pub glulx_sound_ops: Vec<SchannelOp>,
    pub diagnostics: Vec<String>,
    pub location_method: Option<LocationMethod>,
    /// The game's own save or restore that the host must see to.
    pub pending_io: Option<PendingIo>,
    /// Whether the pending read was completed as timed out.
    pub timed_out: bool,
    /// The lines of a stack trace, when the interpreter faulted.
    pub fault: Option<Vec<String>>,
    pub pictures: Vec<PictureEvent>,
    /// The ordered output, where pictures or screen clears fall inside it; empty where the
    /// transcript says it all.
    pub transcript_elems: Vec<TranscriptElem>,
    /// Where in the transcript the game moved its window out from under printed text.
    pub prose_retired: Option<usize>,
}

impl TurnResult {
    /// Whether the result reports nothing but, perhaps, a location.
    pub open spec fn says_nothing_else(&self) -> bool {
        &&& self.transcript@.len() == 0
        &&& self.transcript_runs@.len() == 0
        &&& !self.quit
        &&& !self.erase_lower
        &&& self.info is None
        &&& self.sounds@.len() == 0
        &&& self.glulx_sound_ops@.len() == 0
        &&& self.diagnostics@.len() == 0
        &&& self.location_method is None
        &&& self.pending_io is None
        &&& !self.timed_out
        &&& self.fault is None
        &&& self.pictures@.len() == 0
        &&& self.transcript_elems@.len() == 0
        &&& self.prose_retired is None
    }

    /// A result that reports where the player is, and nothing else.
    pub fn observation(location: ObjectSnapshot) -> (r: TurnResult)
        ensures
            r.location == Some(location),
            r.says_nothing_else(),
    {
        let mut r = TurnResult::default();
        r.location = Some(location);
        r
    }
}

impl Default for TurnResult {
    fn default() -> (r: TurnResult)
        ensures
            r.location is None,
            r.says_nothing_else(),
    {
        TurnResult {
            transcript: String::new(),
            transcript_runs: Vec::new(),
            location: None,
            quit: false,
            erase_lower: false,
            info: None,
            sounds: Vec::new(),
            glulx_sound_ops: Vec::new(),
            diagnostics: Vec::new(),
            location_method: None,
            pending_io: None,
            timed_out: false,
            fault: None,
            pictures: Vec::new(),
            transcript_elems: Vec::new(),
            prose_retired: None,
        }
    }
}

// ── Running to a stop ─────────────────────────────────────────────────────────
/// What one step of the interpreter ended in.
#[derive(Clone, Copy, Debug, PartialEq, Eq, Structural)]
pub enum StepResult {
    Continue,
    Quit,
    Fault,
    NeedLine,
    NeedChar,
    SaveRequest,
    RestoreRequest,
    Restart,
}

/// Why the interpreter stopped.
#[derive(Clone, Copy, Debug, PartialEq, Eq, Structural)]
pub enum RunStop {
    /// It waits for input of this kind.
    Input(InputKind),
    /// The game ended.
    Quit,
    /// The game waits for the host to save.
    SavePending,
    /// The game waits for the host to restore.
    RestorePending,
}

/// What to do after a step.
#[derive(Clone, Copy, Debug, PartialEq, Eq, Structural)]
pub enum StepAction {
    /// Take the next step.
    Step,
    /// Start the game again in place, then take the next step.
    RestartAndStep,
    /// Stop here.
    Stop(RunStop),
}

/// What to do when the interpreter stopped and nobody can answer a save or a restore.
#[derive(Clone, Copy, Debug, PartialEq, Eq, Structural)]
pub enum SettleAction {
    /// It is settled: it waits for this kind of input, or, with the flag, it has quit.
    Settled(InputKind, bool),
    /// Answer the game's save with a failure and run on.
    FailSave,
    /// Answer the game's restore with a failure and run on.
    FailRestore,
}

/// What a step leads to.
pub open spec fn step_action(step: StepResult) -> StepAction {
    match step {
        StepResult::Continue => StepAction::Step,
        StepResult::Restart => StepAction::RestartAndStep,
        StepResult::Quit => StepAction::Stop(RunStop::Quit),
        StepResult::Fault => StepAction::Stop(RunStop::Quit),
        StepResult::NeedLine => StepAction::Stop(RunStop::Input(InputKind::Line)),
        StepResult::NeedChar => StepAction::Stop(RunStop::Input(InputKind::Char)),
        StepResult::SaveRequest => StepAction::Stop(RunStop::SavePending),
        StepResult::RestoreRequest => StepAction::Stop(RunStop::RestorePending),
    }
}

/// Decides how a run to the next input goes on after a step: it stops when the game asks
/// for input, ends, or suspends on its own save or restore. A restart starts the game again
/// in place and is no stop.
pub fn run_until_input(step: StepResult) -> (r: StepAction)
    ensures
        r == step_action(step),
{
    match step {
        StepResult::Continue => StepAction::Step,
        StepResult::Restart => StepAction::RestartAndStep,
        StepResult::Quit => StepAction::Stop(RunStop::Quit),
        StepResult::Fault => StepAction::Stop(RunStop::Quit),
        StepResult::NeedLine => StepAction::Stop(RunStop::Input(InputKind::Line)),
        StepResult::NeedChar => StepAction::Stop(RunStop::Input(InputKind::Char)),
        StepResult::SaveRequest => StepAction::Stop(RunStop::SavePending),
        StepResult::RestoreRequest => StepAction::Stop(RunStop::RestorePending),
    }
}

/// What a stop leads to where nobody can answer a save or a restore.
pub open spec fn settle_action(stop: RunStop) -> SettleAction {
    match stop {
        RunStop::Input(k) => SettleAction::Settled(k, false),
        RunStop::Quit => SettleAction::Settled(InputKind::Line, true),
        RunStop::SavePending => SettleAction::FailSave,
        RunStop::RestorePending => SettleAction::FailRestore,
    }
}

/// Decides how a run with no dialog to open goes on after a stop: at boot, and when the
/// host restores. The game's own save or restore is answered with a failure, so that the
/// interpreter is never left suspended.
pub fn run_settled(stop: RunStop) -> (r: SettleAction)
    ensures
        r == settle_action(stop),
{
    match stop {
        RunStop::Input(k) => SettleAction::Settled(k, false),
        RunStop::Quit => SettleAction::Settled(InputKind::Line, true),
        RunStop::SavePending => SettleAction::FailSave,
        RunStop::RestorePending => SettleAction::FailRestore,
    }
}

/// Where a settled run over a sequence of steps ends, if it ends in it.
pub open spec fn settled_after(steps: Seq<StepResult>) -> Option<(InputKind, bool)>
    decreases steps.len(),
{
    if steps.len() == 0 {
        None
    } else {
        match step_action(steps[0]) {
            StepAction::Stop(stop) => match settle_action(stop) {
                SettleAction::Settled(k, quit) => Some((k, quit)),
                _ => settled_after(steps.drop_first()),
            },
            _ => settled_after(steps.drop_first()),
        }
    }
}

/// A settled run ends at the first step that asks for input, quits or faults, however many
/// saves, restores and restarts come before it.
pub proof fn a_settled_run_passes_saves_and_restores(steps: Seq<StepResult>, n: int)
    requires
        0 <= n < steps.len(),
        forall|i: int|
            0 <= i < n ==> (#[trigger] steps[i]) is Continue || steps[i] is Restart
                || steps[i] is SaveRequest || steps[i] is RestoreRequest,
        steps[n] is NeedLine || steps[n] is NeedChar || steps[n] is Quit || steps[n] is Fault,
    ensures
        settled_after(steps) == Some(
            (
                if steps[n] is NeedChar {
                    InputKind::Char
                } else {
                    InputKind::Line
                },
                steps[n] is Quit || steps[n] is Fault,
            ),
        ),
    decreases n,
{
    if n > 0 {
        let rest = steps.drop_first();
        assert(rest[n - 1] == steps[n]);
        assert forall|i: int| 0 <= i < n - 1 implies (#[trigger] rest[i]) is Continue
            || rest[i] is Restart || rest[i] is SaveRequest || rest[i] is RestoreRequest by {
            assert(rest[i] == steps[i + 1]);
        }
        a_settled_run_passes_saves_and_restores(rest, n - 1);
        assert(steps[0] is Continue || steps[0] is Restart || steps[0] is SaveRequest
            || steps[0] is RestoreRequest);
    }
}

/// Whether the game has quit, what it waits for and what the host must see to, after a stop
/// reached while `pending` was the input last waited for.
pub open spec fn turn_end(stop: RunStop, pending: InputKind) -> (bool, InputKind, Option<PendingIo>) {
    match stop {
        RunStop::Quit => (true, InputKind::Line, None),
        RunStop::Input(k) => (false, k, None),
        RunStop::SavePending => (false, pending, Some(PendingIo::Save)),
        RunStop::RestorePending => (false, pending, Some(PendingIo::Restore)),
    }
}

/// Reads a stop as the end of a turn.
pub fn end_of_turn(stop: RunStop, pending: InputKind) -> (r: (bool, InputKind, Option<PendingIo>))
    ensures
        r == turn_end(stop, pending),
{
    match stop {
        RunStop::Quit => (true, InputKind::Line, None),
        RunStop::Input(k) => (false, k, None),
        RunStop::SavePending => (false, pending, Some(PendingIo::Save)),
        RunStop::RestorePending => (false, pending, Some(PendingIo::Restore)),
    }
}

// ── Laws of stopping ──────────────────────────────────────────────────────────
/// A run goes on after a step exactly where the step asked for nothing: a restart starts the
/// game again and goes on. It stops for a line where a line is asked for and for a key where
/// a key is, for the host where the game saves or restores, and at the end of the game or a
/// fault it has quit.
pub proof fn a_run_stops_for_what_is_asked(step: StepResult)
    ensures
        step_action(step) is Step <==> step is Continue,
        step_action(step) is RestartAndStep <==> step is Restart,
        step_action(step) == StepAction::Stop(RunStop::Input(InputKind::Line)) <==> step
            is NeedLine,
        step_action(step) == StepAction::Stop(RunStop::Input(InputKind::Char)) <==> step
            is NeedChar,
        step_action(step) == StepAction::Stop(RunStop::SavePending) <==> step is SaveRequest,
        step_action(step) == StepAction::Stop(RunStop::RestorePending) <==> step is RestoreRequest,
        step_action(step) == StepAction::Stop(RunStop::Quit) <==> step is Quit || step is Fault,
{
}

/// A turn ends the game exactly where the interpreter quit. A turn that suspends on a save or
/// a restore hands that to the host and still waits for what was waited for; any other waits
/// for what the interpreter asked for, and hands the host nothing.
pub proof fn a_turn_ends_in_what_it_stopped_for(stop: RunStop, pending: InputKind)
    ensures
        turn_end(stop, pending).0 <==> stop is Quit,
        turn_end(stop, pending).2 == Some(PendingIo::Save) <==> stop is SavePending,
        turn_end(stop, pending).2 == Some(PendingIo::Restore) <==> stop is RestorePending,
        stop is SavePending || stop is RestorePending ==> turn_end(stop, pending).1 == pending,
        stop matches RunStop::Input(k) ==> turn_end(stop, pending).1 == k,
        stop is Quit ==> turn_end(stop, pending).1 is Line,
{
}

/// Where nobody can answer the game, a save fails as a save and a restore as a restore; input
/// and the end of the game are settled as they are.
pub proof fn an_unanswered_request_fails(stop: RunStop)
    ensures
        settle_action(stop) is FailSave <==> stop is SavePending,
        settle_action(stop) is FailRestore <==> stop is RestorePending,
        stop matches RunStop::Input(k) ==> settle_action(stop) == SettleAction::Settled(k, false),
        stop is Quit ==> (settle_action(stop) matches SettleAction::Settled(_, quit) && quit),
{
}

/// A location is known to have been found in the way that it was.
pub proof fn a_location_tells_how_it_was_found(l: Location)
    ensures
        l is PlayerParent <==> l.found_by() is PlayerParent,
        l is Global <==> l.found_by() is Global,
        l is RoomHeading <==> l.found_by() is RoomHeading,
        l is NameOnly <==> l.found_by() is NameOnly,
{
}

} // verus!
