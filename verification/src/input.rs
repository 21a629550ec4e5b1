//! Input abstraction for the sequencer.
//!
//! Every input source (MIDI, computer keyboard, GUI) produces the same
//! [`InputCommand`]s. Commands carry a few real-valued parameters (a tempo, a
//! quantize strength, a velocity factor, a semitone amount); the sequencing
//! rules never read those, so their type is a parameter `R` of the command.
use vstd::prelude::*;

use crate::ids::{InstrumentId, NoteId, PatternId};
use crate::pitch::{Pitch, Velocity};
use crate::time::{Duration, PatternTick, Tick, TimeSignature};

verus! {

/// Input commands from any source. `R` is the type of the real-valued
/// parameters (tempo, strengths, factors, semitone amounts).
#[derive(Debug, Clone)]
pub enum InputCommand<R> {
    // === Real-time input ===
    /// Note on (from MIDI, keyboard, etc.)
    NoteOn { pitch: Pitch, velocity: Velocity, instrument: Option<InstrumentId> },
    /// Note off.
    NoteOff { pitch: Pitch },
    // === Pattern editing ===
    /// Add note to pattern.
    AddNote { pattern: PatternId, start: PatternTick, duration: Option<Duration>, pitch: Pitch, velocity: Velocity },
    /// Remove note.
    RemoveNote { pattern: PatternId, note_id: NoteId },
    /// Move note to new position.
    MoveNote { pattern: PatternId, note_id: NoteId, new_start: PatternTick },
    /// Resize note duration.
    ResizeNote { pattern: PatternId, note_id: NoteId, new_duration: Duration },
    /// Transpose note.
    TransposeNote { pattern: PatternId, note_id: NoteId, semitones: R },
    /// Set note velocity.
    SetNoteVelocity { pattern: PatternId, note_id: NoteId, velocity: Velocity },
    // === Selection ===
    /// Select specific notes.
    SelectNotes { pattern: PatternId, note_ids: Vec<NoteId> },
    /// Select notes in range.
    SelectRange {
        pattern: PatternId,
        start: PatternTick,
        end: PatternTick,
        pitch_min: Option<Pitch>,
        pitch_max: Option<Pitch>,
    },
    /// Add notes to selection.
    AddToSelection { pattern: PatternId, note_ids: Vec<NoteId> },
    /// Remove notes from selection.
    RemoveFromSelection { pattern: PatternId, note_ids: Vec<NoteId> },
    /// Clear selection.
    ClearSelection,
    /// Select all notes in pattern.
    SelectAll { pattern: PatternId },
    // === Clipboard operations ===
    /// Delete selected notes.
    DeleteSelection,
    /// Copy selection to clipboard.
    CopySelection,
    /// Cut selection to clipboard.
    CutSelection,
    /// Paste from clipboard.
    PasteAt { pattern: PatternId, tick: PatternTick },
    /// Duplicate selection.
    DuplicateSelection { pattern: PatternId, offset: PatternTick },
    // === Quantization ===
    /// Quantize notes to grid.
    Quantize { pattern: PatternId, strength: R },
    /// Quantize selected notes only.
    QuantizeSelection { strength: R },
    // === Bulk operations ===
    /// Transpose selection.
    TransposeSelection { semitones: R },
    /// Scale velocities.
    ScaleVelocities { pattern: PatternId, factor: R },
    /// Humanize timing.
    Humanize { pattern: PatternId, timing_amount: R, velocity_amount: R },
    // === Transport ===
    /// Start playback.
    Play,
    /// Stop playback.
    Stop,
    /// Pause playback.
    Pause,
    /// Toggle between play and pause.
    TogglePlayPause,
    /// Toggle record mode.
    ToggleRecord,
    /// Set playback position.
    SetPosition(Tick),
    /// Step forward/backward by ticks.
    StepPosition(i64),
    /// Go to start.
    GoToStart,
    /// Go to end.
    GoToEnd,
    // === Loop ===
    /// Set loop region.
    SetLoop { start: Tick, end: Tick, enabled: bool },
    /// Toggle loop on/off.
    ToggleLoop,
    /// Set loop to selection.
    LoopSelection,
    // === Tempo and time signature ===
    /// Set tempo (BPM).
    SetTempo(R),
    /// Tap tempo.
    TapTempo,
    /// Set time signature.
    SetTimeSignature(TimeSignature),
    // === Pattern management ===
    /// Create new pattern.
    CreatePattern { length: Duration },
    /// Delete pattern.
    DeletePattern { pattern: PatternId },
    /// Duplicate pattern.
    DuplicatePattern { pattern: PatternId },
    /// Rename pattern.
    RenamePattern { pattern: PatternId, name: String },
    // === Undo/Redo ===
    /// Undo last action.
    Undo,
    /// Redo last undone action.
    Redo,
}

/// Commands that act on a specific pattern.
pub open spec fn needs_pattern<R>(c: InputCommand<R>) -> bool {
    ||| c is AddNote
    ||| c is RemoveNote
    ||| c is MoveNote
    ||| c is ResizeNote
    ||| c is TransposeNote
    ||| c is SetNoteVelocity
    ||| c is SelectNotes
    ||| c is SelectRange
    ||| c is AddToSelection
    ||| c is RemoveFromSelection
    ||| c is SelectAll
    ||| c is PasteAt
    ||| c is DuplicateSelection
    ||| c is Quantize
    ||| c is ScaleVelocities
    ||| c is Humanize
    ||| c is DeletePattern
    ||| c is DuplicatePattern
    ||| c is RenamePattern
}

/// Transport commands.
pub open spec fn transport<R>(c: InputCommand<R>) -> bool {
    ||| c is Play
    ||| c is Stop
    ||| c is Pause
    ||| c is TogglePlayPause
    ||| c is ToggleRecord
    ||| c is SetPosition
    ||| c is StepPosition
    ||| c is GoToStart
    ||| c is GoToEnd
}

/// Commands that edit note data.
pub open spec fn editing<R>(c: InputCommand<R>) -> bool {
    ||| c is AddNote
    ||| c is RemoveNote
    ||| c is MoveNote
    ||| c is ResizeNote
    ||| c is TransposeNote
    ||| c is SetNoteVelocity
    ||| c is DeleteSelection
    ||| c is CutSelection
    ||| c is PasteAt
    ||| c is DuplicateSelection
    ||| c is Quantize
    ||| c is QuantizeSelection
    ||| c is TransposeSelection
    ||| c is ScaleVelocities
    ||| c is Humanize
}

/// Commands recorded for undo: the edits plus pattern management.
pub open spec fn undoable<R>(c: InputCommand<R>) -> bool {
    editing(c) || c is CreatePattern || c is DeletePattern || c is DuplicatePattern || c is RenamePattern
}

/// Real-time note input.
pub open spec fn realtime<R>(c: InputCommand<R>) -> bool {
    c is NoteOn || c is NoteOff
}

impl<R> InputCommand<R> {
    /// Check if this command requires a pattern context.
    pub fn requires_pattern(&self) -> (r: bool)
        ensures
            r == needs_pattern(*self),
    {
        matches!(
            self,
            InputCommand::AddNote { .. } | InputCommand::RemoveNote { .. } | InputCommand::MoveNote { .. }
                | InputCommand::ResizeNote { .. } | InputCommand::TransposeNote { .. }
                | InputCommand::SetNoteVelocity { .. } | InputCommand::SelectNotes { .. }
                | InputCommand::SelectRange { .. } | InputCommand::AddToSelection { .. }
                | InputCommand::RemoveFromSelection { .. } | InputCommand::SelectAll { .. }
                | InputCommand::PasteAt { .. } | InputCommand::DuplicateSelection { .. }
                | InputCommand::Quantize { .. } | InputCommand::ScaleVelocities { .. }
                | InputCommand::Humanize { .. } | InputCommand::DeletePattern { .. }
                | InputCommand::DuplicatePattern { .. } | InputCommand::RenamePattern { .. }
        )
    }

    /// Check if this is a transport command.
    pub fn is_transport(&self) -> (r: bool)
        ensures
            r == transport(*self),
    {
        matches!(
            self,
            InputCommand::Play | InputCommand::Stop | InputCommand::Pause | InputCommand::TogglePlayPause
                | InputCommand::ToggleRecord | InputCommand::SetPosition(_) | InputCommand::StepPosition(_)
                | InputCommand::GoToStart | InputCommand::GoToEnd
        )
    }

    /// Check if this is an editing command.
    pub fn is_editing(&self) -> (r: bool)
        ensures
            r == editing(*self),
    {
        matches!(
            self,
            InputCommand::AddNote { .. } | InputCommand::RemoveNote { .. } | InputCommand::MoveNote { .. }
                | InputCommand::ResizeNote { .. } | InputCommand::TransposeNote { .. }
                | InputCommand::SetNoteVelocity { .. } | InputCommand::DeleteSelection
                | InputCommand::CutSelection | InputCommand::PasteAt { .. }
                | InputCommand::DuplicateSelection { .. } | InputCommand::Quantize { .. }
                | InputCommand::QuantizeSelection { .. } | InputCommand::TransposeSelection { .. }
                | InputCommand::ScaleVelocities { .. } | InputCommand::Humanize { .. }
        )
    }

    /// Check if this command should be recorded for undo.
    pub fn is_undoable(&self) -> (r: bool)
        ensures
            r == undoable(*self),
    {
        self.is_editing() || matches!(
            self,
            InputCommand::CreatePattern { .. } | InputCommand::DeletePattern { .. }
                | InputCommand::DuplicatePattern { .. } | InputCommand::RenamePattern { .. }
        )
    }

    /// Check if this is a real-time input (note on/off).
    pub fn is_realtime_input(&self) -> (r: bool)
        ensures
            r == realtime(*self),
    {
        matches!(self, InputCommand::NoteOn { .. } | InputCommand::NoteOff { .. })
    }
}

/// How the command classes relate: every edit is undoable; transport
/// commands neither edit, nor need a pattern, nor are undone; real-time note
/// input is never undone and needs no pattern.
pub proof fn lemma_command_classes<R>(c: InputCommand<R>)
    ensures
        editing(c) ==> undoable(c),
        transport(c) ==> !editing(c) && !needs_pattern(c) && !undoable(c),
        realtime(c) ==> !undoable(c) && !needs_pattern(c) && !transport(c),
{
}

/// Which commands are recorded for undo: every note edit and every
/// pattern-management command (create, delete, duplicate, rename a pattern)
/// is; a command that is neither is not.
pub proof fn lemma_undoable_commands<R>(c: InputCommand<R>)
    ensures
        editing(c) ==> undoable(c),
        c is CreatePattern ==> undoable(c),
        c is DeletePattern ==> undoable(c),
        c is DuplicatePattern ==> undoable(c),
        c is RenamePattern ==> undoable(c),
        !editing(c) && !(c is CreatePattern) && !(c is DeletePattern) && !(c is DuplicatePattern)
            && !(c is RenamePattern) ==> !undoable(c),
{
}

/// An input source the sequencer polls for commands.
pub trait InputSource<R> {
    /// Poll for new commands.
    fn poll(&mut self) -> Vec<InputCommand<R>>;

    /// Name for UI display.
    fn name(&self) -> &str;

    /// Check if the source is connected/active.
    fn is_active(&self) -> bool;

    /// Enable or disable the source.
    fn set_enabled(&mut self, enabled: bool);

    /// Check if the source is enabled.
    fn is_enabled(&self) -> bool;
}

/// The lowest and highest base octave of the computer keyboard.
pub open spec fn octave_in_range(o: i32) -> bool {
    -1 <= o <= 8
}

/// The MIDI note a key `note_offset` semitones above the keyboard's base C
/// plays, when it is a valid pitch: `(octave + 1)·12 + offset`.
pub open spec fn key_midi(octave: i32, note_offset: u8) -> Option<int> {
    let m = (octave + 1) * 12 + note_offset;
    if 0 <= m <= 127 {
        Some(m)
    } else {
        None
    }
}

/// The keyboard layout: in every base octave the keyboard allows, each of
/// the twelve keys plays a valid MIDI note whose pitch class is the key's
/// offset; one octave up plays the same key twelve semitones higher; the
/// next key up plays the next semitone.
pub proof fn lemma_keyboard_layout(octave: i32, off: u8)
    requires
        octave_in_range(octave),
        off < 12,
    ensures
        key_midi(octave, off) matches Some(m) && 0 <= m <= 127 && m % 12 == off as int,
        octave < 8 ==> key_midi((octave + 1) as i32, off) == Some(key_midi(octave, off)->0 + 12),
        off < 11 ==> key_midi(octave, (off + 1) as u8) == Some(key_midi(octave, off)->0 + 1),
{
    let m = (octave + 1) * 12 + off;
    assert(m % 12 == off as int) by {
        vstd::arithmetic::div_mod::lemma_fundamental_div_mod_converse(m, 12, octave + 1, off as int);
    }
}

/// The queue after a key event: unchanged when the key gives no command
/// (`midi` is `None`); otherwise grown by one command `is_cmd` accepts for
/// that MIDI note.
pub open spec fn queued_key<R>(
    before: Seq<InputCommand<R>>,
    after: Seq<InputCommand<R>>,
    midi: Option<int>,
    is_cmd: spec_fn(InputCommand<R>, int) -> bool,
) -> bool {
    match midi {
        Some(m) => after.len() == before.len() + 1 && after.drop_last() == before && is_cmd(after.last(), m),
        None => after == before,
    }
}

/// A keyboard input source (the computer keyboard played as a piano).
#[derive(Debug)]
pub struct KeyboardInputSource<R> {
    name: String,
    enabled: bool,
    pending_commands: Vec<InputCommand<R>>,
    base_octave: i32,
    velocity: Velocity,
}

impl<R> KeyboardInputSource<R> {
    #[verifier::type_invariant]
    spec fn inv(self) -> bool {
        octave_in_range(self.base_octave)
    }

    /// The display name.
    pub closed spec fn spec_name(&self) -> Seq<char> {
        self.name@
    }

    /// Whether keys produce commands.
    pub closed spec fn spec_enabled(&self) -> bool {
        self.enabled
    }

    /// Commands waiting to be polled, oldest first.
    pub closed spec fn spec_pending(&self) -> Seq<InputCommand<R>> {
        self.pending_commands@
    }

    /// The octave of the keyboard's lowest C.
    pub closed spec fn spec_base_octave(&self) -> i32 {
        self.base_octave
    }

    /// The velocity keys play with.
    pub closed spec fn spec_velocity(&self) -> Velocity {
        self.velocity
    }

    /// Create a new keyboard input source: enabled, nothing pending, base
    /// octave 4, mezzo-forte.
    pub fn new(name: String) -> (r: Self)
        ensures
            r.spec_name() == name@,
            r.spec_enabled(),
            r.spec_pending().len() == 0,
            r.spec_base_octave() == 4,
            r.spec_velocity()@ == 80,
    {
        KeyboardInputSource { name, enabled: true, pending_commands: Vec::new(), base_octave: 4, velocity: Velocity::mf() }
    }

    /// Set the base octave for keyboard input, clamped to -1..=8.
    pub fn set_base_octave(&mut self, octave: i32)
        ensures
            final(self).spec_base_octave() == (if octave < -1 { -1i32 } else if octave > 8 { 8i32 } else { octave }),
            final(self).spec_name() == old(self).spec_name(),
            final(self).spec_enabled() == old(self).spec_enabled(),
            final(self).spec_pending() == old(self).spec_pending(),
            final(self).spec_velocity() == old(self).spec_velocity(),
    {
        proof {
            use_type_invariant(&*self);
        }
        self.base_octave = if octave < -1 { -1 } else if octave > 8 { 8 } else { octave };
    }

    /// Get the current base octave.
    pub fn base_octave(&self) -> (r: i32)
        ensures
            r == self.spec_base_octave(),
            octave_in_range(r),
    {
        proof {
            use_type_invariant(self);
        }
        self.base_octave
    }

    /// Set the velocity for keyboard input.
    pub fn set_velocity(&mut self, velocity: Velocity)
        ensures
            final(self).spec_velocity() == velocity,
            final(self).spec_base_octave() == old(self).spec_base_octave(),
            final(self).spec_name() == old(self).spec_name(),
            final(self).spec_enabled() == old(self).spec_enabled(),
            final(self).spec_pending() == old(self).spec_pending(),
    {
        proof {
            use_type_invariant(&*self);
        }
        self.velocity = velocity;
    }

    /// Get the current velocity.
    pub fn velocity(&self) -> (r: Velocity)
        ensures
            r == self.spec_velocity(),
    {
        self.velocity
    }

    /// Queue a command to be polled — only while the source is enabled.
    pub fn push_command(&mut self, command: InputCommand<R>)
        ensures
            final(self).spec_pending() == (if old(self).spec_enabled() {
                old(self).spec_pending().push(command)
            } else {
                old(self).spec_pending()
            }),
            final(self).spec_enabled() == old(self).spec_enabled(),
            final(self).spec_name() == old(self).spec_name(),
            final(self).spec_base_octave() == old(self).spec_base_octave(),
            final(self).spec_velocity() == old(self).spec_velocity(),
    {
        proof {
            use_type_invariant(&*self);
        }
        if self.enabled {
            let mut pending: Vec<InputCommand<R>> = Vec::new();
            std::mem::swap(&mut pending, &mut self.pending_commands);
            pending.push(command);
            self.pending_commands = pending;
        }
    }

    /// Handle a key press: a note-on for the key's pitch at the keyboard's
    /// velocity, queued when the pitch is valid (and the source enabled).
    pub fn key_down(&mut self, note_offset: u8, instrument: Option<InstrumentId>)
        ensures
            queued_key(
                old(self).spec_pending(),
                final(self).spec_pending(),
                if old(self).spec_enabled() { key_midi(old(self).spec_base_octave(), note_offset) } else { None },
                |c: InputCommand<R>, m: int| c matches InputCommand::NoteOn { pitch, velocity, instrument: i } && pitch@
                    == m && velocity == old(self).spec_velocity() && i == instrument,
            ),
            final(self).spec_enabled() == old(self).spec_enabled(),
            final(self).spec_name() == old(self).spec_name(),
            final(self).spec_base_octave() == old(self).spec_base_octave(),
            final(self).spec_velocity() == old(self).spec_velocity(),
    {
        proof {
            use_type_invariant(&*self);
        }
        let midi: i32 = (self.base_octave + 1) * 12 + note_offset as i32;
        if midi < 0 || midi > 255 {
            return;
        }
        match Pitch::new(midi as u8) {
            Some(pitch) => {
                let velocity = self.velocity;
                self.push_command(InputCommand::NoteOn { pitch, velocity, instrument });
                proof {
                    if old(self).spec_enabled() {
                        assert(self.spec_pending().drop_last() =~= old(self).spec_pending());
                    }
                }
            },
            None => {},
        }
    }

    /// Handle a key release: a note-off for the key's pitch, queued when the
    /// pitch is valid (and the source enabled).
    pub fn key_up(&mut self, note_offset: u8)
        ensures
            queued_key(
                old(self).spec_pending(),
                final(self).spec_pending(),
                if old(self).spec_enabled() { key_midi(old(self).spec_base_octave(), note_offset) } else { None },
                |c: InputCommand<R>, m: int| c matches InputCommand::NoteOff { pitch } && pitch@ == m,
            ),
            final(self).spec_enabled() == old(self).spec_enabled(),
            final(self).spec_name() == old(self).spec_name(),
            final(self).spec_base_octave() == old(self).spec_base_octave(),
            final(self).spec_velocity() == old(self).spec_velocity(),
    {
        proof {
            use_type_invariant(&*self);
        }
        let midi: i32 = (self.base_octave + 1) * 12 + note_offset as i32;
        if midi < 0 || midi > 255 {
            return;
        }
        match Pitch::new(midi as u8) {
            Some(pitch) => {
                self.push_command(InputCommand::NoteOff { pitch });
                proof {
                    if old(self).spec_enabled() {
                        assert(self.spec_pending().drop_last() =~= old(self).spec_pending());
                    }
                }
            },
            None => {},
        }
    }
}

impl<R> InputSource<R> for KeyboardInputSource<R> {
    /// Hand out every pending command, oldest first, leaving none.
    fn poll(&mut self) -> (r: Vec<InputCommand<R>>)
        ensures
            r@ == old(self).spec_pending(),
            final(self).spec_pending().len() == 0,
            final(self).spec_enabled() == old(self).spec_enabled(),
            final(self).spec_name() == old(self).spec_name(),
            final(self).spec_base_octave() == old(self).spec_base_octave(),
            final(self).spec_velocity() == old(self).spec_velocity(),
    {
        proof {
            use_type_invariant(&*self);
        }
        let mut taken: Vec<InputCommand<R>> = Vec::new();
        std::mem::swap(&mut taken, &mut self.pending_commands);
        taken
    }

    fn name(&self) -> (r: &str)
        ensures
            r@ == self.spec_name(),
    {
        self.name.as_str()
    }

    fn is_active(&self) -> (r: bool)
        ensures
            r == self.spec_enabled(),
    {
        self.enabled
    }

    /// Enable or disable the source; disabling drops whatever is pending.
    fn set_enabled(&mut self, enabled: bool)
        ensures
            final(self).spec_enabled() == enabled,
            final(self).spec_pending() == (if enabled { old(self).spec_pending() } else { Seq::empty() }),
            final(self).spec_name() == old(self).spec_name(),
            final(self).spec_base_octave() == old(self).spec_base_octave(),
            final(self).spec_velocity() == old(self).spec_velocity(),
    {
        proof {
            use_type_invariant(&*self);
        }
        self.enabled = enabled;
        if !enabled {
            self.pending_commands = Vec::new();
        }
    }

    fn is_enabled(&self) -> (r: bool)
        ensures
            r == self.spec_enabled(),
    {
        self.enabled
    }
}

} // verus!
