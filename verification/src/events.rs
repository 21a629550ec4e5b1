//! Runtime events generated during playback.
//!
//! These events are not stored: they are generated in real time from pattern
//! data. A note-on carries its per-note articulation (glide and expression
//! blocks, of type `N`) and a parameter event its automation payload (target
//! and value, of type `P`); the ordering rules below never look inside either.
use vstd::prelude::*;

use crate::ids::{InstrumentId, TrackId};
use crate::pitch::{Pitch, Velocity};
use crate::time::Tick;

verus! {

/// Events generated during sequencer playback.
#[derive(Debug, Clone)]
pub enum SequencerEvent<N, P> {
    /// Note on event.
    NoteOn {
        /// Absolute position in the song.
        tick: Tick,
        /// Pitch to play.
        pitch: Pitch,
        /// Velocity/attack strength.
        velocity: Velocity,
        /// Instrument to play.
        instrument: InstrumentId,
        /// Per-note tie/legato intent.
        legato: bool,
        /// Per-note glide and expression, carried from the source note.
        articulation: N,
        /// Track whose placement spawned this note (`None` for preview and
        /// live input).
        track: Option<TrackId>,
    },
    /// Note off event.
    NoteOff {
        /// Absolute position in the song.
        tick: Tick,
        /// Pitch to stop.
        pitch: Pitch,
        /// Instrument to stop.
        instrument: InstrumentId,
    },
    /// Parameter automation event.
    Parameter {
        /// Absolute position in the song.
        tick: Tick,
        /// Target parameter and normalized value.
        payload: P,
    },
}

/// The position of an event.
pub open spec fn event_tick<N, P>(e: SequencerEvent<N, P>) -> Tick {
    match e {
        SequencerEvent::NoteOn { tick, .. } => tick,
        SequencerEvent::NoteOff { tick, .. } => tick,
        SequencerEvent::Parameter { tick, .. } => tick,
    }
}

/// The rank of an event among events at the same tick: note-offs first (0),
/// then note-ons (1), then parameters (2).
pub open spec fn event_priority<N, P>(e: SequencerEvent<N, P>) -> int {
    match e {
        SequencerEvent::NoteOff { .. } => 0,
        SequencerEvent::NoteOn { .. } => 1,
        SequencerEvent::Parameter { .. } => 2,
    }
}

/// Playback order: by tick, then by priority.
pub open spec fn plays_before<N, P>(a: SequencerEvent<N, P>, b: SequencerEvent<N, P>) -> bool {
    event_tick(a).0 < event_tick(b).0 || (event_tick(a).0 == event_tick(b).0 && event_priority(a)
        < event_priority(b))
}

/// At one tick, a note is released before any new note starts, and notes
/// change before parameters do: so a note-off and a note-on of the same pitch
/// at the same tick retrigger the note instead of cutting the new one.
pub proof fn lemma_release_before_attack<N, P>(off: SequencerEvent<N, P>, on: SequencerEvent<N, P>, param: SequencerEvent<N, P>)
    requires
        off is NoteOff,
        on is NoteOn,
        param is Parameter,
        event_tick(off) == event_tick(on),
        event_tick(on) == event_tick(param),
    ensures
        plays_before(off, on),
        plays_before(on, param),
        plays_before(off, param),
{
}

impl<N, P> SequencerEvent<N, P> {
    /// Get the tick position of this event.
    pub fn tick(&self) -> (r: Tick)
        ensures
            r == event_tick(*self),
    {
        match self {
            SequencerEvent::NoteOn { tick, .. } => *tick,
            SequencerEvent::NoteOff { tick, .. } => *tick,
            SequencerEvent::Parameter { tick, .. } => *tick,
        }
    }

    /// Check if this is a note-on event.
    pub fn is_note_on(&self) -> (r: bool)
        ensures
            r == (*self is NoteOn),
    {
        matches!(self, SequencerEvent::NoteOn { .. })
    }

    /// Check if this is a note-off event.
    pub fn is_note_off(&self) -> (r: bool)
        ensures
            r == (*self is NoteOff),
    {
        matches!(self, SequencerEvent::NoteOff { .. })
    }

    /// Check if this is a parameter event.
    pub fn is_parameter(&self) -> (r: bool)
        ensures
            r == (*self is Parameter),
    {
        matches!(self, SequencerEvent::Parameter { .. })
    }

    /// Sort priority for events at the same tick (see [`event_priority`]).
    pub fn sort_priority(&self) -> (r: u8)
        ensures
            r == event_priority(*self),
    {
        match self {
            SequencerEvent::NoteOff { .. } => 0,
            SequencerEvent::NoteOn { .. } => 1,
            SequencerEvent::Parameter { .. } => 2,
        }
    }

    /// The instrument of a note event.
    pub fn instrument(&self) -> (r: Option<InstrumentId>)
        ensures
            r == (match *self {
                SequencerEvent::NoteOn { instrument, .. } => Some(instrument),
                SequencerEvent::NoteOff { instrument, .. } => Some(instrument),
                SequencerEvent::Parameter { .. } => None,
            }),
    {
        match self {
            SequencerEvent::NoteOn { instrument, .. } => Some(*instrument),
            SequencerEvent::NoteOff { instrument, .. } => Some(*instrument),
            SequencerEvent::Parameter { .. } => None,
        }
    }

    /// The pitch of a note event.
    pub fn pitch(&self) -> (r: Option<Pitch>)
        ensures
            r == (match *self {
                SequencerEvent::NoteOn { pitch, .. } => Some(pitch),
                SequencerEvent::NoteOff { pitch, .. } => Some(pitch),
                SequencerEvent::Parameter { .. } => None,
            }),
    {
        match self {
            SequencerEvent::NoteOn { pitch, .. } => Some(*pitch),
            SequencerEvent::NoteOff { pitch, .. } => Some(*pitch),
            SequencerEvent::Parameter { .. } => None,
        }
    }
}

} // verus!
