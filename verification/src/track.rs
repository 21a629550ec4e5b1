//! Sequencer track definition.
use vstd::prelude::*;

use crate::ids::{InstrumentId, TrackId};

verus! {

/// Track playback mode - determines how notes are allocated to voices.
#[derive(Debug, Clone, Copy, PartialEq, Eq, Structural)]
pub enum TrackMode {
    /// Polyphonic mode - notes are allocated from the voice pool dynamically.
    Polyphonic,
}

impl Default for TrackMode {
    fn default() -> (r: Self)
        ensures
            r == TrackMode::Polyphonic,
    {
        TrackMode::Polyphonic
    }
}

/// Track color for UI display.
#[derive(Debug, Clone, Copy, PartialEq, Eq, Structural)]
pub struct TrackColor {
    pub r: u8,
    pub g: u8,
    pub b: u8,
}

/// The colours offered for cycling, in order: red, green, blue, yellow,
/// cyan, magenta, orange, purple.
pub open spec fn preset_colors() -> Seq<(u8, u8, u8)> {
    seq![
        (255u8, 100u8, 100u8),
        (100u8, 255u8, 100u8),
        (100u8, 100u8, 255u8),
        (255u8, 255u8, 100u8),
        (100u8, 255u8, 255u8),
        (255u8, 100u8, 255u8),
        (255u8, 180u8, 100u8),
        (180u8, 100u8, 255u8),
    ]
}

impl TrackColor {
    pub fn new(r: u8, g: u8, b: u8) -> (c: Self)
        ensures
            c.r == r && c.g == g && c.b == b,
    {
        TrackColor { r, g, b }
    }

    pub fn red() -> (c: Self)
        ensures
            (c.r, c.g, c.b) == preset_colors()[0],
    {
        TrackColor { r: 255, g: 100, b: 100 }
    }

    pub fn green() -> (c: Self)
        ensures
            (c.r, c.g, c.b) == preset_colors()[1],
    {
        TrackColor { r: 100, g: 255, b: 100 }
    }

    pub fn blue() -> (c: Self)
        ensures
            (c.r, c.g, c.b) == preset_colors()[2],
    {
        TrackColor { r: 100, g: 100, b: 255 }
    }

    pub fn yellow() -> (c: Self)
        ensures
            (c.r, c.g, c.b) == preset_colors()[3],
    {
        TrackColor { r: 255, g: 255, b: 100 }
    }

    pub fn cyan() -> (c: Self)
        ensures
            (c.r, c.g, c.b) == preset_colors()[4],
    {
        TrackColor { r: 100, g: 255, b: 255 }
    }

    pub fn magenta() -> (c: Self)
        ensures
            (c.r, c.g, c.b) == preset_colors()[5],
    {
        TrackColor { r: 255, g: 100, b: 255 }
    }

    pub fn orange() -> (c: Self)
        ensures
            (c.r, c.g, c.b) == preset_colors()[6],
    {
        TrackColor { r: 255, g: 180, b: 100 }
    }

    pub fn purple() -> (c: Self)
        ensures
            (c.r, c.g, c.b) == preset_colors()[7],
    {
        TrackColor { r: 180, g: 100, b: 255 }
    }

    /// Get as RGB tuple.
    pub fn as_rgb(&self) -> (t: (u8, u8, u8))
        ensures
            t == (self.r, self.g, self.b),
    {
        (self.r, self.g, self.b)
    }

    /// Preset colors for cycling.
    pub fn presets() -> (v: Vec<TrackColor>)
        ensures
            v.len() == preset_colors().len(),
            forall|i: int|
                0 <= i < v.len() ==> (v[i].r, v[i].g, v[i].b) == #[trigger] preset_colors()[i],
    {
        let v = vec![
            TrackColor::red(),
            TrackColor::green(),
            TrackColor::blue(),
            TrackColor::yellow(),
            TrackColor::cyan(),
            TrackColor::magenta(),
            TrackColor::orange(),
            TrackColor::purple(),
        ];
        assert forall|i: int|
            0 <= i < v.len() implies (v[i].r, v[i].g, v[i].b) == #[trigger] preset_colors()[i] by {
            if i == 0 {
            } else if i == 1 {
            } else if i == 2 {
            } else if i == 3 {
            } else if i == 4 {
            } else if i == 5 {
            } else if i == 6 {
            } else {
            }
        }
        v
    }
}

impl Default for TrackColor {
    fn default() -> (c: Self)
        ensures
            (c.r, c.g, c.b) == preset_colors()[2],
    {
        TrackColor::blue()
    }
}

/// A sequencer track in the song: its identity, instrument routing, mute and
/// solo state, colour and mode. (Its gain and pan stay with the mixer.)
#[derive(Debug)]
pub struct SequencerTrack {
    /// Unique identifier.
    pub id: TrackId,
    /// Track name.
    pub name: String,
    /// Instrument this track routes its notes to.
    pub instrument: InstrumentId,
    /// Muted state.
    pub mute: bool,
    /// Solo state.
    pub solo: bool,
    /// Track color for UI.
    pub color: TrackColor,
    /// Playback mode.
    pub mode: TrackMode,
}

/// Whether a track is heard: it is not muted, and it is soloed whenever any
/// track is.
pub open spec fn audible(mute: bool, solo: bool, any_solo: bool) -> bool {
    !mute && (!any_solo || solo)
}

impl Clone for SequencerTrack {
    fn clone(&self) -> (r: Self)
        ensures
            r == *self,
    {
        SequencerTrack {
            id: self.id,
            name: self.name.clone(),
            instrument: self.instrument,
            mute: self.mute,
            solo: self.solo,
            color: self.color,
            mode: self.mode,
        }
    }
}

impl SequencerTrack {
    /// Create a new sequencer track: routed to instrument 0, unmuted, not
    /// soloed, blue, polyphonic.
    pub fn new(id: TrackId, name: String) -> (t: Self)
        ensures
            t.id == id,
            t.name@ == name@,
            t.instrument.0 == 0,
            !t.mute,
            !t.solo,
            (t.color.r, t.color.g, t.color.b) == preset_colors()[2],
            t.mode == TrackMode::Polyphonic,
    {
        SequencerTrack {
            id,
            name,
            instrument: InstrumentId::new(0),
            mute: false,
            solo: false,
            color: TrackColor::blue(),
            mode: TrackMode::Polyphonic,
        }
    }

    /// Set the instrument (builder pattern).
    pub fn with_instrument(self, instrument: InstrumentId) -> (t: Self)
        ensures
            t == (SequencerTrack { instrument, ..self }),
    {
        SequencerTrack { instrument, ..self }
    }

    /// Set the color (builder pattern).
    pub fn with_color(self, color: TrackColor) -> (t: Self)
        ensures
            t == (SequencerTrack { color, ..self }),
    {
        SequencerTrack { color, ..self }
    }

    /// Toggle mute state.
    pub fn toggle_mute(&mut self)
        ensures
            *final(self) == (SequencerTrack { mute: !old(self).mute, ..*old(self) }),
    {
        self.mute = !self.mute;
    }

    /// Toggle solo state.
    pub fn toggle_solo(&mut self)
        ensures
            *final(self) == (SequencerTrack { solo: !old(self).solo, ..*old(self) }),
    {
        self.solo = !self.solo;
    }

    /// Check if this track should be audible given solo states.
    pub fn is_audible(&self, any_solo: bool) -> (b: bool)
        ensures
            b == audible(self.mute, self.solo, any_solo),
    {
        if self.mute {
            return false;
        }
        if any_solo && !self.solo {
            return false;
        }
        true
    }
}

} // verus!
