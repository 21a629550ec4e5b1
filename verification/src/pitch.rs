//! Pitch and velocity types for the sequencer.
use vstd::prelude::*;
use vstd::string::StringExecFns;

verus! {

/// MIDI-compatible pitch (0-127).
#[derive(Debug, Clone, Copy, PartialEq, Eq, PartialOrd, Ord, Hash, Structural)]
pub struct Pitch(u8);

/// Note names within an octave.
#[derive(Debug, Clone, Copy, PartialEq, Eq, Hash, Structural)]
pub enum NoteName {
    C,
    Cs,
    D,
    Ds,
    E,
    F,
    Fs,
    G,
    Gs,
    A,
    As,
    B,
}

/// Semitone index of a note name within the octave (C = 0 … B = 11).
pub open spec fn note_index(n: NoteName) -> int {
    match n {
        NoteName::C => 0,
        NoteName::Cs => 1,
        NoteName::D => 2,
        NoteName::Ds => 3,
        NoteName::E => 4,
        NoteName::F => 5,
        NoteName::Fs => 6,
        NoteName::G => 7,
        NoteName::Gs => 8,
        NoteName::A => 9,
        NoteName::As => 10,
        NoteName::B => 11,
    }
}

/// The note name whose index is `v mod 12`.
pub open spec fn note_name_of(v: int) -> NoteName {
    let r = v % 12;
    if r == 0 {
        NoteName::C
    } else if r == 1 {
        NoteName::Cs
    } else if r == 2 {
        NoteName::D
    } else if r == 3 {
        NoteName::Ds
    } else if r == 4 {
        NoteName::E
    } else if r == 5 {
        NoteName::F
    } else if r == 6 {
        NoteName::Fs
    } else if r == 7 {
        NoteName::G
    } else if r == 8 {
        NoteName::Gs
    } else if r == 9 {
        NoteName::A
    } else if r == 10 {
        NoteName::As
    } else {
        NoteName::B
    }
}

/// Whether `n` is a black key (a sharp/flat).
pub open spec fn spec_is_black_key(n: NoteName) -> bool {
    n == NoteName::Cs || n == NoteName::Ds || n == NoteName::Fs || n == NoteName::Gs
        || n == NoteName::As
}

/// Octave number of MIDI note `m` (octave -1 holds notes 0-11).
pub open spec fn spec_octave(m: int) -> int {
    m / 12 - 1
}

impl View for Pitch {
    type V = u8;

    closed spec fn view(&self) -> u8 {
        self.0
    }
}

impl Pitch {
    #[verifier::type_invariant]
    closed spec fn inv(self) -> bool {
        self.0 <= 127
    }

    /// Lowest pitch (MIDI 0).
    pub fn min_pitch() -> (r: Self)
        ensures
            r@ == 0,
    {
        Pitch(0)
    }

    /// Highest pitch (MIDI 127).
    pub fn max_pitch() -> (r: Self)
        ensures
            r@ == 127,
    {
        Pitch(127)
    }

    /// Middle C (MIDI 60).
    pub fn middle_c() -> (r: Self)
        ensures
            r@ == 60,
    {
        Pitch(60)
    }

    /// Create a new pitch from a MIDI note number.
    pub fn new(midi_note: u8) -> (r: Option<Self>)
        ensures
            r is Some <==> midi_note <= 127,
            r matches Some(p) ==> p@ == midi_note,
    {
        if midi_note <= 127 {
            Some(Pitch(midi_note))
        } else {
            None
        }
    }

    /// Create a pitch from octave and note name.
    /// Octave -1 contains MIDI notes 0-11, octave 4 contains middle C (60).
    pub fn from_octave_note(octave: i8, note: NoteName) -> (r: Option<Self>)
        requires
            octave < 127,
        ensures
            ({
                let midi = (octave + 1) * 12 + note_index(note);
                &&& r is Some <==> 0 <= midi <= 127
                &&& r matches Some(p) ==> p@ == midi
            }),
    {
        let midi: i16 = (octave + 1) as i16 * 12 + note.semitone() as i16;
        if 0 <= midi && midi <= 127 {
            Some(Pitch(midi as u8))
        } else {
            None
        }
    }

    /// Get the octave (-1 to 9).
    pub fn octave(&self) -> (r: i8)
        ensures
            r == spec_octave(self@ as int),
            -1 <= r <= 9,
    {
        proof {
            use_type_invariant(self);
        }
        (self.0 / 12) as i8 - 1
    }

    /// Get the note name within the octave.
    pub fn note_name(&self) -> (r: NoteName)
        ensures
            r == note_name_of(self@ as int),
    {
        NoteName::from_midi(self.0 % 12)
    }

    /// Get the raw MIDI note number.
    pub fn as_midi(&self) -> (r: u8)
        ensures
            r == self@,
            r <= 127,
    {
        proof {
            use_type_invariant(self);
        }
        self.0
    }

    /// Saturating subtraction of a raw offset (clamped to valid MIDI range).
    pub fn saturating_sub(self, offset: u8) -> (r: Self)
        ensures
            r@ == if self@ >= offset { self@ - offset } else { 0 },
    {
        proof {
            use_type_invariant(self);
        }
        Pitch(self.0.saturating_sub(offset))
    }

    /// Saturating addition of a raw offset (clamped to 127).
    pub fn saturating_add(self, offset: u8) -> (r: Self)
        ensures
            r@ == if self@ + offset <= 127 { self@ + offset } else { 127 },
    {
        let s = self.0.saturating_add(offset);
        Pitch(if s < 127 { s } else { 127 })
    }

    /// Transpose by a whole number of semitones.
    ///
    /// Returns `None` if the result would be outside valid MIDI range (0-127).
    pub fn transpose(&self, semitones: i32) -> (r: Option<Self>)
        ensures
            r is Some <==> 0 <= self@ + semitones <= 127,
            r matches Some(p) ==> p@ == self@ + semitones,
    {
        let transposed: i64 = self.0 as i64 + semitones as i64;
        if 0 <= transposed && transposed <= 127 {
            Some(Pitch(transposed as u8))
        } else {
            None
        }
    }
}

impl Default for Pitch {
    fn default() -> (r: Self)
        ensures
            r@ == 60,
    {
        Pitch::middle_c()
    }
}

/// The written symbol of a note name (`"C"`, `"C#"`, … `"B"`).
pub open spec fn note_symbol(n: NoteName) -> Seq<char> {
    match n {
        NoteName::C => "C"@,
        NoteName::Cs => "C#"@,
        NoteName::D => "D"@,
        NoteName::Ds => "D#"@,
        NoteName::E => "E"@,
        NoteName::F => "F"@,
        NoteName::Fs => "F#"@,
        NoteName::G => "G"@,
        NoteName::Gs => "G#"@,
        NoteName::A => "A"@,
        NoteName::As => "A#"@,
        NoteName::B => "B"@,
    }
}

/// The written form of an octave number from -1 to 9.
pub open spec fn octave_text(o: int) -> Seq<char> {
    if o < 0 {
        seq!['-', '1']
    } else {
        seq![('0' as u32 + o) as char]
    }
}

impl NoteName {
    /// The written symbol of this note name.
    pub fn symbol(&self) -> (r: &'static str)
        ensures
            r@ == note_symbol(*self),
    {
        proof {
            reveal_strlit("C");
            reveal_strlit("C#");
            reveal_strlit("D");
            reveal_strlit("D#");
            reveal_strlit("E");
            reveal_strlit("F");
            reveal_strlit("F#");
            reveal_strlit("G");
            reveal_strlit("G#");
            reveal_strlit("A");
            reveal_strlit("A#");
            reveal_strlit("B");
        }
        match self {
            NoteName::C => "C",
            NoteName::Cs => "C#",
            NoteName::D => "D",
            NoteName::Ds => "D#",
            NoteName::E => "E",
            NoteName::F => "F",
            NoteName::Fs => "F#",
            NoteName::G => "G",
            NoteName::Gs => "G#",
            NoteName::A => "A",
            NoteName::As => "A#",
            NoteName::B => "B",
        }
    }
}

impl Pitch {
    /// The pitch written as note name and octave (`"C4"` for MIDI 60,
    /// `"A#-1"` for MIDI 10).
    pub fn label(&self) -> (r: String)
        ensures
            r@ == note_symbol(note_name_of(self@ as int)) + octave_text(spec_octave(self@ as int)),
    {
        let name = self.note_name();
        let octave = self.octave();
        let digits: [&str; 10] = ["0", "1", "2", "3", "4", "5", "6", "7", "8", "9"];
        proof {
            reveal_strlit("-1");
            reveal_strlit("0");
            reveal_strlit("1");
            reveal_strlit("2");
            reveal_strlit("3");
            reveal_strlit("4");
            reveal_strlit("5");
            reveal_strlit("6");
            reveal_strlit("7");
            reveal_strlit("8");
            reveal_strlit("9");
        }
        let text = String::from_str(name.symbol());
        if octave < 0 {
            proof {
                assert("-1"@ =~= octave_text(spec_octave(self@ as int)));
            }
            text.concat("-1")
        } else {
            let d = digits[octave as usize];
            proof {
                assert(d@ =~= octave_text(spec_octave(self@ as int)));
            }
            text.concat(d)
        }
    }
}

impl NoteName {
    /// Semitone index within the octave (C = 0 … B = 11).
    pub fn semitone(self) -> (r: u8)
        ensures
            r == note_index(self),
    {
        match self {
            NoteName::C => 0,
            NoteName::Cs => 1,
            NoteName::D => 2,
            NoteName::Ds => 3,
            NoteName::E => 4,
            NoteName::F => 5,
            NoteName::Fs => 6,
            NoteName::G => 7,
            NoteName::Gs => 8,
            NoteName::A => 9,
            NoteName::As => 10,
            NoteName::B => 11,
        }
    }

    /// Create from MIDI note number mod 12.
    pub fn from_midi(value: u8) -> (r: Self)
        ensures
            r == note_name_of(value as int),
            note_index(r) == value % 12,
    {
        match value % 12 {
            0 => NoteName::C,
            1 => NoteName::Cs,
            2 => NoteName::D,
            3 => NoteName::Ds,
            4 => NoteName::E,
            5 => NoteName::F,
            6 => NoteName::Fs,
            7 => NoteName::G,
            8 => NoteName::Gs,
            9 => NoteName::A,
            10 => NoteName::As,
            _ => NoteName::B,
        }
    }

    /// Check if this is a black key (sharp/flat).
    pub fn is_black_key(&self) -> (r: bool)
        ensures
            r == spec_is_black_key(*self),
    {
        match self {
            NoteName::Cs | NoteName::Ds | NoteName::Fs | NoteName::Gs | NoteName::As => true,
            _ => false,
        }
    }
}

/// Splitting a pitch into octave and note name and building it back gives the
/// same pitch.
pub proof fn lemma_octave_note_round_trip(p: Pitch)
    ensures
        ({
            let midi = (spec_octave(p@ as int) + 1) * 12 + note_index(note_name_of(p@ as int));
            midi == p@
        }),
{
}

/// A pitch built from an octave and note name reports that octave and note
/// name back.
pub proof fn lemma_from_octave_note_parts(octave: int, note: NoteName)
    requires
        0 <= (octave + 1) * 12 + note_index(note) <= 127,
    ensures
        ({
            let midi = (octave + 1) * 12 + note_index(note);
            &&& spec_octave(midi) == octave
            &&& note_name_of(midi) == note
        }),
{
    let midi = (octave + 1) * 12 + note_index(note);
    vstd::arithmetic::div_mod::lemma_fundamental_div_mod_converse(midi, 12, octave + 1, note_index(note));
}

/// The note name depends only on the MIDI number modulo 12.
pub proof fn lemma_note_name_periodic(v: int)
    requires
        v >= 0,
    ensures
        note_name_of(v + 12) == note_name_of(v),
        note_index(note_name_of(v)) == v % 12,
{
}

// ----------------------------------------------------------------------------
// Velocity
// ----------------------------------------------------------------------------

/// Note velocity on the 7-bit MIDI scale (0-127).
#[derive(Debug, Clone, Copy, PartialEq, Eq, PartialOrd, Ord, Hash, Structural)]
pub struct Velocity(u8);

impl View for Velocity {
    type V = u8;

    closed spec fn view(&self) -> u8 {
        self.0
    }
}

impl Velocity {
    #[verifier::type_invariant]
    closed spec fn inv(self) -> bool {
        self.0 <= 127
    }

    /// Create a velocity from a MIDI value, clamping to 127.
    pub fn from_midi(value: u8) -> (r: Self)
        ensures
            r@ == if value <= 127 { value } else { 127 },
    {
        Velocity(if value <= 127 { value } else { 127 })
    }

    /// The MIDI value (0-127).
    pub fn to_midi(&self) -> (r: u8)
        ensures
            r == self@,
            r <= 127,
    {
        proof {
            use_type_invariant(self);
        }
        self.0
    }

    /// Mezzo-forte, the default playing strength (MIDI 80).
    pub fn mf() -> (r: Self)
        ensures
            r@ == 80,
    {
        Velocity(80)
    }

    /// Full strength (MIDI 127).
    pub fn max_velocity() -> (r: Self)
        ensures
            r@ == 127,
    {
        Velocity(127)
    }
}

impl Default for Velocity {
    fn default() -> (r: Self)
        ensures
            r@ == 80,
    {
        Velocity::mf()
    }
}

} // verus!
