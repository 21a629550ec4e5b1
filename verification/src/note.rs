//! Note storage type.
//!
//! Notes are stored with start time and duration, not as separate on/off
//! events.
use vstd::prelude::*;

use crate::ids::{NoteId, TrackId};
use crate::pitch::{Pitch, Velocity};
use crate::time::{Duration, PatternTick};

verus! {

/// Interpolation type for a per-note glide.
#[derive(Debug, Clone, Copy, PartialEq, Eq, Structural)]
pub enum GlideInterp {
    /// Continuous portamento (smooth pitch ramp).
    Continuous,
    /// Stepped glissando (quantized to semitones).
    Stepped,
}

impl Default for GlideInterp {
    fn default() -> (r: Self)
        ensures
            r == GlideInterp::Continuous,
    {
        GlideInterp::Continuous
    }
}

/// LFO shape for per-note vibrato.
#[derive(Debug, Clone, Copy, PartialEq, Eq, Structural)]
pub enum VibratoShape {
    /// Sine (the natural vibrato shape).
    Sine,
    /// Triangle.
    Triangle,
    /// Square (trill-like).
    Square,
    /// Sawtooth (ramp).
    Saw,
}

impl Default for VibratoShape {
    fn default() -> (r: Self)
        ensures
            r == VibratoShape::Sine,
    {
        VibratoShape::Sine
    }
}

/// A Unicode `White_Space` character (what `str::trim` strips).
pub open spec fn is_white(c: char) -> bool {
    let u = c as u32;
    (9 <= u <= 13) || u == 32 || u == 0x85 || u == 0xA0 || u == 0x1680 || (0x2000 <= u <= 0x200A)
        || u == 0x2028 || u == 0x2029 || u == 0x202F || u == 0x205F || u == 0x3000
}

/// `s` without its leading white space.
pub open spec fn trim_start(s: Seq<char>) -> Seq<char>
    decreases s.len(),
{
    if s.len() > 0 && is_white(s[0]) {
        trim_start(s.drop_first())
    } else {
        s
    }
}

/// `s` without its trailing white space.
pub open spec fn trim_end(s: Seq<char>) -> Seq<char>
    decreases s.len(),
{
    if s.len() > 0 && is_white(s.last()) {
        trim_end(s.drop_last())
    } else {
        s
    }
}

/// `s` without leading and trailing white space.
pub open spec fn trimmed(s: Seq<char>) -> Seq<char> {
    trim_end(trim_start(s))
}

/// The code point of `c` with ASCII upper case folded to lower case.
pub open spec fn ascii_lower(c: char) -> u32 {
    let u = c as u32;
    if 65 <= u <= 90 {
        (u + 32) as u32
    } else {
        u
    }
}

/// `s` spells the lower-case ASCII word `w`, ignoring ASCII case.
pub open spec fn spells(s: Seq<char>, w: Seq<char>) -> bool {
    s.len() == w.len() && forall|i: int| 0 <= i < s.len() ==> ascii_lower(s[i]) == w[i] as u32
}

/// The vibrato shape a (trimmed) token names: `sine`/`sin`,
/// `triangle`/`tri`, `square`/`sqr`, `saw`/`sawtooth`, in any ASCII case.
pub open spec fn shape_named(t: Seq<char>) -> Option<VibratoShape> {
    if spells(t, seq!['s', 'i', 'n', 'e']) || spells(t, seq!['s', 'i', 'n']) {
        Some(VibratoShape::Sine)
    } else if spells(t, seq!['t', 'r', 'i', 'a', 'n', 'g', 'l', 'e']) || spells(
        t,
        seq!['t', 'r', 'i'],
    ) {
        Some(VibratoShape::Triangle)
    } else if spells(t, seq!['s', 'q', 'u', 'a', 'r', 'e']) || spells(t, seq!['s', 'q', 'r']) {
        Some(VibratoShape::Square)
    } else if spells(t, seq!['s', 'a', 'w']) || spells(
        t,
        seq!['s', 'a', 'w', 't', 'o', 'o', 't', 'h'],
    ) {
        Some(VibratoShape::Saw)
    } else {
        None
    }
}

/// Whether `c` is Unicode white space.
fn char_is_white(c: char) -> (b: bool)
    ensures
        b == is_white(c),
{
    let u = c as u32;
    (9 <= u && u <= 13) || u == 32 || u == 0x85 || u == 0xA0 || u == 0x1680 || (0x2000 <= u && u
        <= 0x200A) || u == 0x2028 || u == 0x2029 || u == 0x202F || u == 0x205F || u == 0x3000
}

proof fn lemma_trim_start_from(s: Seq<char>, lo: int)
    requires
        0 <= lo <= s.len(),
        forall|i: int| 0 <= i < lo ==> is_white(s[i]),
    ensures
        trim_start(s) == trim_start(s.subrange(lo, s.len() as int)),
    decreases lo,
{
    if lo > 0 {
        lemma_trim_start_from(s.drop_first(), lo - 1);
        assert(s.drop_first().subrange(lo - 1, s.drop_first().len() as int) =~= s.subrange(
            lo,
            s.len() as int,
        ));
    } else {
        assert(s.subrange(0, s.len() as int) =~= s);
    }
}

proof fn lemma_trim_end_to(s: Seq<char>, hi: int)
    requires
        0 <= hi <= s.len(),
        forall|i: int| hi <= i < s.len() ==> is_white(s[i]),
    ensures
        trim_end(s) == trim_end(s.subrange(0, hi)),
    decreases s.len() - hi,
{
    if hi < s.len() {
        lemma_trim_end_to(s.drop_last(), hi);
        assert(s.drop_last().subrange(0, hi) =~= s.subrange(0, hi));
    } else {
        assert(s.subrange(0, hi) =~= s);
    }
}

/// Whether the characters `lo..hi` of `t` spell the lower-case word `w`,
/// ignoring ASCII case.
fn spells_word(t: &str, lo: usize, hi: usize, w: &Vec<char>) -> (b: bool)
    requires
        lo <= hi <= t@.len(),
    ensures
        b == spells(t@.subrange(lo as int, hi as int), w@),
{
    if hi - lo != w.len() {
        return false;
    }
    let mut i: usize = 0;
    while i < w.len()
        invariant
            hi - lo == w.len(),
            lo <= hi <= t@.len(),
            i <= w.len(),
            forall|k: int| 0 <= k < i ==> ascii_lower(t@[lo + k]) == w@[k] as u32,
        decreases w.len() - i,
    {
        let c = t.get_char(lo + i);
        let u = c as u32;
        let lower: u32 = if 65 <= u && u <= 90 {
            u + 32
        } else {
            u
        };
        if lower != w[i] as u32 {
            return false;
        }
        i += 1;
    }
    true
}

impl VibratoShape {
    /// Parse a forgiving shape token, `None` for an unrecognized one (so a
    /// boundary can reject typos rather than silently coercing to sine).
    /// Surrounding white space and ASCII case are ignored.
    pub fn from_token(token: &str) -> (r: Option<Self>)
        ensures
            r == shape_named(trimmed(token@)),
    {
        let n = token.unicode_len();
        let mut lo: usize = 0;
        while lo < n && char_is_white(token.get_char(lo))
            invariant
                n == token@.len(),
                lo <= n,
                forall|i: int| 0 <= i < lo ==> is_white(token@[i]),
            decreases n - lo,
        {
            lo += 1;
        }
        let mut hi: usize = n;
        while hi > lo && char_is_white(token.get_char(hi - 1))
            invariant
                n == token@.len(),
                lo <= hi <= n,
                forall|i: int| hi <= i < n ==> is_white(token@[i]),
            decreases hi,
        {
            hi -= 1;
        }
        proof {
            lemma_trim_start_from(token@, lo as int);
            let rest = token@.subrange(lo as int, n as int);
            assert(!(rest.len() > 0 && is_white(rest[0])));
            assert(trim_start(token@) == rest);
            lemma_trim_end_to(rest, hi - lo);
            assert(rest.subrange(0, hi - lo) =~= token@.subrange(lo as int, hi as int));
            let t = token@.subrange(lo as int, hi as int);
            assert(!(t.len() > 0 && is_white(t.last())));
            assert(trimmed(token@) == t);
        }
        if spells_word(token, lo, hi, &vec!['s', 'i', 'n', 'e']) || spells_word(
            token,
            lo,
            hi,
            &vec!['s', 'i', 'n'],
        ) {
            Some(VibratoShape::Sine)
        } else if spells_word(token, lo, hi, &vec!['t', 'r', 'i', 'a', 'n', 'g', 'l', 'e'])
            || spells_word(token, lo, hi, &vec!['t', 'r', 'i']) {
            Some(VibratoShape::Triangle)
        } else if spells_word(token, lo, hi, &vec!['s', 'q', 'u', 'a', 'r', 'e']) || spells_word(
            token,
            lo,
            hi,
            &vec!['s', 'q', 'r'],
        ) {
            Some(VibratoShape::Square)
        } else if spells_word(token, lo, hi, &vec!['s', 'a', 'w']) || spells_word(
            token,
            lo,
            hi,
            &vec!['s', 'a', 'w', 't', 'o', 'o', 't', 'h'],
        ) {
            Some(VibratoShape::Saw)
        } else {
            None
        }
    }
}

/// How the gaps between an ornament's hits evolve across the figure.
#[derive(Debug, Clone, Copy, PartialEq, Eq, Structural)]
pub enum OrnamentSpacing {
    /// Even gaps (a metronomic roll).
    Even,
    /// Gaps shrink across the figure (the ornament speeds up).
    Accelerate,
    /// Gaps grow across the figure (the ornament opens up).
    Decelerate,
}

impl Default for OrnamentSpacing {
    fn default() -> (r: Self)
        ensures
            r == OrnamentSpacing::Even,
    {
        OrnamentSpacing::Even
    }
}

/// How hit velocity evolves across an ornament's figure.
#[derive(Debug, Clone, Copy, PartialEq, Eq, Structural)]
pub enum OrnamentDynamics {
    /// Every hit at the source velocity.
    Flat,
    /// Velocity rises from a floor to the source velocity across the figure.
    Crescendo,
    /// Velocity falls from the source velocity to a floor across the figure.
    Decrescendo,
}

impl Default for OrnamentDynamics {
    fn default() -> (r: Self)
        ensures
            r == OrnamentDynamics::Flat,
    {
        OrnamentDynamics::Flat
    }
}

/// Where an ornament's figure sits relative to the note's start tick.
#[derive(Debug, Clone, Copy, PartialEq, Eq, Structural)]
pub enum OrnamentPlacement {
    /// Grace hits precede the beat; the main hit lands exactly on the start.
    LeadIn,
    /// The main hit is on the beat; grace hits follow it.
    OnBeat,
}

impl Default for OrnamentPlacement {
    fn default() -> (r: Self)
        ensures
            r == OrnamentPlacement::LeadIn,
    {
        OrnamentPlacement::LeadIn
    }
}

/// A note in a pattern: when it starts, how long it lasts, what it plays and
/// how hard. (Glide, expression and ornament blocks, which carry real-valued
/// parameters, ride alongside the note in the application layer.)
#[derive(Debug, Clone, Copy, PartialEq, Eq, Structural)]
pub struct Note {
    /// Unique ID for this note (for editing/selection).
    pub id: NoteId,
    /// Start position within the pattern.
    pub start: PatternTick,
    /// Duration in ticks (`None` = plays until cut).
    pub duration: Option<Duration>,
    /// Pitch.
    pub pitch: Pitch,
    /// Velocity/attack strength.
    pub velocity: Velocity,
    /// Track/channel for mono-per-track behavior.
    pub track: Option<TrackId>,
    /// Tie / legato intent.
    pub legato: bool,
}

/// The end tick of a note (`None` when it has no duration), unbounded.
pub open spec fn note_end(n: Note) -> Option<int> {
    match n.duration {
        Some(d) => Some(n.start.0 + d.0),
        None => None,
    }
}

/// A note sounds at `tick`: it has started and not yet ended.
pub open spec fn plays_at(n: Note, tick: int) -> bool {
    tick >= n.start.0 && match note_end(n) {
        Some(e) => tick < e,
        None => true,
    }
}

/// A note overlaps the range `[start, end)`; a note without duration reaches
/// to the end of the tick range.
pub open spec fn overlaps_range(n: Note, start: int, end: int) -> bool {
    let e = match note_end(n) {
        Some(e) => e,
        None => u32::MAX as int,
    };
    n.start.0 < end && e > start
}

impl Note {
    /// Create a new note without duration, track or legato.
    pub fn new(id: NoteId, start: PatternTick, pitch: Pitch, velocity: Velocity) -> (n: Self)
        ensures
            n == (Note {
                id,
                start,
                duration: None,
                pitch,
                velocity,
                track: None,
                legato: false,
            }),
    {
        Note { id, start, duration: None, pitch, velocity, track: None, legato: false }
    }

    /// Set the duration (builder pattern).
    pub fn with_duration(self, duration: Duration) -> (n: Self)
        ensures
            n == (Note { duration: Some(duration), ..self }),
    {
        Note { duration: Some(duration), ..self }
    }

    /// Set the track (builder pattern).
    pub fn with_track(self, track: TrackId) -> (n: Self)
        ensures
            n == (Note { track: Some(track), ..self }),
    {
        Note { track: Some(track), ..self }
    }

    /// Set the legato/tie flag (builder pattern).
    pub fn with_legato(self, legato: bool) -> (n: Self)
        ensures
            n == (Note { legato, ..self }),
    {
        Note { legato, ..self }
    }

    /// Get the end tick (None if duration is None).
    pub fn end(&self) -> (r: Option<PatternTick>)
        requires
            note_end(*self) matches Some(e) ==> e <= u32::MAX,
        ensures
            r == match note_end(*self) {
                Some(e) => Some(PatternTick(e as u32)),
                None => None,
            },
    {
        match self.duration {
            Some(d) => Some(PatternTick(self.start.0 + d.0)),
            None => None,
        }
    }

    /// Check if the note is playing at the given tick.
    pub fn is_playing_at(&self, tick: PatternTick) -> (b: bool)
        ensures
            b == plays_at(*self, tick.0 as int),
    {
        if tick.0 < self.start.0 {
            return false;
        }
        match self.duration {
            Some(d) => (tick.0 as u64) < self.start.0 as u64 + d.0 as u64,
            None => true,
        }
    }

    /// Check if this note overlaps with another time range.
    pub fn overlaps(&self, start: PatternTick, end: PatternTick) -> (b: bool)
        ensures
            b == overlaps_range(*self, start.0 as int, end.0 as int),
    {
        let note_end: u64 = match self.duration {
            Some(d) => self.start.0 as u64 + d.0 as u64,
            None => u32::MAX as u64,
        };
        self.start.0 < end.0 && note_end > start.0 as u64
    }
}

} // verus!
