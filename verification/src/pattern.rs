//! Pattern storage and manipulation.
use vstd::prelude::*;

use crate::ids::{NoteGraphId, NoteId, PatternId, RowCount, RowIndex, TicksPerRow};
use crate::note::{note_end, plays_at, Note};
use crate::pitch::{Pitch, Velocity};
use crate::time::{Duration, PatternTick};

verus! {

// ============================================================================
// RowResolution - grid timing configuration
// ============================================================================

/// `tick` rounded to the nearest multiple of `tpr` (halfway rounds up).
pub open spec fn quantized(tick: int, tpr: int) -> int {
    ((tick + tpr / 2) / tpr) * tpr
}

/// Row resolution configuration for pattern view.
#[derive(Debug, Clone, Copy, PartialEq, Eq, Structural)]
pub struct RowResolution {
    /// Number of rows in this pattern.
    pub rows: RowCount,
    /// Ticks per row.
    pub ticks_per_row: TicksPerRow,
}

impl RowResolution {
    /// Standard: 64 rows of 240 ticks (4 bars of 4/4).
    pub fn standard_64() -> (r: Self)
        ensures
            r.rows@ == 64,
            r.ticks_per_row@ == 240,
    {
        RowResolution { rows: RowCount::new(64), ticks_per_row: TicksPerRow::new(240) }
    }

    /// Short pattern: 16 rows of 240 ticks.
    pub fn short_16() -> (r: Self)
        ensures
            r.rows@ == 16,
            r.ticks_per_row@ == 240,
    {
        RowResolution { rows: RowCount::new(16), ticks_per_row: TicksPerRow::new(240) }
    }

    /// High resolution: 128 rows of 120 ticks.
    pub fn high_128() -> (r: Self)
        ensures
            r.rows@ == 128,
            r.ticks_per_row@ == 120,
    {
        RowResolution { rows: RowCount::new(128), ticks_per_row: TicksPerRow::new(120) }
    }

    /// Custom resolution.
    pub fn custom(rows: RowCount, ticks_per_row: TicksPerRow) -> (r: Self)
        ensures
            r.rows == rows,
            r.ticks_per_row == ticks_per_row,
    {
        RowResolution { rows, ticks_per_row }
    }

    /// Pattern length in ticks: rows × ticks per row.
    pub fn total_ticks(&self) -> (d: Duration)
        ensures
            d.0 == self.rows@ * self.ticks_per_row@,
    {
        let rows = self.rows.as_u16() as u32;
        let tpr = self.ticks_per_row.as_u32();
        assert(rows * tpr <= 65535 * 65535) by (nonlinear_arith)
            requires
                rows <= 65535,
                tpr <= 65535,
        ;
        Duration(rows * tpr)
    }

    /// Convert row to tick.
    pub fn row_to_tick(&self, row: RowIndex) -> (t: PatternTick)
        ensures
            t.0 == row@ * self.ticks_per_row@,
    {
        let r = row.as_u32();
        let tpr = self.ticks_per_row.as_u32();
        assert(r * tpr <= 65535 * 65535) by (nonlinear_arith)
            requires
                r <= 65535,
                tpr <= 65535,
        ;
        PatternTick(r * tpr)
    }

    /// Convert tick to row (rounded down; the row number wraps at 16 bits).
    pub fn tick_to_row(&self, tick: PatternTick) -> (r: RowIndex)
        requires
            self.ticks_per_row@ > 0,
        ensures
            r@ == (tick.0 / (self.ticks_per_row@ as u32)) % 0x10000,
    {
        let q = tick.0 / self.ticks_per_row.as_u32();
        RowIndex::new((q % 0x10000) as u16)
    }

    /// Quantize tick to nearest row (a tick halfway between rows rounds up).
    pub fn quantize(&self, tick: PatternTick) -> (r: PatternTick)
        requires
            self.ticks_per_row@ > 0,
            tick.0 + self.ticks_per_row@ / 2 <= u32::MAX,
        ensures
            r.0 == quantized(tick.0 as int, self.ticks_per_row@ as int),
    {
        let tpr = self.ticks_per_row.as_u32();
        let row = (tick.0 + tpr / 2) / tpr;
        let sum: u32 = tick.0 + tpr / 2;
        assert(row * tpr <= sum) by (nonlinear_arith)
            requires
                row == sum / tpr,
                tpr > 0,
        ;
        PatternTick(row * tpr)
    }
}

impl Default for RowResolution {
    fn default() -> (r: Self)
        ensures
            r.rows@ == 64,
            r.ticks_per_row@ == 240,
    {
        RowResolution::standard_64()
    }
}

/// Quantizing lands on the row grid, at most half a row away from the
/// original tick; quantizing twice changes nothing; and it keeps the order
/// of ticks.
pub proof fn lemma_quantize_grid(tick: int, other: int, tpr: int)
    requires
        tpr > 0,
        tick >= 0,
        other >= tick,
    ensures
        quantized(tick, tpr) % tpr == 0,
        tick - tpr / 2 <= quantized(tick, tpr) <= tick + tpr / 2,
        quantized(quantized(tick, tpr), tpr) == quantized(tick, tpr),
        quantized(tick, tpr) <= quantized(other, tpr),
{
    let h = tpr / 2;
    let q = (tick + h) / tpr;
    let m = (tick + h) % tpr;
    assert(quantized(tick, tpr) == q * tpr);
    vstd::arithmetic::div_mod::lemma_fundamental_div_mod(tick + h, tpr);
    vstd::arithmetic::mul::lemma_mul_is_commutative(q, tpr);
    assert((q * tpr) % tpr == 0) by {
        vstd::arithmetic::div_mod::lemma_mod_multiples_basic(q, tpr);
    }
    vstd::arithmetic::div_mod::lemma_mod_bound(tick + h, tpr);
    assert(tick + h == q * tpr + m);
    assert(0 <= m < tpr);
    assert(tick + h - tpr < q * tpr <= tick + h);
    assert(h <= tpr - 1 - h + 1);
    assert((q * tpr + h) / tpr == q) by {
        vstd::arithmetic::div_mod::lemma_fundamental_div_mod_converse(q * tpr + h, tpr, q, h);
    }
    assert((tick + h) / tpr <= (other + h) / tpr) by {
        vstd::arithmetic::div_mod::lemma_div_is_ordered(tick + h, other + h, tpr);
    }
    assert(q * tpr <= ((other + h) / tpr) * tpr) by {
        vstd::arithmetic::mul::lemma_mul_inequality(q, (other + h) / tpr, tpr);
    }
}

// ============================================================================
// Pattern
// ============================================================================

/// The notes are ordered by start tick.
pub open spec fn starts_sorted(s: Seq<Note>) -> bool {
    forall|i: int, j: int| 0 <= i < j < s.len() ==> s[i].start.0 <= s[j].start.0
}

/// Where a note starting at `start` is inserted: after every note starting
/// at or before it.
pub open spec fn insert_point(s: Seq<Note>, start: int) -> int
    decreases s.len(),
{
    if s.len() == 0 {
        0
    } else if s.last().start.0 <= start {
        s.len() as int
    } else {
        insert_point(s.drop_last(), start)
    }
}

/// Some note has this id.
pub open spec fn has_note(s: Seq<Note>, id: NoteId) -> bool {
    exists|i: int| 0 <= i < s.len() && s[i].id == id
}

/// The position of the note with this id (the first, when several share it).
pub open spec fn note_pos(s: Seq<Note>, id: NoteId) -> int {
    choose|i: int| 0 <= i < s.len() && s[i].id == id && forall|k: int| 0 <= k < i ==> s[k].id != id
}

/// Removing the note `add_note` or `insert_note` just added undoes the add:
/// when no note had its id, the added note is the one found by its id, and
/// removing it gives the notes back.
pub proof fn lemma_add_then_remove_restores(s: Seq<Note>, q: int, n: Note)
    requires
        0 <= q <= s.len(),
        !has_note(s, n.id),
    ensures
        has_note(s.insert(q, n), n.id),
        note_pos(s.insert(q, n), n.id) == q,
        s.insert(q, n).remove(q) == s,
{
    let t = s.insert(q, n);
    assert(t[q].id == n.id);
    assert forall|k: int| 0 <= k < q implies t[k].id != n.id by {
        assert(t[k] == s[k]);
    }
    assert forall|k: int| q < k < t.len() implies t[k].id != n.id by {
        assert(t[k] == s[k - 1]);
    }
    let i = note_pos(t, n.id);
    assert(0 <= i < t.len() && t[i].id == n.id);
    assert(t.remove(q) =~= s);
}

/// The notes that sound in `[start, end)`: they start before `end`, and end
/// after `start` (or have no end).
pub open spec fn in_window(n: Note, start: int, end: int) -> bool {
    n.start.0 < end && match note_end(n) {
        Some(e) => e > start,
        None => true,
    }
}

/// A note of non-zero length is in a non-empty range `[start, end)` exactly
/// when it sounds at some tick of the range; any note still sounding at
/// `start` is in it, however early it started; and a note that ends by
/// `start` or starts at or after `end` is not.
pub proof fn lemma_in_window_iff_sounds(n: Note, start: int, end: int)
    requires
        start < end,
    ensures
        (n.duration matches Some(d) ==> d.0 > 0) ==> (in_window(n, start, end) <==> exists|t: int|
            start <= t < end && #[trigger] plays_at(n, t)),
        plays_at(n, start) ==> in_window(n, start, end),
        (note_end(n) matches Some(e) && e <= start) ==> !in_window(n, start, end),
        n.start.0 >= end ==> !in_window(n, start, end),
{
    if in_window(n, start, end) && (n.duration matches Some(d) ==> d.0 > 0) {
        let t = if n.start.0 <= start { start } else { n.start.0 as int };
        assert(plays_at(n, t));
    }
    if exists|t: int| start <= t < end && #[trigger] plays_at(n, t) {
        let t = choose|t: int| start <= t < end && #[trigger] plays_at(n, t);
        assert(in_window(n, start, end));
    }
}

/// Where a note goes among notes sorted by start: after every note starting
/// at or before it and before every later one, so inserting it there keeps
/// the notes sorted by start.
pub proof fn lemma_insert_point_splits(s: Seq<Note>, note: Note)
    requires
        starts_sorted(s),
    ensures
        ({
            let p = insert_point(s, note.start.0 as int);
            &&& 0 <= p <= s.len()
            &&& forall|k: int| 0 <= k < p ==> (#[trigger] s[k]).start.0 <= note.start.0
            &&& forall|k: int| p <= k < s.len() ==> (#[trigger] s[k]).start.0 > note.start.0
            &&& starts_sorted(s.insert(p, note))
        }),
{
    lemma_split_facts(s, note.start.0 as int);
    let p = insert_point(s, note.start.0 as int);
    let t = s.insert(p, note);
    assert forall|i: int, j: int| 0 <= i < j < t.len() implies t[i].start.0 <= t[j].start.0 by {
        if j < p {
            assert(t[i] == s[i] && t[j] == s[j]);
        } else if i > p {
            assert(t[i] == s[i - 1] && t[j] == s[j - 1]);
        } else if i == p {
            assert(t[i] == note && t[j] == s[j - 1]);
        } else if j == p {
            assert(t[i] == s[i] && t[j] == note);
        } else {
            assert(t[i] == s[i] && t[j] == s[j - 1]);
        }
    }
}

proof fn lemma_split_facts(s: Seq<Note>, start: int)
    requires
        starts_sorted(s),
    ensures
        0 <= insert_point(s, start) <= s.len(),
        forall|k: int| 0 <= k < insert_point(s, start) ==> (#[trigger] s[k]).start.0 <= start,
        forall|k: int| insert_point(s, start) <= k < s.len() ==> (#[trigger] s[k]).start.0 > start,
    decreases s.len(),
{
    if s.len() > 0 {
        if s.last().start.0 <= start {
            assert forall|k: int| 0 <= k < s.len() implies (#[trigger] s[k]).start.0 <= start by {
                if k < s.len() - 1 {
                    assert(s[k].start.0 <= s[s.len() - 1].start.0);
                }
            }
        } else {
            let d = s.drop_last();
            assert(starts_sorted(d));
            lemma_split_facts(d, start);
            let p = insert_point(s, start);
            assert(p == insert_point(d, start));
            assert forall|k: int| 0 <= k < p implies (#[trigger] s[k]).start.0 <= start by {
                assert(s[k] == d[k]);
            }
            assert forall|k: int| p <= k < s.len() implies (#[trigger] s[k]).start.0 > start by {
                if k < s.len() - 1 {
                    assert(s[k] == d[k]);
                }
            }
        }
    }
}

/// A note starting no earlier than every note of `s` is inserted at the end.
pub proof fn lemma_insert_at_end(s: Seq<Note>, start: int)
    requires
        forall|k: int| 0 <= k < s.len() ==> (#[trigger] s[k]).start.0 <= start,
    ensures
        insert_point(s, start) == s.len(),
{
}

proof fn lemma_insert_point(s: Seq<Note>, start: int, p: int)
    requires
        starts_sorted(s),
        0 <= p <= s.len(),
        forall|k: int| 0 <= k < p ==> s[k].start.0 <= start,
        forall|k: int| p <= k < s.len() ==> s[k].start.0 > start,
    ensures
        insert_point(s, start) == p,
    decreases s.len(),
{
    if s.len() > 0 && p < s.len() {
        lemma_insert_point(s.drop_last(), start, p);
    }
}

/// Two patterns agree on their id, name, length, notes and next note id.
pub open spec fn same_pattern_but_binding(a: Pattern, b: Pattern) -> bool {
    &&& a.spec_id() == b.spec_id()
    &&& a.spec_name() == b.spec_name()
    &&& a.spec_length() == b.spec_length()
    &&& a.note_seq() == b.note_seq()
    &&& a.next_id_value() == b.next_id_value()
}

/// Two patterns agree on their id, name, length, notes, next note id and
/// graph binding.
pub open spec fn same_pattern(a: Pattern, b: Pattern) -> bool {
    &&& same_pattern_but_binding(a, b)
    &&& a.spec_note_graph() == b.spec_note_graph()
}

/// A pattern: a name, a length, and notes kept in start order, each with an
/// id no other note of the pattern has.
pub struct Pattern {
    id: PatternId,
    name: String,
    description: String,
    length: Duration,
    notes: Vec<Note>,
    next_note_id: u64,
    note_graph: Option<NoteGraphId>,
}

impl Pattern {
    #[verifier::type_invariant]
    spec fn inv(self) -> bool {
        &&& starts_sorted(self.notes@)
        &&& forall|i: int| 0 <= i < self.notes@.len() ==> self.notes@[i].id.0 < self.next_note_id
        &&& forall|i: int, j: int|
            0 <= i < j < self.notes@.len() ==> self.notes@[i].id != self.notes@[j].id
    }

    /// The notes, in start order.
    pub closed spec fn note_seq(&self) -> Seq<Note> {
        self.notes@
    }

    /// The id the next added note receives.
    pub closed spec fn next_id_value(&self) -> u64 {
        self.next_note_id
    }

    pub closed spec fn spec_id(&self) -> PatternId {
        self.id
    }

    pub closed spec fn spec_name(&self) -> Seq<char> {
        self.name@
    }

    pub closed spec fn spec_length(&self) -> Duration {
        self.length
    }

    /// The free-text description.
    pub closed spec fn spec_description(&self) -> Seq<char> {
        self.description@
    }

    /// The pooled Note Grid graph this pattern is bound to, if any.
    pub closed spec fn spec_note_graph(&self) -> Option<NoteGraphId> {
        self.note_graph
    }

    /// Create a new empty pattern.
    pub fn new(id: PatternId, length: Duration) -> (p: Self)
        ensures
            p.spec_id() == id,
            p.spec_length() == length,
            p.spec_name().len() == 0,
            p.note_seq().len() == 0,
            p.next_id_value() == 0,
            p.spec_note_graph() is None,
    {
        Pattern {
            id,
            name: String::new(),
            description: String::new(),
            length,
            notes: Vec::new(),
            next_note_id: 0,
            note_graph: None,
        }
    }

    /// Set the name (builder pattern).
    pub fn with_name(self, name: String) -> (p: Self)
        ensures
            p.spec_description() == self.spec_description(),
            p.spec_note_graph() == self.spec_note_graph(),
            p.spec_name() == name@,
            p.spec_id() == self.spec_id(),
            p.spec_length() == self.spec_length(),
            p.note_seq() == self.note_seq(),
            p.next_id_value() == self.next_id_value(),
    {
        proof {
            use_type_invariant(&self);
        }
        Pattern { name, ..self }
    }

    /// Unique identifier.
    pub fn id(&self) -> (r: PatternId)
        ensures
            r == self.spec_id(),
    {
        self.id
    }

    /// Pattern name.
    pub fn name(&self) -> (r: &String)
        ensures
            r@ == self.spec_name(),
    {
        &self.name
    }

    /// Rename the pattern.
    pub fn set_name(&mut self, name: String)
        ensures
            final(self).spec_description() == old(self).spec_description(),
            final(self).spec_note_graph() == old(self).spec_note_graph(),
            final(self).spec_name() == name@,
            final(self).spec_id() == old(self).spec_id(),
            final(self).spec_length() == old(self).spec_length(),
            final(self).note_seq() == old(self).note_seq(),
            final(self).next_id_value() == old(self).next_id_value(),
    {
        proof {
            use_type_invariant(&*self);
        }
        self.name = name;
    }

    /// Free-text description capturing intent.
    pub fn description(&self) -> (r: &String)
        ensures
            r@ == self.spec_description(),
    {
        &self.description
    }

    /// Replace the description.
    pub fn set_description(&mut self, description: String)
        ensures
            final(self).spec_description() == description@,
            final(self).spec_note_graph() == old(self).spec_note_graph(),
            final(self).spec_name() == old(self).spec_name(),
            final(self).spec_id() == old(self).spec_id(),
            final(self).spec_length() == old(self).spec_length(),
            final(self).note_seq() == old(self).note_seq(),
            final(self).next_id_value() == old(self).next_id_value(),
    {
        proof {
            use_type_invariant(&*self);
        }
        self.description = description;
    }

    /// Length in ticks.
    pub fn length(&self) -> (r: Duration)
        ensures
            r == self.spec_length(),
    {
        self.length
    }

    /// Change the length.
    pub fn set_length(&mut self, length: Duration)
        ensures
            final(self).spec_description() == old(self).spec_description(),
            final(self).spec_note_graph() == old(self).spec_note_graph(),
            final(self).spec_length() == length,
            final(self).spec_name() == old(self).spec_name(),
            final(self).spec_id() == old(self).spec_id(),
            final(self).note_seq() == old(self).note_seq(),
            final(self).next_id_value() == old(self).next_id_value(),
    {
        proof {
            use_type_invariant(&*self);
        }
        self.length = length;
    }

    /// The pooled Note Grid graph the pattern plays through, if bound.
    pub fn note_graph(&self) -> (r: Option<NoteGraphId>)
        ensures
            r == self.spec_note_graph(),
    {
        self.note_graph
    }

    /// Bind the pattern to a pooled Note Grid graph, or unbind it with `None`.
    pub fn set_note_graph(&mut self, graph: Option<NoteGraphId>)
        ensures
            final(self).spec_description() == old(self).spec_description(),
            final(self).spec_note_graph() == graph,
            final(self).spec_name() == old(self).spec_name(),
            final(self).spec_id() == old(self).spec_id(),
            final(self).spec_length() == old(self).spec_length(),
            final(self).note_seq() == old(self).note_seq(),
            final(self).next_id_value() == old(self).next_id_value(),
    {
        proof {
            use_type_invariant(&*self);
        }
        self.note_graph = graph;
    }

    /// Every pattern keeps its notes in start order with distinct ids, all
    /// below the next id it hands out.
    pub fn check_invariant(&self)
        ensures
            starts_sorted(self.note_seq()),
            forall|i: int|
                0 <= i < self.note_seq().len() ==> self.note_seq()[i].id.0 < self.next_id_value(),
            forall|i: int, j: int|
                0 <= i < j < self.note_seq().len() ==> self.note_seq()[i].id
                    != self.note_seq()[j].id,
    {
        proof {
            use_type_invariant(self);
        }
    }

    /// The insertion point for a note starting at `start`.
    fn partition_point(notes: &Vec<Note>, start: PatternTick) -> (p: usize)
        requires
            starts_sorted(notes@),
        ensures
            p == insert_point(notes@, start.0 as int),
            p <= notes@.len(),
            forall|k: int| 0 <= k < p ==> notes@[k].start.0 <= start.0,
            forall|k: int| p <= k < notes@.len() ==> notes@[k].start.0 > start.0,
    {
        let mut p: usize = 0;
        while p < notes.len() && notes[p].start.0 <= start.0
            invariant
                p <= notes.len(),
                starts_sorted(notes@),
                forall|k: int| 0 <= k < p ==> notes@[k].start.0 <= start.0,
            decreases notes.len() - p,
        {
            p += 1;
        }
        proof {
            assert forall|k: int| p <= k < notes@.len() implies notes@[k].start.0 > start.0 by {
                assert(notes@[p as int].start.0 <= notes@[k].start.0);
            }
            lemma_insert_point(notes@, start.0 as int, p as int);
        }
        p
    }

    /// Insert `note` at its start-order position (after any notes starting at
    /// the same tick), giving it the next id. Returns that id.
    fn place(&mut self, note: Note) -> (id: NoteId)
        requires
            old(self).next_id_value() < u64::MAX,
        ensures
            final(self).spec_description() == old(self).spec_description(),
            final(self).spec_note_graph() == old(self).spec_note_graph(),
            id.0 == old(self).next_id_value(),
            final(self).next_id_value() == old(self).next_id_value() + 1,
            final(self).note_seq() == old(self).note_seq().insert(
                insert_point(old(self).note_seq(), note.start.0 as int),
                Note { id, ..note },
            ),
            final(self).spec_id() == old(self).spec_id(),
            final(self).spec_name() == old(self).spec_name(),
            final(self).spec_length() == old(self).spec_length(),
    {
        proof {
            use_type_invariant(&*self);
        }
        let id = NoteId::new(self.next_note_id);
        let placed = Note { id, ..note };
        let pos = Self::partition_point(&self.notes, note.start);
        let ghost old_notes = self.notes@;
        let mut notes: Vec<Note> = Vec::new();
        std::mem::swap(&mut notes, &mut self.notes);
        notes.insert(pos, placed);
        proof {
            assert forall|i: int, j: int| 0 <= i < j < notes@.len() implies notes@[i].start.0
                <= notes@[j].start.0 by {
                if j < pos {
                } else if i < pos && j == pos {
                } else if i < pos {
                    assert(notes@[j] == old_notes[j - 1]);
                } else if i == pos {
                    assert(notes@[j] == old_notes[j - 1]);
                    assert(old_notes[j - 1].start.0 > note.start.0);
                } else {
                    assert(notes@[i] == old_notes[i - 1]);
                    assert(notes@[j] == old_notes[j - 1]);
                }
            }
            assert forall|i: int| 0 <= i < notes@.len() implies notes@[i].id.0 < self.next_note_id
                + 1 by {
                if i < pos {
                } else if i > pos {
                    assert(notes@[i] == old_notes[i - 1]);
                }
            }
            assert forall|i: int, j: int| 0 <= i < j < notes@.len() implies notes@[i].id
                != notes@[j].id by {
                if i < pos && j < pos {
                } else if i < pos && j == pos {
                } else if i < pos {
                    assert(notes@[j] == old_notes[j - 1]);
                } else if i == pos {
                    assert(notes@[j] == old_notes[j - 1]);
                } else {
                    assert(notes@[i] == old_notes[i - 1]);
                    assert(notes@[j] == old_notes[j - 1]);
                }
            }
        }
        self.next_note_id = self.next_note_id + 1;
        self.notes = notes;
        id
    }

    /// Add a note (returns its freshly assigned id), keeping the notes in
    /// start order: the new note goes after every note starting at or before
    /// its start.
    pub fn add_note(&mut self, start: PatternTick, pitch: Pitch, velocity: Velocity) -> (id: NoteId)
        requires
            old(self).next_id_value() < u64::MAX,
        ensures
            final(self).spec_description() == old(self).spec_description(),
            final(self).spec_note_graph() == old(self).spec_note_graph(),
            id.0 == old(self).next_id_value(),
            !has_note(old(self).note_seq(), id),
            final(self).next_id_value() == old(self).next_id_value() + 1,
            final(self).note_seq() == old(self).note_seq().insert(
                insert_point(old(self).note_seq(), start.0 as int),
                Note { id, start, duration: None, pitch, velocity, track: None, legato: false },
            ),
            final(self).spec_id() == old(self).spec_id(),
            final(self).spec_name() == old(self).spec_name(),
            final(self).spec_length() == old(self).spec_length(),
    {
        proof {
            use_type_invariant(&*self);
        }
        let note = Note::new(NoteId::new(0), start, pitch, velocity);
        self.place(note)
    }

    /// Add a complete note (its id is reassigned); returns the new id.
    pub fn insert_note(&mut self, note: Note) -> (id: NoteId)
        requires
            old(self).next_id_value() < u64::MAX,
        ensures
            final(self).spec_description() == old(self).spec_description(),
            final(self).spec_note_graph() == old(self).spec_note_graph(),
            id.0 == old(self).next_id_value(),
            !has_note(old(self).note_seq(), id),
            final(self).next_id_value() == old(self).next_id_value() + 1,
            final(self).note_seq() == old(self).note_seq().insert(
                insert_point(old(self).note_seq(), note.start.0 as int),
                Note { id, ..note },
            ),
            final(self).spec_id() == old(self).spec_id(),
            final(self).spec_name() == old(self).spec_name(),
            final(self).spec_length() == old(self).spec_length(),
    {
        proof {
            use_type_invariant(&*self);
        }
        self.place(note)
    }

    /// Position of the note with this id.
    fn find(&self, id: NoteId) -> (r: Option<usize>)
        ensures
            r is None <==> !has_note(self.note_seq(), id),
            r matches Some(i) ==> i == note_pos(self.note_seq(), id) && i < self.note_seq().len()
                && self.note_seq()[i as int].id == id,
    {
        let mut i: usize = 0;
        while i < self.notes.len()
            invariant
                i <= self.notes.len(),
                forall|k: int| 0 <= k < i ==> self.notes@[k].id != id,
            decreases self.notes.len() - i,
        {
            if self.notes[i].id == id {
                proof {
                    let c = note_pos(self.notes@, id);
                    assert(forall|k: int| 0 <= k < i ==> self.notes@[k].id != id);
                    if c < i {
                    } else if c > i {
                    }
                }
                return Some(i);
            }
            i += 1;
        }
        None
    }

    /// Remove a note by ID.
    pub fn remove_note(&mut self, id: NoteId) -> (r: Option<Note>)
        ensures
            final(self).spec_description() == old(self).spec_description(),
            final(self).spec_note_graph() == old(self).spec_note_graph(),
            r is None <==> !has_note(old(self).note_seq(), id),
            r is None ==> final(self).note_seq() == old(self).note_seq(),
            r matches Some(n) ==> n == old(self).note_seq()[note_pos(old(self).note_seq(), id)]
                && n.id == id && final(self).note_seq() == old(self).note_seq().remove(
                note_pos(old(self).note_seq(), id),
            ),
            !has_note(final(self).note_seq(), id),
            final(self).next_id_value() == old(self).next_id_value(),
            final(self).spec_id() == old(self).spec_id(),
            final(self).spec_name() == old(self).spec_name(),
            final(self).spec_length() == old(self).spec_length(),
    {
        proof {
            use_type_invariant(&*self);
        }
        match self.find(id) {
            None => None,
            Some(pos) => {
                let ghost old_notes = self.notes@;
                let mut notes: Vec<Note> = Vec::new();
                std::mem::swap(&mut notes, &mut self.notes);
                let removed = notes.remove(pos);
                proof {
                    assert forall|i: int, j: int| 0 <= i < j < notes@.len() implies notes@[i].start.0
                        <= notes@[j].start.0 by {
                        if i >= pos {
                            assert(notes@[i] == old_notes[i + 1]);
                        }
                        if j >= pos {
                            assert(notes@[j] == old_notes[j + 1]);
                        }
                    }
                    assert forall|i: int| 0 <= i < notes@.len() implies notes@[i].id.0
                        < self.next_note_id by {
                        if i >= pos {
                            assert(notes@[i] == old_notes[i + 1]);
                        }
                    }
                    assert forall|i: int, j: int| 0 <= i < j < notes@.len() implies notes@[i].id
                        != notes@[j].id by {
                        if i >= pos {
                            assert(notes@[i] == old_notes[i + 1]);
                        }
                        if j >= pos {
                            assert(notes@[j] == old_notes[j + 1]);
                        }
                    }
                    if has_note(notes@, id) {
                        let k = choose|k: int| 0 <= k < notes@.len() && notes@[k].id == id;
                        if k < pos {
                            assert(old_notes[k].id == old_notes[pos as int].id);
                        } else {
                            assert(old_notes[k + 1].id == old_notes[pos as int].id);
                        }
                    }
                }
                self.notes = notes;
                Some(removed)
            },
        }
    }

    /// Get a note by ID.
    pub fn note(&self, id: NoteId) -> (r: Option<&Note>)
        ensures
            r is None <==> !has_note(self.note_seq(), id),
            r matches Some(n) ==> *n == self.note_seq()[note_pos(self.note_seq(), id)] && n.id == id,
    {
        match self.find(id) {
            None => None,
            Some(i) => Some(&self.notes[i]),
        }
    }

    /// Get all notes (in start order).
    pub fn notes(&self) -> (r: &[Note])
        ensures
            r@ == self.note_seq(),
            starts_sorted(r@),
            forall|i: int, j: int| 0 <= i < j < r@.len() ==> r@[i].id != r@[j].id,
            forall|i: int| 0 <= i < r@.len() ==> r@[i].id.0 < self.next_id_value(),
    {
        proof {
            use_type_invariant(self);
        }
        self.notes.as_slice()
    }

    /// The notes that sound within `[start, end)`, in start order.
    pub fn notes_in_range(&self, start: PatternTick, end: PatternTick) -> (r: Vec<Note>)
        ensures
            r@ == self.note_seq().filter(|n: Note| in_window(n, start.0 as int, end.0 as int)),
    {
        let ghost pred = |n: Note| in_window(n, start.0 as int, end.0 as int);
        let mut out: Vec<Note> = Vec::new();
        let mut i: usize = 0;
        while i < self.notes.len()
            invariant
                i <= self.notes.len(),
                pred == (|n: Note| in_window(n, start.0 as int, end.0 as int)),
                out@ == self.notes@.take(i as int).filter(pred),
            decreases self.notes.len() - i,
        {
            let n = self.notes[i];
            proof {
                assert(self.notes@.take(i + 1) =~= self.notes@.take(i as int).push(n));
                self.notes@.take(i as int).lemma_filter_push(n, pred);
            }
            let sounding = n.start.0 < end.0 && match n.duration {
                Some(d) => n.start.0 as u64 + d.0 as u64 > start.0 as u64,
                None => true,
            };
            if sounding {
                out.push(n);
            }
            i += 1;
        }
        proof {
            assert(self.notes@.take(self.notes.len() as int) =~= self.notes@);
        }
        out
    }

    /// The notes at a specific pitch, in start order.
    pub fn notes_at_pitch(&self, pitch: Pitch) -> (r: Vec<Note>)
        ensures
            r@ == self.note_seq().filter(|n: Note| n.pitch == pitch),
    {
        let ghost pred = |n: Note| n.pitch == pitch;
        let mut out: Vec<Note> = Vec::new();
        let mut i: usize = 0;
        while i < self.notes.len()
            invariant
                i <= self.notes.len(),
                pred == (|n: Note| n.pitch == pitch),
                out@ == self.notes@.take(i as int).filter(pred),
            decreases self.notes.len() - i,
        {
            let n = self.notes[i];
            proof {
                assert(self.notes@.take(i + 1) =~= self.notes@.take(i as int).push(n));
                self.notes@.take(i as int).lemma_filter_push(n, pred);
            }
            if n.pitch == pitch {
                out.push(n);
            }
            i += 1;
        }
        proof {
            assert(self.notes@.take(self.notes.len() as int) =~= self.notes@);
        }
        out
    }

    /// Replace the note at position `i` by one with the same id and start.
    fn replace_at(&mut self, i: usize, n: Note)
        requires
            i < old(self).note_seq().len(),
            n.id == old(self).note_seq()[i as int].id,
            n.start == old(self).note_seq()[i as int].start,
        ensures
            final(self).spec_description() == old(self).spec_description(),
            final(self).spec_note_graph() == old(self).spec_note_graph(),
            final(self).note_seq() == old(self).note_seq().update(i as int, n),
            final(self).next_id_value() == old(self).next_id_value(),
            final(self).spec_id() == old(self).spec_id(),
            final(self).spec_name() == old(self).spec_name(),
            final(self).spec_length() == old(self).spec_length(),
    {
        proof {
            use_type_invariant(&*self);
        }
        let mut notes: Vec<Note> = Vec::new();
        std::mem::swap(&mut notes, &mut self.notes);
        notes.set(i, n);
        self.notes = notes;
    }

    /// Move a note to a new start (keeping its id): it is taken out and put
    /// back after every note starting at or before the new start. Returns
    /// whether the note exists.
    pub fn move_note(&mut self, id: NoteId, new_start: PatternTick) -> (b: bool)
        ensures
            final(self).spec_description() == old(self).spec_description(),
            final(self).spec_note_graph() == old(self).spec_note_graph(),
            b == has_note(old(self).note_seq(), id),
            !b ==> final(self).note_seq() == old(self).note_seq(),
            b ==> ({
                let p = note_pos(old(self).note_seq(), id);
                let rest = old(self).note_seq().remove(p);
                final(self).note_seq() == rest.insert(
                    insert_point(rest, new_start.0 as int),
                    Note { start: new_start, ..old(self).note_seq()[p] },
                )
            }),
            final(self).next_id_value() == old(self).next_id_value(),
            final(self).spec_id() == old(self).spec_id(),
            final(self).spec_name() == old(self).spec_name(),
            final(self).spec_length() == old(self).spec_length(),
    {
        proof {
            use_type_invariant(&*self);
        }
        let ghost old_notes = self.notes@;
        match self.remove_note(id) {
            None => false,
            Some(n) => {
                proof {
                    use_type_invariant(&*self);
                }
                let moved = Note { start: new_start, ..n };
                let pos = Self::partition_point(&self.notes, new_start);
                let ghost rest = self.notes@;
                let mut notes: Vec<Note> = Vec::new();
                std::mem::swap(&mut notes, &mut self.notes);
                notes.insert(pos, moved);
                proof {
                    assert(n.id.0 < self.next_note_id);
                    assert forall|i: int, j: int| 0 <= i < j < notes@.len() implies notes@[i].start.0
                        <= notes@[j].start.0 by {
                        if j < pos {
                        } else if i < pos && j == pos {
                        } else if i < pos {
                            assert(notes@[j] == rest[j - 1]);
                        } else if i == pos {
                            assert(notes@[j] == rest[j - 1]);
                        } else {
                            assert(notes@[i] == rest[i - 1]);
                            assert(notes@[j] == rest[j - 1]);
                        }
                    }
                    assert forall|i: int| 0 <= i < notes@.len() implies notes@[i].id.0
                        < self.next_note_id by {
                        if i > pos {
                            assert(notes@[i] == rest[i - 1]);
                        }
                    }
                    assert forall|i: int, j: int| 0 <= i < j < notes@.len() implies notes@[i].id
                        != notes@[j].id by {
                        if i < pos && j < pos {
                        } else if i < pos && j == pos {
                            assert(has_note(rest, notes@[i].id));
                        } else if i < pos {
                            assert(notes@[j] == rest[j - 1]);
                        } else if i == pos {
                            assert(notes@[j] == rest[j - 1]);
                            assert(has_note(rest, notes@[j].id));
                        } else {
                            assert(notes@[i] == rest[i - 1]);
                            assert(notes@[j] == rest[j - 1]);
                        }
                    }
                }
                self.notes = notes;
                true
            },
        }
    }

    /// Resize a note. Returns whether the note exists.
    pub fn resize_note(&mut self, id: NoteId, new_duration: Duration) -> (b: bool)
        ensures
            final(self).spec_description() == old(self).spec_description(),
            final(self).spec_note_graph() == old(self).spec_note_graph(),
            b == has_note(old(self).note_seq(), id),
            !b ==> final(self).note_seq() == old(self).note_seq(),
            b ==> final(self).note_seq() == old(self).note_seq().update(
                note_pos(old(self).note_seq(), id),
                Note {
                    duration: Some(new_duration),
                    ..old(self).note_seq()[note_pos(old(self).note_seq(), id)]
                },
            ),
            final(self).next_id_value() == old(self).next_id_value(),
            final(self).spec_id() == old(self).spec_id(),
            final(self).spec_name() == old(self).spec_name(),
            final(self).spec_length() == old(self).spec_length(),
    {
        match self.find(id) {
            None => false,
            Some(i) => {
                let n = self.notes[i];
                self.replace_at(i, Note { duration: Some(new_duration), ..n });
                true
            },
        }
    }

    /// Transpose a note by whole semitones. Returns `false` (and changes
    /// nothing) when the note does not exist or would leave the MIDI range.
    pub fn transpose_note(&mut self, id: NoteId, semitones: i32) -> (b: bool)
        ensures
            final(self).spec_description() == old(self).spec_description(),
            final(self).spec_note_graph() == old(self).spec_note_graph(),
            b == (has_note(old(self).note_seq(), id) && 0 <= old(self).note_seq()[note_pos(
                old(self).note_seq(),
                id,
            )].pitch@ + semitones <= 127),
            !b ==> final(self).note_seq() == old(self).note_seq(),
            b ==> ({
                let p = note_pos(old(self).note_seq(), id);
                let n = old(self).note_seq()[p];
                &&& final(self).note_seq().len() == old(self).note_seq().len()
                &&& final(self).note_seq()[p].pitch@ == n.pitch@ + semitones
                &&& final(self).note_seq()[p] == (Note { pitch: final(self).note_seq()[p].pitch, ..n })
                &&& forall|k: int|
                    0 <= k < old(self).note_seq().len() && k != p ==> final(self).note_seq()[k]
                        == old(self).note_seq()[k]
            }),
            final(self).next_id_value() == old(self).next_id_value(),
            final(self).spec_id() == old(self).spec_id(),
            final(self).spec_name() == old(self).spec_name(),
            final(self).spec_length() == old(self).spec_length(),
    {
        match self.find(id) {
            None => false,
            Some(i) => {
                let n = self.notes[i];
                match n.pitch.transpose(semitones) {
                    None => false,
                    Some(p) => {
                        self.replace_at(i, Note { pitch: p, ..n });
                        true
                    },
                }
            },
        }
    }

    /// Set the velocity of a note. Returns whether the note exists.
    pub fn set_note_velocity(&mut self, id: NoteId, velocity: Velocity) -> (b: bool)
        ensures
            final(self).spec_description() == old(self).spec_description(),
            final(self).spec_note_graph() == old(self).spec_note_graph(),
            b == has_note(old(self).note_seq(), id),
            !b ==> final(self).note_seq() == old(self).note_seq(),
            b ==> final(self).note_seq() == old(self).note_seq().update(
                note_pos(old(self).note_seq(), id),
                Note { velocity, ..old(self).note_seq()[note_pos(old(self).note_seq(), id)] },
            ),
            final(self).next_id_value() == old(self).next_id_value(),
            final(self).spec_id() == old(self).spec_id(),
            final(self).spec_name() == old(self).spec_name(),
            final(self).spec_length() == old(self).spec_length(),
    {
        match self.find(id) {
            None => false,
            Some(i) => {
                let n = self.notes[i];
                self.replace_at(i, Note { velocity, ..n });
                true
            },
        }
    }

    /// Set the legato/tie flag of a note. Returns whether the note exists.
    pub fn set_note_legato(&mut self, id: NoteId, legato: bool) -> (b: bool)
        ensures
            final(self).spec_description() == old(self).spec_description(),
            final(self).spec_note_graph() == old(self).spec_note_graph(),
            b == has_note(old(self).note_seq(), id),
            !b ==> final(self).note_seq() == old(self).note_seq(),
            b ==> final(self).note_seq() == old(self).note_seq().update(
                note_pos(old(self).note_seq(), id),
                Note { legato, ..old(self).note_seq()[note_pos(old(self).note_seq(), id)] },
            ),
            final(self).next_id_value() == old(self).next_id_value(),
            final(self).spec_id() == old(self).spec_id(),
            final(self).spec_name() == old(self).spec_name(),
            final(self).spec_length() == old(self).spec_length(),
    {
        match self.find(id) {
            None => false,
            Some(i) => {
                let n = self.notes[i];
                self.replace_at(i, Note { legato, ..n });
                true
            },
        }
    }

    /// Transpose every note that stays within the MIDI range; the others
    /// keep their pitch.
    pub fn transpose_all(&mut self, semitones: i32)
        ensures
            final(self).spec_description() == old(self).spec_description(),
            final(self).spec_note_graph() == old(self).spec_note_graph(),
            final(self).note_seq().len() == old(self).note_seq().len(),
            forall|k: int|
                0 <= k < old(self).note_seq().len() ==> {
                    let n = #[trigger] old(self).note_seq()[k];
                    final(self).note_seq()[k] == (if 0 <= n.pitch@ + semitones <= 127 {
                        Note { pitch: final(self).note_seq()[k].pitch, ..n }
                    } else {
                        n
                    }) && (0 <= n.pitch@ + semitones <= 127 ==> final(self).note_seq()[k].pitch@
                        == n.pitch@ + semitones)
                },
            final(self).next_id_value() == old(self).next_id_value(),
            final(self).spec_id() == old(self).spec_id(),
            final(self).spec_name() == old(self).spec_name(),
            final(self).spec_length() == old(self).spec_length(),
    {
        let ghost old_notes = self.notes@;
        let mut i: usize = 0;
        while i < self.notes.len()
            invariant
                i <= self.notes.len(),
                self.notes@.len() == old_notes.len(),
                self.next_id_value() == old(self).next_id_value(),
                self.spec_id() == old(self).spec_id(),
                self.spec_name() == old(self).spec_name(),
                self.spec_length() == old(self).spec_length(),
                self.spec_note_graph() == old(self).spec_note_graph(),
                self.spec_description() == old(self).spec_description(),
                forall|k: int| i <= k < old_notes.len() ==> self.notes@[k] == old_notes[k],
                forall|k: int|
                    0 <= k < i ==> {
                        let n = #[trigger] old_notes[k];
                        self.notes@[k] == (if 0 <= n.pitch@ + semitones <= 127 {
                            Note { pitch: self.notes@[k].pitch, ..n }
                        } else {
                            n
                        }) && (0 <= n.pitch@ + semitones <= 127 ==> self.notes@[k].pitch@
                            == n.pitch@ + semitones)
                    },
            decreases self.notes.len() - i,
        {
            let n = self.notes[i];
            match n.pitch.transpose(semitones) {
                Some(p) => {
                    self.replace_at(i, Note { pitch: p, ..n });
                },
                None => {},
            }
            i += 1;
        }
    }

    /// Quantize every note's start to the row grid (nearest row, halfway
    /// rounding up). Quantizing keeps start order, so the notes stay in
    /// their order.
    pub fn quantize_notes(&mut self, resolution: RowResolution)
        requires
            resolution.ticks_per_row@ > 0,
            forall|k: int|
                0 <= k < old(self).note_seq().len() ==> #[trigger] old(self).note_seq()[k].start.0
                    + resolution.ticks_per_row@ / 2 <= u32::MAX,
        ensures
            final(self).spec_description() == old(self).spec_description(),
            final(self).spec_note_graph() == old(self).spec_note_graph(),
            final(self).note_seq().len() == old(self).note_seq().len(),
            forall|k: int|
                0 <= k < old(self).note_seq().len() ==> #[trigger] final(self).note_seq()[k] == (Note {
                    start: PatternTick(
                        quantized(
                            old(self).note_seq()[k].start.0 as int,
                            resolution.ticks_per_row@ as int,
                        ) as u32,
                    ),
                    ..old(self).note_seq()[k]
                }),
            final(self).next_id_value() == old(self).next_id_value(),
            final(self).spec_id() == old(self).spec_id(),
            final(self).spec_name() == old(self).spec_name(),
            final(self).spec_length() == old(self).spec_length(),
    {
        proof {
            use_type_invariant(&*self);
        }
        let ghost tpr = resolution.ticks_per_row@ as int;
        let ghost old_notes = self.notes@;
        let mut notes: Vec<Note> = Vec::new();
        std::mem::swap(&mut notes, &mut self.notes);
        let mut i: usize = 0;
        while i < notes.len()
            invariant
                i <= notes.len(),
                tpr == resolution.ticks_per_row@,
                tpr > 0,
                notes@.len() == old_notes.len(),
                forall|k: int|
                    0 <= k < old_notes.len() ==> #[trigger] old_notes[k].start.0 + tpr / 2
                        <= u32::MAX,
                forall|k: int| i <= k < old_notes.len() ==> notes@[k] == old_notes[k],
                forall|k: int|
                    0 <= k < i ==> #[trigger] notes@[k] == (Note {
                        start: PatternTick(quantized(old_notes[k].start.0 as int, tpr) as u32),
                        ..old_notes[k]
                    }),
            decreases notes.len() - i,
        {
            let n = notes[i];
            let q = resolution.quantize(n.start);
            notes.set(i, Note { start: q, ..n });
            i += 1;
        }
        proof {
            assert forall|i: int, j: int| 0 <= i < j < notes@.len() implies notes@[i].start.0
                <= notes@[j].start.0 by {
                lemma_quantize_grid(old_notes[i].start.0 as int, old_notes[j].start.0 as int, tpr);
                lemma_quantize_grid(old_notes[j].start.0 as int, old_notes[j].start.0 as int, tpr);
            }
            assert forall|i: int| 0 <= i < notes@.len() implies notes@[i].id.0 < self.next_note_id by {
                assert(notes@[i].id == old_notes[i].id);
            }
            assert forall|i: int, j: int| 0 <= i < j < notes@.len() implies notes@[i].id
                != notes@[j].id by {
                assert(notes@[i].id == old_notes[i].id);
                assert(notes@[j].id == old_notes[j].id);
            }
        }
        self.notes = notes;
    }

    /// Get number of notes.
    pub fn note_count(&self) -> (n: usize)
        ensures
            n == self.note_seq().len(),
    {
        self.notes.len()
    }

    /// Check if the pattern holds no notes.
    pub fn is_empty(&self) -> (b: bool)
        ensures
            b == (self.note_seq().len() == 0),
    {
        self.notes.len() == 0
    }

    /// Clear all notes.
    pub fn clear_notes(&mut self)
        ensures
            final(self).spec_description() == old(self).spec_description(),
            final(self).spec_note_graph() == old(self).spec_note_graph(),
            final(self).note_seq().len() == 0,
            final(self).next_id_value() == old(self).next_id_value(),
            final(self).spec_id() == old(self).spec_id(),
            final(self).spec_name() == old(self).spec_name(),
            final(self).spec_length() == old(self).spec_length(),
    {
        proof {
            use_type_invariant(&*self);
        }
        self.notes = Vec::new();
    }
}

impl Clone for Pattern {
    fn clone(&self) -> (r: Self)
        ensures
            same_pattern(r, *self),
            r.spec_description() == self.spec_description(),
    {
        proof {
            use_type_invariant(self);
        }
        let notes = self.notes.clone();
        proof {
            assert(notes@ =~= self.notes@);
        }
        Pattern {
            id: self.id,
            name: self.name.clone(),
            description: self.description.clone(),
            length: self.length,
            notes,
            next_note_id: self.next_note_id,
            note_graph: self.note_graph,
        }
    }
}


} // verus!
