use vstd::prelude::*;
use crate::datetime::now_secs;
use crate::text::lemma_first_match;

verus! {

// ---------------------------------------------------------------------------
// Notes
// ---------------------------------------------------------------------------

/// How many card colours there are; a note's colour is an index into them.
pub const NOTE_COLOR_COUNT: usize = 6;

/// One note. Times are seconds since 1970-01-01 00:00 UTC.
pub struct Note {
    pub id: u64,
    pub title: String,
    pub content: String,
    pub color: usize,
    pub created: u64,
    pub updated: u64,
}

/// All notes, in the order they were created, and the identifier the next
/// new note gets.
pub struct Notes {
    pub notes: Vec<Note>,
    pub next_id: u64,
}

/// The RGB colours of the note cards: yellow, pink, blue, green, purple, apricot.
pub open spec fn color_rgb(i: int) -> (u8, u8, u8) {
    let k = i % 6;
    if k == 0 {
        (255, 243, 176)
    } else if k == 1 {
        (255, 219, 219)
    } else if k == 2 {
        (216, 231, 255)
    } else if k == 3 {
        (213, 245, 220)
    } else if k == 4 {
        (235, 223, 255)
    } else {
        (255, 230, 199)
    }
}

/// The card colour of colour index `i`, the palette repeating.
pub fn color_for(i: usize) -> (r: (u8, u8, u8))
    ensures
        r == color_rgb(i as int),
{
    let k = i % NOTE_COLOR_COUNT;
    if k == 0 {
        (255, 243, 176)
    } else if k == 1 {
        (255, 219, 219)
    } else if k == 2 {
        (216, 231, 255)
    } else if k == 3 {
        (213, 245, 220)
    } else if k == 4 {
        (235, 223, 255)
    } else {
        (255, 230, 199)
    }
}

impl Note {
    /// An empty note made at time `now`.
    pub open spec fn fresh(id: u64, color: usize, now: u64, n: Note) -> bool {
        &&& n.id == id
        &&& n.title@ == Seq::<char>::empty()
        &&& n.content@ == Seq::<char>::empty()
        &&& n.color == color
        &&& n.created == now
        &&& n.updated == now
    }

    /// An empty note, created and updated at `now`.
    pub fn new_at(id: u64, color: usize, now: u64) -> (n: Note)
        ensures
            Note::fresh(id, color, now, n),
    {
        Note { id, title: String::new(), content: String::new(), color, created: now, updated: now }
    }

    /// An empty note, created and updated at the current time.
    pub fn new(id: u64, color: usize) -> (n: Note)
        ensures
            exists|now: u64| Note::fresh(id, color, now, n),
    {
        let now = now_secs();
        Note::new_at(id, color, now)
    }
}

/// `n` with its time of last update set to `t`.
pub open spec fn touched(n: Note, t: u64) -> Note {
    Note {
        id: n.id,
        title: n.title,
        content: n.content,
        color: n.color,
        created: n.created,
        updated: t,
    }
}

/// The index of the first note with identifier `id`, if any.
#[verifier::opaque]
pub open spec fn position_of(notes: Seq<Note>, id: u64) -> Option<int> {
    if exists|k: int| 0 <= k < notes.len() && notes[k].id == id {
        Some(
            choose|k: int|
                0 <= k < notes.len() && notes[k].id == id && forall|j: int|
                    0 <= j < k ==> notes[j].id != id,
        )
    } else {
        None
    }
}

/// The notes other than those with identifier `id`, in their order.
pub open spec fn without_id(notes: Seq<Note>, id: u64) -> Seq<Note> {
    notes.filter(|n: Note| n.id != id)
}

/// No two of `notes` share an identifier, and every identifier is below `bound`.
pub open spec fn ids_unique_below(notes: Seq<Note>, bound: u64) -> bool {
    &&& forall|i: int, j: int|
        0 <= i < j < notes.len() ==> #[trigger] notes[i].id != #[trigger] notes[j].id
    &&& forall|i: int| 0 <= i < notes.len() ==> #[trigger] notes[i].id < bound
}

/// Where `position_of` finds a note, it finds the first one with that
/// identifier; where it finds none, there is none.
pub proof fn lemma_position_of(notes: Seq<Note>, id: u64)
    ensures
        match position_of(notes, id) {
            Some(k) => 0 <= k < notes.len() && notes[k].id == id && forall|j: int|
                0 <= j < k ==> notes[j].id != id,
            None => forall|j: int| 0 <= j < notes.len() ==> notes[j].id != id,
        },
{
    reveal(position_of);
    if exists|k: int| 0 <= k < notes.len() && notes[k].id == id {
        let w = choose|k: int| 0 <= k < notes.len() && notes[k].id == id;
        let p = |n: Note| n.id == id;
        lemma_first_match(notes, p, w);
        let k = choose|k: int| 0 <= k < notes.len() && p(notes[k]) && forall|j: int| 0 <= j < k ==> !p(notes[j]);
        assert(0 <= k < notes.len() && notes[k].id == id && forall|j: int| 0 <= j < k ==> notes[j].id != id);
    }
}

/// Dropping notes keeps identifiers unique and below the bound.
pub proof fn lemma_filter_keeps_ids_unique(notes: Seq<Note>, pred: spec_fn(Note) -> bool, bound: u64)
    requires
        ids_unique_below(notes, bound),
    ensures
        ids_unique_below(notes.filter(pred), bound),
    decreases notes.len(),
{
    reveal_with_fuel(Seq::<_>::filter, 1);
    if notes.len() > 0 {
        let rest = notes.drop_last();
        lemma_filter_keeps_ids_unique(rest, pred, bound);
        let f = rest.filter(pred);
        if pred(notes.last()) {
            let out = f.push(notes.last());
            assert forall|i: int| 0 <= i < f.len() implies #[trigger] f[i].id != notes.last().id by {
                assert(f.contains(f[i]));
                rest.lemma_filter_contains_rev(pred, f[i]);
                let j = choose|j: int| 0 <= j < rest.len() && rest[j] == f[i];
                assert(notes[j] == f[i]);
            }
            assert forall|i: int, j: int| 0 <= i < j < out.len() implies #[trigger] out[i].id
                != #[trigger] out[j].id by {
                if j == out.len() - 1 {
                    assert(out[i] == f[i]);
                } else {
                    assert(out[i] == f[i] && out[j] == f[j]);
                }
            }
            assert forall|i: int| 0 <= i < out.len() implies #[trigger] out[i].id < bound by {
                if i < f.len() {
                    assert(out[i] == f[i]);
                }
            }
        }
    }
}

/// After removing the notes with identifier `id`, no note has it, and
/// identifiers stay unique and below the bound.
pub proof fn law_without_id(notes: Seq<Note>, id: u64, bound: u64)
    ensures
        forall|k: int| 0 <= k < without_id(notes, id).len() ==> #[trigger] without_id(notes, id)[k].id != id,
        ids_unique_below(notes, bound) ==> ids_unique_below(without_id(notes, id), bound),
{
    broadcast use vstd::seq_lib::group_filter_ensures;
    let pred = |n: Note| n.id != id;
    if ids_unique_below(notes, bound) {
        lemma_filter_keeps_ids_unique(notes, pred, bound);
    }
}

/// The index of the first note with identifier `id`, if any.
pub fn first_position(notes: &Vec<Note>, id: u64) -> (r: Option<usize>)
    ensures
        match r {
            Some(k) => k < notes@.len() && position_of(notes@, id) == Some(k as int),
            None => position_of(notes@, id) is None,
        },
{
    proof {
        reveal(position_of);
    }
    let n = notes.len();
    let mut i: usize = 0;
    while i < n
        invariant
            n == notes@.len(),
            i <= n,
            forall|j: int| 0 <= j < i ==> notes@[j].id != id,
        decreases n - i,
    {
        if notes[i].id == id {
            proof {
                reveal(position_of);
                let k = choose|k: int|
                    0 <= k < notes@.len() && notes@[k].id == id && forall|j: int|
                        0 <= j < k ==> notes@[j].id != id;
                assert(notes@[i as int].id == id);
                if k < i {
                    assert(notes@[k].id != id);
                }
                if i < k {
                    assert(notes@[i as int].id != id);
                }
            }
            return Some(i);
        }
        i = i + 1;
    }
    None
}

impl Notes {
    /// No two notes share an identifier, and every identifier is below
    /// `next_id`, so that a new note's identifier is one no note has.
    pub open spec fn wf(&self) -> bool {
        ids_unique_below(self.notes@, self.next_id)
    }

    /// The index of the first note with identifier `id` (`iter().position`).
    pub fn position(&self, id: u64) -> (r: Option<usize>)
        ensures
            match r {
                Some(k) => k < self.notes@.len() && position_of(self.notes@, id) == Some(k as int),
                None => position_of(self.notes@, id) is None,
            },
    {
        first_position(&self.notes, id)
    }

    /// Removes every note with identifier `id`, keeping the order of the rest
    /// (`retain(|n| n.id != id)`).
    pub fn remove_id(&mut self, id: u64)
        ensures
            final(self).notes@ == without_id(old(self).notes@, id),
            final(self).next_id == old(self).next_id,
    {
        let ghost orig = self.notes@;
        let ghost pred = |n: Note| n.id != id;
        let mut i: usize = 0;
        let ghost mut j: int = 0;
        assert(orig.take(0).filter(pred) =~= Seq::<Note>::empty()) by {
            reveal_with_fuel(Seq::<_>::filter, 1);
        }
        assert(orig.skip(0) =~= orig);
        assert(self.notes@ =~= self.notes@.take(0) + self.notes@.skip(0));
        while i < self.notes.len()
            invariant
                self.next_id == old(self).next_id,
                orig == old(self).notes@,
                pred == (|n: Note| n.id != id),
                0 <= j <= orig.len(),
                i <= self.notes@.len(),
                self.notes@.len() - i == orig.len() - j,
                self.notes@.take(i as int) == orig.take(j).filter(pred),
                self.notes@.skip(i as int) == orig.skip(j),
            decreases self.notes@.len() - i,
        {
            let ghost before = self.notes@;
            assert(orig[j] == before[i as int]) by {
                assert(before.skip(i as int)[0] == orig.skip(j)[0]);
            }
            assert(orig.take(j + 1).drop_last() =~= orig.take(j));
            if self.notes[i].id == id {
                self.notes.remove(i);
                proof {
                    reveal_with_fuel(Seq::<_>::filter, 1);
                    assert(self.notes@.take(i as int) =~= before.take(i as int));
                    assert forall|k: int| 0 <= k < self.notes@.skip(i as int).len() implies
                        #[trigger] self.notes@.skip(i as int)[k] == orig.skip(j + 1)[k] by {
                        assert(before.skip(i as int)[k + 1] == orig.skip(j)[k + 1]);
                    }
                    assert(self.notes@.skip(i as int) =~= orig.skip(j + 1));
                    j = j + 1;
                }
            } else {
                proof {
                    reveal_with_fuel(Seq::<_>::filter, 1);
                    assert(self.notes@.take(i + 1) =~= before.take(i as int).push(orig[j]));
                    assert forall|k: int| 0 <= k < self.notes@.skip(i + 1).len() implies
                        #[trigger] self.notes@.skip(i + 1)[k] == orig.skip(j + 1)[k] by {
                        assert(before.skip(i as int)[k + 1] == orig.skip(j)[k + 1]);
                    }
                    assert(self.notes@.skip(i + 1) =~= orig.skip(j + 1));
                    j = j + 1;
                }
                i = i + 1;
            }
        }
        proof {
            assert(j == orig.len()) by {
                if j < orig.len() {
                    assert(orig.skip(j).len() > 0);
                }
            }
            assert(orig.take(j) =~= orig);
            assert(self.notes@ =~= self.notes@.take(i as int));
        }
    }
}

impl Default for Notes {
    fn default() -> (r: Notes)
        ensures
            r.notes@ == Seq::<Note>::empty(),
            r.next_id == 0,
    {
        Notes { notes: Vec::new(), next_id: 0 }
    }
}

} // verus!
