use vstd::prelude::*;
use std::time::Instant;
use crate::clock::{duration_as_millis, instant_elapsed, instant_now};
use crate::datetime::now_secs;
use crate::note::{
    Note, Notes, NOTE_COLOR_COUNT, first_position, lemma_position_of, law_without_id, position_of,
    touched, without_id,
};

verus! {

// ---------------------------------------------------------------------------
// The editor's state
// ---------------------------------------------------------------------------

/// Typing pauses this long (in milliseconds) before the notes are saved.
pub const SAVE_DEBOUNCE_MS: u128 = 700;

/// Unsaved changes are saved at the latest this long (in milliseconds) after
/// the last save attempt.
pub const SAVE_HEARTBEAT_MS: u128 = 5000;

/// What the note editor keeps between frames, apart from what only the
/// window needs.
pub struct AppState {
    /// The notes.
    pub notes: Notes,
    /// The identifier of the note open in the editor.
    pub current: Option<u64>,
    /// There are changes that are not saved yet.
    pub dirty: bool,
    /// When the last unsaved change was made; none where nothing is pending.
    pub dirty_since: Option<Instant>,
    /// When the notes were last saved.
    pub last_save: Instant,
    /// What is typed in the search box.
    pub search: String,
    /// The "delete this note?" dialog is open.
    pub confirm_delete: bool,
    /// The status message and whether it reports success.
    pub status: String,
    pub status_ok: bool,
    /// The note whose card was right-clicked for deletion.
    pub context_menu_note: Option<u64>,
}

/// The notes after the note open in the editor, if any, was updated at `wall`:
/// the first note with its identifier gets that time of last update.
pub open spec fn touch_current(notes: Seq<Note>, current: Option<u64>, wall: u64) -> Seq<Note> {
    match current {
        Some(id) => match position_of(notes, id) {
            Some(k) => notes.update(k, touched(notes[k], wall)),
            None => notes,
        },
        None => notes,
    }
}

/// `new` is `old` after a change by the user at monotonic time `now` and
/// wall-clock time `wall` (`mark_dirty`).
pub open spec fn marked(old: AppState, new: AppState, now: Instant, wall: u64) -> bool {
    &&& new.dirty
    &&& new.dirty_since == Some(now)
    &&& new.notes.next_id == old.notes.next_id
    &&& new.notes.notes@ == touch_current(old.notes.notes@, old.current, wall)
    &&& new.status@ == "正在输入…"@
    &&& new.status_ok
    &&& new.current == old.current
    &&& new.last_save == old.last_save
    &&& new.search == old.search
    &&& new.confirm_delete == old.confirm_delete
    &&& new.context_menu_note == old.context_menu_note
}

/// `new` is `old` after a save attempt at time `now` with the given outcome;
/// an error is given by its message. A successful save leaves nothing
/// pending. After a failed one the changes stay pending, but the time of the
/// last change is cleared, so that the pause rule does not retry at once on
/// every frame: the save is retried by the heartbeat, a heartbeat after this
/// attempt, or after the next change once typing pauses.
pub open spec fn saved(old: AppState, new: AppState, now: Instant, outcome: Result<(), String>) -> bool {
    &&& match outcome {
        Ok(()) => {
            &&& new.status@ == "已自动保存"@
            &&& new.status_ok
            &&& !new.dirty
            &&& new.dirty_since is None
        },
        Err(e) => {
            &&& new.status@ == "保存失败: "@ + e@
            &&& !new.status_ok
            &&& new.dirty == old.dirty
            &&& new.dirty_since is None
        },
    }
    &&& new.last_save == now
    &&& new.notes == old.notes
    &&& new.current == old.current
    &&& new.search == old.search
    &&& new.confirm_delete == old.confirm_delete
    &&& new.context_menu_note == old.context_menu_note
}

/// `new` is `old` after a new note `id` was added and opened at monotonic
/// time `now` and wall-clock time `wall`.
pub open spec fn added(old: AppState, new: AppState, now: Instant, wall: u64, id: u64) -> bool {
    &&& id == old.notes.next_id
    &&& new.notes.next_id == old.notes.next_id + 1
    &&& exists|n: Note|
        #[trigger] Note::fresh(id, ((id as usize) % 6) as usize, wall, n) && new.notes.notes@
            == touch_current(old.notes.notes@.push(n), Some(id), wall)
    &&& new.current == Some(id)
    &&& !new.confirm_delete
    &&& new.dirty
    &&& new.dirty_since == Some(now)
    &&& new.status@ == "正在输入…"@
    &&& new.status_ok
    &&& new.last_save == old.last_save
    &&& new.search == old.search
    &&& new.context_menu_note == old.context_menu_note
}

/// `new` has the notes, the save bookkeeping, the search and the status of
/// `old`.
pub open spec fn same_data(old: AppState, new: AppState) -> bool {
    &&& new.notes == old.notes
    &&& new.dirty == old.dirty
    &&& new.dirty_since == old.dirty_since
    &&& new.last_save == old.last_save
    &&& new.search == old.search
    &&& new.status == old.status
    &&& new.status_ok == old.status_ok
}

/// The note that a deletion is aimed at: the right-clicked one, else the one
/// open in the editor.
pub open spec fn delete_target(s: AppState) -> Option<u64> {
    match s.context_menu_note {
        Some(id) => Some(id),
        None => s.current,
    }
}

/// `new` is `old` after the deletion of the notes with identifier `id` at
/// monotonic time `now` and wall-clock time `wall`.
pub open spec fn deleted(old: AppState, new: AppState, now: Instant, wall: u64, id: u64) -> bool {
    let current = if old.current == Some(id) { None } else { old.current };
    &&& new.notes.next_id == old.notes.next_id
    &&& new.notes.notes@ == touch_current(without_id(old.notes.notes@, id), current, wall)
    &&& new.current == current
    &&& new.context_menu_note is None
    &&& !new.confirm_delete
    &&& new.dirty
    &&& new.dirty_since == Some(now)
    &&& new.status@ == "正在输入…"@
    &&& new.status_ok
    &&& new.last_save == old.last_save
    &&& new.search == old.search
}

/// Whether unsaved changes are due to be saved: typing has paused for the
/// debounce time, or the last save attempt is a heartbeat ago. Times are the
/// milliseconds elapsed since the last change and since the last save attempt.
pub open spec fn save_due(dirty: bool, since_change_ms: Option<u128>, since_save_ms: u128) -> bool {
    dirty && ((since_change_ms matches Some(t) && t >= 700) || since_save_ms >= 5000)
}

/// Whether unsaved changes are due to be saved.
pub fn autosave_due_at(dirty: bool, since_change_ms: Option<u128>, since_save_ms: u128) -> (r: bool)
    ensures
        r == save_due(dirty, since_change_ms, since_save_ms),
{
    if dirty {
        let debounced = match since_change_ms {
            Some(t) => t >= SAVE_DEBOUNCE_MS,
            None => false,
        };
        debounced || since_save_ms >= SAVE_HEARTBEAT_MS
    } else {
        false
    }
}

// ---------------------------------------------------------------------------
// Laws
// ---------------------------------------------------------------------------

/// Recording a change alters no note but the open one, and of that one only
/// the time of its last update.
pub proof fn lemma_touch_current(notes: Seq<Note>, current: Option<u64>, wall: u64)
    ensures
        touch_current(notes, current, wall).len() == notes.len(),
        forall|k: int|
            0 <= k < notes.len() ==> {
                let n = #[trigger] touch_current(notes, current, wall)[k];
                &&& n.id == notes[k].id
                &&& n.title == notes[k].title
                &&& n.content == notes[k].content
                &&& n.color == notes[k].color
                &&& n.created == notes[k].created
                &&& (n.updated == notes[k].updated || (current == Some(notes[k].id) && n.updated
                    == wall))
            },
{
    if let Some(id) = current {
        lemma_position_of(notes, id);
    }
}

/// A change by the user keeps every note and its identifier, so identifiers
/// stay unique and below `next_id`; only the open note's time of last update
/// can change.
pub proof fn law_mark_dirty_keeps_notes(old: AppState, new: AppState, now: Instant, wall: u64)
    requires
        marked(old, new, now, wall),
    ensures
        new.notes.notes@.len() == old.notes.notes@.len(),
        forall|k: int|
            0 <= k < old.notes.notes@.len() ==> (#[trigger] new.notes.notes@[k]).id
                == old.notes.notes@[k].id && new.notes.notes@[k].title == old.notes.notes@[k].title
                && new.notes.notes@[k].content == old.notes.notes@[k].content,
        old.notes.wf() ==> new.notes.wf(),
{
    lemma_touch_current(old.notes.notes@, old.current, wall);
}

/// A new note gets an identifier that no note had, is appended after the
/// others, is empty, and is the note that the editor opens; identifiers stay
/// unique and below `next_id`.
pub proof fn law_new_note_is_fresh(old: AppState, new: AppState, now: Instant, wall: u64, id: u64)
    requires
        added(old, new, now, wall, id),
        old.notes.wf(),
    ensures
        forall|k: int| 0 <= k < old.notes.notes@.len() ==> #[trigger] old.notes.notes@[k].id != id,
        new.notes.notes@.len() == old.notes.notes@.len() + 1,
        new.notes.notes@.drop_last() == old.notes.notes@,
        Note::fresh(id, ((id as usize) % 6) as usize, wall, new.notes.notes@.last()),
        new.current == Some(id),
        new.notes.wf(),
{
    let n = choose|n: Note|
        #[trigger] Note::fresh(id, ((id as usize) % 6) as usize, wall, n) && new.notes.notes@
            == touch_current(old.notes.notes@.push(n), Some(id), wall);
    let pushed = old.notes.notes@.push(n);
    assert forall|k: int| 0 <= k < old.notes.notes@.len() implies #[trigger] old.notes.notes@[k].id
        != id by {
        assert(old.notes.notes@[k].id < old.notes.next_id);
    }
    lemma_position_of(pushed, id);
    assert(pushed[old.notes.notes@.len() as int].id == id);
    assert(position_of(pushed, id) == Some(old.notes.notes@.len() as int));
    assert(new.notes.notes@ =~= pushed);
    assert(new.notes.notes@.drop_last() =~= old.notes.notes@);
}

/// After a deletion no note has the deleted identifier, the editor does not
/// show it, and identifiers stay unique and below `next_id`.
pub proof fn law_delete_removes_note(old: AppState, new: AppState, now: Instant, wall: u64, id: u64)
    requires
        deleted(old, new, now, wall, id),
    ensures
        forall|k: int| 0 <= k < new.notes.notes@.len() ==> #[trigger] new.notes.notes@[k].id != id,
        new.current != Some(id),
        old.notes.wf() ==> new.notes.wf(),
{
    let rest = without_id(old.notes.notes@, id);
    let current = if old.current == Some(id) { None } else { old.current };
    law_without_id(old.notes.notes@, id, old.notes.next_id);
    lemma_touch_current(rest, current, wall);
    assert forall|k: int| 0 <= k < new.notes.notes@.len() implies #[trigger] new.notes.notes@[k].id
        != id by {
        assert(new.notes.notes@[k].id == rest[k].id);
    }
}

/// A successful save leaves no changes pending, so no further save is due
/// until the next change.
pub proof fn law_save_clears_pending(
    old: AppState,
    new: AppState,
    now: Instant,
    since_change: Option<u128>,
    since_save: u128,
)
    requires
        saved(old, new, now, Ok(())),
    ensures
        !save_due(new.dirty, since_change, since_save),
        new.notes == old.notes,
{
}

/// After a failed save the changes stay pending, and a save is due again
/// exactly once the heartbeat has passed since the failed attempt.
pub proof fn law_failed_save_is_retried(
    old: AppState,
    new: AppState,
    now: Instant,
    e: String,
    since_save: u128,
)
    requires
        saved(old, new, now, Err(e)),
        old.dirty,
    ensures
        new.dirty,
        new.dirty_since is None,
        new.notes == old.notes,
        save_due(new.dirty, None, since_save) <==> since_save >= 5000,
{
}

/// After a change, a save is due once typing has paused for 700 ms, or once
/// 5 s have passed since the last save.
pub proof fn law_change_makes_save_due(
    old: AppState,
    new: AppState,
    now: Instant,
    wall: u64,
    since_change: u128,
    since_save: u128,
)
    requires
        marked(old, new, now, wall),
    ensures
        since_change >= 700 ==> save_due(new.dirty, Some(since_change), since_save),
        since_save >= 5000 ==> save_due(new.dirty, Some(since_change), since_save),
        since_change < 700 && since_save < 5000 ==> !save_due(new.dirty, Some(since_change), since_save),
{
}

impl AppState {
    /// The state of a freshly opened editor over `notes` at time `now`.
    pub fn new_at(notes: Notes, now: Instant) -> (s: AppState)
        ensures
            s.notes == notes,
            s.current is None,
            !s.dirty,
            s.dirty_since is None,
            s.last_save == now,
            s.search@ == Seq::<char>::empty(),
            !s.confirm_delete,
            s.status@ == "就绪，自动保存已开启"@,
            s.status_ok,
            s.context_menu_note is None,
    {
        AppState {
            notes,
            current: None,
            dirty: false,
            dirty_since: None,
            last_save: now,
            search: String::new(),
            confirm_delete: false,
            status: String::from_str("就绪，自动保存已开启"),
            status_ok: true,
            context_menu_note: None,
        }
    }

    /// The state of a freshly opened editor over `notes`.
    pub fn new(notes: Notes) -> (s: AppState)
        ensures
            s.notes == notes,
            s.current is None,
            !s.dirty,
            s.dirty_since is None,
            s.search@ == Seq::<char>::empty(),
            !s.confirm_delete,
            s.status@ == "就绪，自动保存已开启"@,
            s.status_ok,
            s.context_menu_note is None,
    {
        let now = instant_now();
        AppState::new_at(notes, now)
    }

    /// Records a change by the user at monotonic time `now` and wall-clock
    /// time `wall`.
    pub fn mark_dirty_at(&mut self, now: Instant, wall: u64)
        ensures
            marked(*old(self), *final(self), now, wall),
    {
        self.dirty = true;
        self.dirty_since = Some(now);
        if let Some(id) = self.current {
            if let Some(k) = first_position(&self.notes.notes, id) {
                self.notes.notes[k].updated = wall;
            }
        }
        self.status = String::from_str("正在输入…");
        self.status_ok = true;
    }

    /// Records a change by the user now.
    pub fn mark_dirty(&mut self)
        ensures
            exists|now: Instant, wall: u64| marked(*old(self), *final(self), now, wall),
    {
        let now = instant_now();
        let wall = now_secs();
        self.mark_dirty_at(now, wall);
    }

    /// Records the outcome of a save attempt at time `now`.
    pub fn finish_save_at(&mut self, now: Instant, outcome: Result<(), String>)
        ensures
            saved(*old(self), *final(self), now, outcome),
    {
        match outcome {
            Ok(()) => {
                self.status = String::from_str("已自动保存");
                self.status_ok = true;
                self.dirty = false;
                self.dirty_since = None;
            },
            Err(e) => {
                let mut msg = String::from_str("保存失败: ");
                msg.append(e.as_str());
                self.status = msg;
                self.status_ok = false;
                self.dirty_since = None;
            },
        }
        self.last_save = now;
    }

    /// Records the outcome of a save attempt that has just finished.
    pub fn finish_save(&mut self, outcome: Result<(), String>)
        ensures
            exists|now: Instant| saved(*old(self), *final(self), now, outcome),
    {
        let now = instant_now();
        self.finish_save_at(now, outcome);
    }

    /// Adds an empty note, opens it, and records the change, at monotonic
    /// time `now` and wall-clock time `wall`; the new note's identifier. The
    /// notes are then to be saved.
    pub fn new_note_at(&mut self, now: Instant, wall: u64) -> (id: u64)
        requires
            old(self).notes.next_id < u64::MAX,
        ensures
            added(*old(self), *final(self), now, wall, id),
    {
        let id = self.notes.next_id;
        self.notes.next_id = self.notes.next_id + 1;
        let color = (id as usize) % NOTE_COLOR_COUNT;
        let n = Note::new_at(id, color, wall);
        let ghost fresh = n;
        self.notes.notes.push(n);
        self.current = Some(id);
        self.confirm_delete = false;
        self.mark_dirty_at(now, wall);
        assert(Note::fresh(id, ((id as usize) % 6) as usize, wall, fresh));
        id
    }

    /// Adds an empty note now, opens it, and records the change; the new
    /// note's identifier. The notes are then to be saved.
    pub fn new_note(&mut self) -> (id: u64)
        requires
            old(self).notes.next_id < u64::MAX,
        ensures
            exists|now: Instant, wall: u64| added(*old(self), *final(self), now, wall, id),
    {
        let now = instant_now();
        let wall = now_secs();
        self.new_note_at(now, wall)
    }

    /// Deletes the notes with the identifier of the right-clicked note, or
    /// else of the open one, at monotonic time `now` and wall-clock time
    /// `wall`. Whether there was such a note to delete: then the notes are
    /// to be saved; else nothing changes.
    pub fn delete_current_at(&mut self, now: Instant, wall: u64) -> (r: bool)
        ensures
            r == (delete_target(*old(self)) is Some),
            r ==> deleted(*old(self), *final(self), now, wall, delete_target(*old(self))->0),
            !r ==> *final(self) == *old(self),
    {
        let target = match self.context_menu_note {
            Some(id) => Some(id),
            None => self.current,
        };
        match target {
            Some(id) => {
                self.notes.remove_id(id);
                if self.current == Some(id) {
                    self.current = None;
                }
                self.context_menu_note = None;
                self.confirm_delete = false;
                self.mark_dirty_at(now, wall);
                true
            },
            None => false,
        }
    }

    /// Deletes the right-clicked note, or else the open one, now.
    pub fn delete_current(&mut self) -> (r: bool)
        ensures
            r == (delete_target(*old(self)) is Some),
            r ==> exists|now: Instant, wall: u64|
                deleted(*old(self), *final(self), now, wall, delete_target(*old(self))->0),
            !r ==> *final(self) == *old(self),
    {
        let now = instant_now();
        let wall = now_secs();
        self.delete_current_at(now, wall)
    }

    /// Whether the unsaved changes are due to be saved now.
    pub fn autosave_due(&self) -> (r: bool)
        ensures
            exists|since_change: Option<u128>, since_save: u128|
                (since_change is Some <==> self.dirty_since is Some) && r == save_due(
                    self.dirty,
                    since_change,
                    since_save,
                ),
    {
        let since_change = match &self.dirty_since {
            Some(t) => Some(duration_as_millis(&instant_elapsed(t))),
            None => None,
        };
        let since_save = duration_as_millis(&instant_elapsed(&self.last_save));
        autosave_due_at(self.dirty, since_change, since_save)
    }

    /// Opens the note `id` in the editor (a click on its card).
    pub fn select_note(&mut self, id: u64)
        ensures
            final(self).current == Some(id),
            !final(self).confirm_delete,
            final(self).context_menu_note == old(self).context_menu_note,
            same_data(*old(self), *final(self)),
    {
        self.current = Some(id);
        self.confirm_delete = false;
    }

    /// Asks whether to delete the note `id` (its card's context menu).
    pub fn request_delete(&mut self, id: u64)
        ensures
            final(self).context_menu_note == Some(id),
            final(self).confirm_delete,
            final(self).current == old(self).current,
            same_data(*old(self), *final(self)),
    {
        self.context_menu_note = Some(id);
        self.confirm_delete = true;
    }

    /// Dismisses the deletion request (the Escape key).
    pub fn cancel_delete(&mut self)
        ensures
            !final(self).confirm_delete,
            final(self).context_menu_note is None,
            final(self).current == old(self).current,
            same_data(*old(self), *final(self)),
    {
        self.confirm_delete = false;
        self.context_menu_note = None;
    }

    /// The answer to the "delete this note?" dialog, which is acted on only
    /// while the dialog is open (`confirm_delete`): `Some(true)` to delete,
    /// `Some(false)` to cancel, `None` for no answer, with `open` false where
    /// the dialog was closed. Whether notes were deleted and are to be saved.
    pub fn resolve_delete_dialog_at(&mut self, answer: Option<bool>, open: bool, now: Instant, wall: u64) -> (r: bool)
        ensures
            !old(self).confirm_delete ==> !r && *final(self) == *old(self),
            old(self).confirm_delete && answer == Some(true) ==> r == (delete_target(*old(self)) is Some)
                && (r ==> deleted(*old(self), *final(self), now, wall, delete_target(*old(self))->0))
                && (!r ==> *final(self) == *old(self)),
            answer != Some(true) ==> !r && final(self).current == old(self).current && same_data(
                *old(self),
                *final(self),
            ),
            old(self).confirm_delete && (answer == Some(false) || (answer is None && !open))
                ==> !final(self).confirm_delete && final(self).context_menu_note is None,
            (answer is None && open) ==> *final(self) == *old(self),
    {
        if !self.confirm_delete {
            return false;
        }
        match answer {
            Some(true) => self.delete_current_at(now, wall),
            Some(false) => {
                self.cancel_delete();
                false
            },
            None => {
                if !open {
                    self.cancel_delete();
                }
                false
            },
        }
    }

    /// The answer to the "delete this note?" dialog, acted on now. Whether
    /// notes were deleted and are to be saved.
    pub fn resolve_delete_dialog(&mut self, answer: Option<bool>, open: bool) -> (r: bool)
        ensures
            !old(self).confirm_delete ==> !r && *final(self) == *old(self),
            old(self).confirm_delete && answer == Some(true) ==> r == (delete_target(*old(self)) is Some)
                && (r ==> exists|now: Instant, wall: u64|
                deleted(*old(self), *final(self), now, wall, delete_target(*old(self))->0))
                && (!r ==> *final(self) == *old(self)),
            answer != Some(true) ==> !r && final(self).current == old(self).current && same_data(
                *old(self),
                *final(self),
            ),
            old(self).confirm_delete && (answer == Some(false) || (answer is None && !open))
                ==> !final(self).confirm_delete && final(self).context_menu_note is None,
            (answer is None && open) ==> *final(self) == *old(self),
    {
        let now = instant_now();
        let wall = now_secs();
        self.resolve_delete_dialog_at(answer, open, now, wall)
    }

    /// The index of the note open in the editor; where it no longer exists,
    /// the editor is closed.
    pub fn open_note(&mut self) -> (r: Option<usize>)
        ensures
            same_data(*old(self), *final(self)),
            match old(self).current {
                None => r is None && final(self).current is None,
                Some(id) => match position_of(old(self).notes.notes@, id) {
                    Some(k) => r == Some(k as usize) && final(self).current == Some(id),
                    None => r is None && final(self).current is None,
                },
            },
            final(self).confirm_delete == old(self).confirm_delete,
            final(self).context_menu_note == old(self).context_menu_note,
    {
        match self.current {
            None => None,
            Some(id) => match first_position(&self.notes.notes, id) {
                Some(k) => Some(k),
                None => {
                    self.current = None;
                    None
                },
            },
        }
    }
}

} // verus!
