use runote::note::{Note, Notes};
use runote::state::{autosave_due_at, AppState};
use std::time::Instant;

fn state_with(ids: &[u64], next_id: u64) -> AppState {
    let notes = Notes { notes: ids.iter().map(|&id| Note::new_at(id, 0, 10)).collect(), next_id };
    AppState::new_at(notes, Instant::now())
}

#[test]
fn fresh_state() {
    let s = state_with(&[], 0);
    assert_eq!(s.status, "就绪，自动保存已开启");
    assert!(s.status_ok && !s.dirty && s.current.is_none() && s.dirty_since.is_none());
}

#[test]
fn new_note_takes_next_id_and_opens_it() {
    let mut s = state_with(&[0, 1], 2);
    let id = s.new_note_at(Instant::now(), 500);
    assert_eq!(id, 2);
    assert_eq!(s.notes.next_id, 3);
    assert_eq!(s.notes.notes.len(), 3);
    let n = &s.notes.notes[2];
    assert_eq!((n.id, n.color, n.created, n.updated), (2, 2, 500, 500));
    assert_eq!(s.current, Some(2));
    assert!(s.dirty && s.dirty_since.is_some());
    assert_eq!(s.status, "正在输入…");
}

#[test]
fn new_note_colors_cycle() {
    let mut s = state_with(&[], 7);
    s.new_note_at(Instant::now(), 1);
    assert_eq!(s.notes.notes[0].color, 1);
    let id = s.new_note();
    assert_eq!(id, 8);
    assert_eq!(s.notes.notes[1].color, 2);
}

#[test]
fn mark_dirty_touches_open_note_only() {
    let mut s = state_with(&[0, 1, 2], 3);
    s.select_note(1);
    s.mark_dirty_at(Instant::now(), 777);
    let times: Vec<u64> = s.notes.notes.iter().map(|n| n.updated).collect();
    assert_eq!(times, vec![10, 777, 10]);
    assert!(s.dirty);
    assert_eq!(s.status, "正在输入…");
}

#[test]
fn mark_dirty_records_latest_change_time() {
    let mut s = state_with(&[0], 1);
    let t0 = Instant::now();
    s.mark_dirty_at(t0, 1);
    let t1 = t0 + std::time::Duration::from_millis(400);
    s.mark_dirty_at(t1, 2);
    assert_eq!(s.dirty_since, Some(t1));
}

#[test]
fn delete_context_note_before_open_note() {
    let mut s = state_with(&[0, 1, 2], 3);
    s.select_note(2);
    s.request_delete(1);
    assert!(s.confirm_delete);
    assert!(s.delete_current_at(Instant::now(), 99));
    let ids: Vec<u64> = s.notes.notes.iter().map(|n| n.id).collect();
    assert_eq!(ids, vec![0, 2]);
    assert_eq!(s.current, Some(2));
    assert_eq!(s.notes.notes[1].updated, 99);
    assert!(!s.confirm_delete && s.context_menu_note.is_none());
}

#[test]
fn delete_open_note_closes_editor() {
    let mut s = state_with(&[0, 1], 2);
    s.select_note(0);
    assert!(s.delete_current());
    assert_eq!(s.notes.notes.len(), 1);
    assert_eq!(s.current, None);
}

#[test]
fn delete_without_target_changes_nothing() {
    let mut s = state_with(&[0], 1);
    assert!(!s.delete_current_at(Instant::now(), 5));
    assert_eq!(s.notes.notes.len(), 1);
    assert!(!s.dirty);
}

#[test]
fn save_outcomes() {
    let mut s = state_with(&[0], 1);
    s.mark_dirty();
    s.finish_save(Ok(()));
    assert_eq!(s.status, "已自动保存");
    assert!(s.status_ok && !s.dirty && s.dirty_since.is_none());
    assert!(!s.autosave_due());
    s.mark_dirty();
    s.finish_save(Err("disk full".to_string()));
    assert_eq!(s.status, "保存失败: disk full");
    assert!(!s.status_ok);
    assert!(s.dirty);
    assert!(s.dirty_since.is_none());
    // Retried by the heartbeat, not at once.
    assert!(!s.autosave_due());
}

#[test]
fn failed_save_is_retried_after_heartbeat() {
    assert!(!autosave_due_at(true, None, 4999));
    assert!(autosave_due_at(true, None, 5000));
}

#[test]
fn failed_save_without_changes_stays_clean() {
    let mut s = state_with(&[0], 1);
    s.finish_save_at(Instant::now(), Err("denied".to_string()));
    assert!(!s.dirty && s.dirty_since.is_none() && !s.status_ok);
}

#[test]
fn autosave_rule() {
    assert!(!autosave_due_at(false, Some(10_000), 10_000));
    assert!(autosave_due_at(true, Some(700), 0));
    assert!(!autosave_due_at(true, Some(699), 4999));
    assert!(autosave_due_at(true, None, 5000));
    assert!(!autosave_due_at(true, None, 4999));
}

#[test]
fn freshly_dirty_is_not_due() {
    let mut s = state_with(&[0], 1);
    s.mark_dirty();
    assert!(!s.autosave_due());
}

#[test]
fn delete_dialog_answers() {
    let mut s = state_with(&[0, 1], 2);
    s.request_delete(0);
    assert!(!s.resolve_delete_dialog_at(None, true, Instant::now(), 1));
    assert!(s.confirm_delete);
    assert!(!s.resolve_delete_dialog_at(Some(false), true, Instant::now(), 1));
    assert!(!s.confirm_delete && s.context_menu_note.is_none());
    s.request_delete(0);
    assert!(!s.resolve_delete_dialog_at(None, false, Instant::now(), 1));
    assert!(!s.confirm_delete);
    s.request_delete(0);
    assert!(s.resolve_delete_dialog_at(Some(true), true, Instant::now(), 1));
    assert_eq!(s.notes.notes.len(), 1);
    assert_eq!(s.notes.notes[0].id, 1);
}

#[test]
fn dialog_answer_ignored_when_not_asked() {
    let mut s = state_with(&[0, 1], 2);
    s.select_note(0);
    assert!(!s.resolve_delete_dialog_at(Some(true), true, Instant::now(), 1));
    assert_eq!(s.notes.notes.len(), 2);
    assert!(!s.resolve_delete_dialog(Some(true), true));
    assert_eq!(s.notes.notes.len(), 2);
    assert!(!s.dirty);
}

#[test]
fn escape_cancels_delete() {
    let mut s = state_with(&[0], 1);
    s.request_delete(0);
    s.cancel_delete();
    assert!(!s.confirm_delete && s.context_menu_note.is_none());
}

#[test]
fn open_note_closes_missing_note() {
    let mut s = state_with(&[4, 5], 6);
    assert_eq!(s.open_note(), None);
    s.select_note(5);
    assert_eq!(s.open_note(), Some(1));
    s.select_note(9);
    assert_eq!(s.open_note(), None);
    assert_eq!(s.current, None);
}
