use runote::note::{color_for, Note, Notes};

#[test]
fn colors_repeat_every_six() {
    assert_eq!(color_for(0), (255, 243, 176));
    assert_eq!(color_for(1), (255, 219, 219));
    assert_eq!(color_for(5), (255, 230, 199));
    assert_eq!(color_for(7), (255, 219, 219));
}

#[test]
fn new_note_is_empty() {
    let n = Note::new_at(4, 2, 1000);
    assert_eq!((n.id, n.color, n.created, n.updated), (4, 2, 1000, 1000));
    assert!(n.title.is_empty() && n.content.is_empty());
    let m = Note::new(5, 1);
    assert_eq!(m.created, m.updated);
    assert!(m.created > 1_600_000_000);
}

#[test]
fn position_finds_first() {
    let notes = Notes {
        notes: vec![Note::new_at(3, 0, 1), Note::new_at(5, 0, 2), Note::new_at(5, 0, 3)],
        next_id: 6,
    };
    assert_eq!(notes.position(5), Some(1));
    assert_eq!(notes.position(3), Some(0));
    assert_eq!(notes.position(9), None);
}

#[test]
fn remove_id_keeps_others_in_order() {
    let mut notes = Notes {
        notes: vec![Note::new_at(1, 0, 1), Note::new_at(2, 0, 2), Note::new_at(1, 0, 3), Note::new_at(3, 0, 4)],
        next_id: 4,
    };
    notes.remove_id(1);
    let ids: Vec<u64> = notes.notes.iter().map(|n| n.id).collect();
    assert_eq!(ids, vec![2, 3]);
    assert_eq!(notes.next_id, 4);
    notes.remove_id(9);
    assert_eq!(notes.notes.len(), 2);
}

#[test]
fn default_notes_are_empty() {
    let notes = Notes::default();
    assert!(notes.notes.is_empty());
    assert_eq!(notes.next_id, 0);
}
