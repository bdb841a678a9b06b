use editor_core::buffer::Buffer;
use editor_core::history::StateHistory;

fn chars(s: &str) -> Vec<char> {
    s.chars().collect()
}

fn buffer_of(lines: &[&str]) -> Buffer {
    let rows: Vec<Vec<char>> = lines.iter().map(|l| chars(l)).collect();
    Buffer::_from_lines(rows)
}

fn first_row(b: &Buffer) -> String {
    b.nth(0).iter().collect()
}

#[test]
fn new_history_is_empty() {
    let h = StateHistory::new();
    assert_eq!(h.len(), 0);
    assert_eq!(h.cursor(), 0);
}

#[test]
fn previous_on_a_single_snapshot_returns_nothing() {
    let mut h = StateHistory::new();
    h.push(&buffer_of(&["only"]));
    assert!(h.previous().is_none());
}

#[test]
fn next_at_the_newest_snapshot_returns_nothing() {
    let mut h = StateHistory::new();
    h.push(&buffer_of(&["one"]));
    assert!(h.next().is_none());
}

#[test]
fn undo_then_redo_round_trips() {
    let mut h = StateHistory::new();
    let s0 = buffer_of(&["before"]);
    let s1 = buffer_of(&["after"]);
    h.push(&s0);
    h.push(&s1);
    let undone = h.previous().expect("a state before the last push");
    assert_eq!(first_row(&undone), "before");
    let redone = h.next().expect("the pushed state again");
    assert_eq!(first_row(&redone), "after");
    assert!(h.next().is_none());
}

#[test]
fn undo_walks_back_through_snapshots() {
    let mut h = StateHistory::new();
    h.push(&buffer_of(&["v1"]));
    h.push(&buffer_of(&["v2"]));
    h.push(&buffer_of(&["v3"]));
    assert_eq!(first_row(&h.previous().unwrap()), "v2");
    assert_eq!(first_row(&h.previous().unwrap()), "v1");
    assert!(h.previous().is_none());
    assert_eq!(first_row(&h.next().unwrap()), "v2");
}

#[test]
fn push_after_undo_discards_the_redo_branch() {
    let mut h = StateHistory::new();
    h.push(&buffer_of(&["v1"]));
    h.push(&buffer_of(&["v2"]));
    h.previous();
    h.push(&buffer_of(&["v2b"]));
    assert_eq!(h.len(), 2);
    assert_eq!(first_row(&h.previous().unwrap()), "v1");
    assert_eq!(first_row(&h.next().unwrap()), "v2b");
    assert!(h.next().is_none());
}

#[test]
fn snapshots_are_copies_not_references() {
    let mut h = StateHistory::new();
    let mut b = buffer_of(&["original"]);
    h.push(&b);
    h.push(&buffer_of(&["changed"]));
    b.set(buffer_of(&["mutated later"]));
    let undone = h.previous().expect("snapshot");
    assert_eq!(first_row(&undone), "original");
}
