//! Edit history: a linear stack of buffer snapshots with an undo/redo
//! cursor. Pushing a snapshot discards any redo entries beyond the cursor
//! (truncate-on-new-edit), then appends and advances.

use vstd::prelude::*;

use crate::buffer::{BufView, Buffer};

verus! {

/// Mathematical state of a history: the snapshots and the cursor, counted
/// as the number of snapshots at or before the current position.
pub ghost struct HistView {
    pub entries: Seq<BufView>,
    pub cur: int,
}

/// History invariant: the cursor stays within the stack and every stored
/// snapshot is a well-formed buffer state.
pub open spec fn hist_wf(h: HistView) -> bool {
    &&& 0 <= h.cur <= h.entries.len()
    &&& forall|i: int| 0 <= i < h.entries.len() ==> crate::buffer::view_wf(#[trigger] h.entries[i])
}

/// Pushing discards the entries beyond the cursor and appends the new
/// snapshot; the cursor lands just past it.
pub open spec fn push_hist(h: HistView, s: BufView) -> HistView {
    HistView { entries: h.entries.take(h.cur).push(s), cur: h.cur + 1 }
}

/// Stepping back: with at least one snapshot before the current one, the
/// cursor retreats and the snapshot one step earlier is produced.
pub open spec fn prev_hist(h: HistView) -> (HistView, Option<BufView>) {
    if h.cur > 1 {
        (HistView { entries: h.entries, cur: h.cur - 1 }, Option::Some(h.entries[h.cur - 2]))
    } else {
        (h, Option::None)
    }
}

/// Stepping forward: with entries beyond the cursor, the cursor advances
/// and the snapshot it lands on is produced.
pub open spec fn next_hist(h: HistView) -> (HistView, Option<BufView>) {
    if h.cur < h.entries.len() {
        (HistView { entries: h.entries, cur: h.cur + 1 }, Option::Some(h.entries[h.cur]))
    } else {
        (h, Option::None)
    }
}

/// The undo/redo history of buffer snapshots.
pub struct StateHistory {
    entries: Vec<Buffer>,
    cur: usize,
}

impl View for StateHistory {
    type V = HistView;

    closed spec fn view(&self) -> HistView {
        HistView {
            entries: Seq::new(self.entries@.len(), |i: int| self.entries@[i]@),
            cur: self.cur as int,
        }
    }
}

impl StateHistory {
    pub open spec fn wf(self) -> bool {
        hist_wf(self@)
    }

    /// An empty history.
    pub fn new() -> (h: StateHistory)
        ensures
            h.wf(),
            h@.entries =~= Seq::<BufView>::empty(),
            h@.cur == 0,
    {
        StateHistory { entries: Vec::new(), cur: 0 }
    }

    /// Number of stored snapshots.
    pub fn len(&self) -> (n: usize)
        ensures
            n == self@.entries.len(),
    {
        self.entries.len()
    }

    /// The undo cursor's position.
    pub fn cursor(&self) -> (n: usize)
        ensures
            n == self@.cur,
    {
        self.cur
    }

    /// Record a snapshot of the buffer at the cursor, discarding any redo
    /// entries beyond it.
    pub fn push(&mut self, snap: &Buffer)
        requires
            old(self).wf(),
            snap.wf(),
        ensures
            final(self).wf(),
            final(self)@ == push_hist(old(self)@, snap@),
    {
        let ghost e0 = self.entries@;
        self.entries.truncate(self.cur);
        let ghost e1 = self.entries@;
        self.entries.push(snap.clone());
        self.cur = self.entries.len();
        proof {
            assert(e1 =~= e0.subrange(0, old(self)@.cur));
            assert(self@.entries =~= push_hist(old(self)@, snap@).entries);
        }
    }

    /// Step back one snapshot: the snapshot one step before the cursor, if
    /// the cursor can move back.
    pub fn previous(&mut self) -> (r: Option<Buffer>)
        requires
            old(self).wf(),
        ensures
            final(self).wf(),
            final(self)@ == prev_hist(old(self)@).0,
            r is Some <==> prev_hist(old(self)@).1 is Some,
            r is Some ==> r.unwrap()@ == prev_hist(old(self)@).1.unwrap() && r.unwrap().wf(),
    {
        if self.cur > 1 {
            self.cur = self.cur - 1;
            let snap = self.entries[self.cur - 1].clone();
            Option::Some(snap)
        } else {
            Option::None
        }
    }

    /// Step forward one snapshot: the snapshot the cursor advances onto,
    /// if any lies beyond it.
    pub fn next(&mut self) -> (r: Option<Buffer>)
        requires
            old(self).wf(),
        ensures
            final(self).wf(),
            final(self)@ == next_hist(old(self)@).0,
            r is Some <==> next_hist(old(self)@).1 is Some,
            r is Some ==> r.unwrap()@ == next_hist(old(self)@).1.unwrap() && r.unwrap().wf(),
    {
        if self.cur < self.entries.len() {
            let snap = self.entries[self.cur].clone();
            self.cur = self.cur + 1;
            Option::Some(snap)
        } else {
            Option::None
        }
    }
}

/// Undo/redo law: after pushing `s1` onto a history whose snapshot at the
/// cursor is `s0`, stepping back yields `s0`, stepping forward again
/// yields `s1`, and the history is back in its post-push position.
pub proof fn lemma_undo_redo(h: HistView, s0: BufView, s1: BufView)
    requires
        hist_wf(h),
        h.cur >= 1,
        h.entries[h.cur - 1] == s0,
    ensures
        ({
            let h1 = push_hist(h, s1);
            let (h2, r_prev) = prev_hist(h1);
            let (h3, r_next) = next_hist(h2);
            r_prev == Option::Some(s0) && r_next == Option::Some(s1) && h3 == h1
        }),
{
    let h1 = push_hist(h, s1);
    assert(h1.entries[h.cur - 1] == h.entries[h.cur - 1]);
    assert(h1.entries[h.cur] == s1);
}

} // verus!
