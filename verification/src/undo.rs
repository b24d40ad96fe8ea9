//! Undo/redo history for an editor tab: snapshot-based undo and redo, with
//! rapid consecutive edits grouped into one undo step.
use std::time::{Duration, Instant};
use vstd::prelude::*;

verus! {

/// Time window in milliseconds within which consecutive edits form one undo step.
pub const EDIT_GROUP_MS: u128 = 500;

#[verifier::external_type_specification]
#[verifier::external_body]
pub struct ExInstant(Instant);

/// Reads the monotonic clock through `std::time::Instant::now`. Nothing is
/// claimed of the instant returned.
#[verifier::external_body]
fn clock_now() -> (now: Instant) {
    Instant::now()
}

/// `Instant::duration_since`: the time elapsed from `earlier` to `later`
/// (zero when `later` is the earlier one). Nothing is claimed of the value:
/// instants are opaque here.
#[verifier::external_body]
fn duration_between(later: &Instant, earlier: &Instant) -> (d: Duration) {
    later.duration_since(*earlier)
}

/// `Duration::as_millis`: the whole milliseconds of `d`. Nothing is claimed
/// of the value: durations are opaque here.
#[verifier::external_body]
fn duration_millis(d: &Duration) -> (ms: u128) {
    d.as_millis()
}

/// A snapshot of the editor content: the text and the cursor's byte offset.
#[derive(Clone, Debug)]
pub struct EditSnapshot {
    /// The content at this point
    pub content: String,
    /// Cursor position (byte offset)
    pub cursor_pos: usize,
}

/// The mathematical value of a snapshot: its text and cursor offset.
pub type SnapshotView = (Seq<char>, usize);

impl View for EditSnapshot {
    type V = SnapshotView;

    open spec fn view(&self) -> SnapshotView {
        (self.content@, self.cursor_pos)
    }
}

/// The views of a sequence of snapshots.
pub open spec fn snapshot_views(s: Seq<EditSnapshot>) -> Seq<SnapshotView> {
    s.map_values(|e: EditSnapshot| e@)
}

/// A copy of a stack of snapshots.
pub fn copy_snapshots(v: &Vec<EditSnapshot>) -> (r: Vec<EditSnapshot>)
    ensures
        snapshot_views(r@) == snapshot_views(v@),
{
    let mut r: Vec<EditSnapshot> = Vec::new();
    let mut i: usize = 0;
    while i < v.len()
        invariant
            0 <= i <= v@.len(),
            r@.len() == i,
            forall|j: int| 0 <= j < i ==> r@[j]@ == v@[j]@,
        decreases v@.len() - i,
    {
        r.push(EditSnapshot { content: v[i].content.clone(), cursor_pos: v[i].cursor_pos });
        i = i + 1;
    }
    assert(snapshot_views(r@) =~= snapshot_views(v@));
    r
}

/// The two stacks of an undo history, oldest entry first.
pub struct UndoModel {
    pub undo: Seq<SnapshotView>,
    pub redo: Seq<SnapshotView>,
}

/// The limit actually applied: a zero limit keeps one step.
pub open spec fn effective_limit(limit: nat) -> nat {
    if limit < 1 { 1 } else { limit }
}

/// `stack` with `snap` pushed on top, keeping only the newest `limit` entries.
pub open spec fn push_bounded(stack: Seq<SnapshotView>, snap: SnapshotView, limit: nat) -> Seq<SnapshotView> {
    let pushed = stack.push(snap);
    let keep = effective_limit(limit);
    if pushed.len() > keep {
        pushed.skip(pushed.len() - keep)
    } else {
        pushed
    }
}

/// Starting a new undo step: the old state goes on the undo stack (bounded by
/// `limit`) and the redo stack is emptied.
pub open spec fn model_record(m: UndoModel, snap: SnapshotView, limit: nat) -> UndoModel {
    UndoModel { undo: push_bounded(m.undo, snap, limit), redo: Seq::empty() }
}

/// Undo from the state `cur`: the newest undo entry is restored and `cur`
/// goes on the redo stack; nothing changes when the undo stack is empty.
pub open spec fn model_undo(m: UndoModel, cur: SnapshotView) -> (UndoModel, Option<SnapshotView>) {
    if m.undo.len() == 0 {
        (m, None)
    } else {
        (UndoModel { undo: m.undo.drop_last(), redo: m.redo.push(cur) }, Some(m.undo.last()))
    }
}

/// Redo from the state `cur`: the newest redo entry is restored and `cur`
/// goes on the undo stack; nothing changes when the redo stack is empty.
pub open spec fn model_redo(m: UndoModel, cur: SnapshotView) -> (UndoModel, Option<SnapshotView>) {
    if m.redo.len() == 0 {
        (m, None)
    } else {
        (UndoModel { undo: m.undo.push(cur), redo: m.redo.drop_last() }, Some(m.redo.last()))
    }
}

/// Undo/redo history for a tab.
#[derive(Clone, Debug)]
pub struct UndoHistory {
    /// Stack of previous states (for undo)
    pub undo_stack: Vec<EditSnapshot>,
    /// Stack of undone states (for redo)
    pub redo_stack: Vec<EditSnapshot>,
    /// Time of the last recorded edit, for grouping
    pub last_edit_time: Option<Instant>,
    /// Whether an undo/redo is being applied (recording is suppressed meanwhile)
    pub in_undo_redo: bool,
}

impl View for UndoHistory {
    type V = UndoModel;

    open spec fn view(&self) -> UndoModel {
        UndoModel { undo: snapshot_views(self.undo_stack@), redo: snapshot_views(self.redo_stack@) }
    }
}

impl Default for UndoHistory {
    fn default() -> (h: Self)
        ensures
            h@ == (UndoModel { undo: Seq::empty(), redo: Seq::empty() }),
            h.last_edit() is None,
            !h.applying(),
    {
        let h = UndoHistory { undo_stack: Vec::new(), redo_stack: Vec::new(), last_edit_time: None, in_undo_redo: false };
        assert(h@.undo =~= Seq::<SnapshotView>::empty());
        assert(h@.redo =~= Seq::<SnapshotView>::empty());
        h
    }
}

/// The state a history is in after `record_edit_at` in state `old`, when the
/// edit grouped into the previous step (`grouped`) or not.
pub open spec fn recorded(old: UndoHistory, new: UndoHistory, snap: SnapshotView, limit: nat, grouped: bool) -> bool {
    &&& !new.applying()
    &&& new.last_edit() is Some
    &&& if grouped {
        new@ == old@
    } else {
        new@ == model_record(old@, snap, limit)
    }
}

/// Whether an edit recorded `elapsed_ms` milliseconds after the last recorded
/// edit of `h` joins that edit's undo step: there is a last edit and the time
/// is below `EDIT_GROUP_MS`.
pub open spec fn joins_last_step(h: UndoHistory, elapsed_ms: Option<u128>) -> bool {
    h.last_edit() is Some && (elapsed_ms matches Some(ms) && ms < EDIT_GROUP_MS)
}

impl UndoHistory {
    /// Time of the last recorded edit, if any.
    pub open spec fn last_edit(&self) -> Option<Instant> {
        self.last_edit_time
    }

    /// Whether an undo or redo is being applied, so that edits are not recorded.
    pub open spec fn applying(&self) -> bool {
        self.in_undo_redo
    }

    /// A copy of the stacks, as a session saves them (grouping and undo state
    /// start fresh).
    pub fn saved_copy(&self) -> (h: Self)
        ensures
            h@ == self@,
            h.last_edit() is None,
            !h.applying(),
    {
        UndoHistory {
            undo_stack: copy_snapshots(&self.undo_stack),
            redo_stack: copy_snapshots(&self.redo_stack),
            last_edit_time: None,
            in_undo_redo: false,
        }
    }

    /// Build a history from saved stacks (grouping and undo state start fresh).
    pub fn from_stacks(undo_stack: Vec<EditSnapshot>, redo_stack: Vec<EditSnapshot>) -> (h: Self)
        ensures
            h@ == (UndoModel { undo: snapshot_views(undo_stack@), redo: snapshot_views(redo_stack@) }),
            h.last_edit() is None,
            !h.applying(),
    {
        UndoHistory { undo_stack, redo_stack, last_edit_time: None, in_undo_redo: false }
    }

    /// Record an edit made at `now`, whose previous state was `old_content`
    /// with the cursor at `old_cursor`. `elapsed_ms` is the time from the last
    /// recorded edit to `now`, in milliseconds (none when it is not known). The
    /// edit joins the previous step exactly when there is a last edit and it
    /// came less than `EDIT_GROUP_MS` before; otherwise it starts a new step.
    /// Nothing is recorded while an undo/redo is being applied.
    pub fn record_edit_at(&mut self, old_content: &str, old_cursor: usize, limit: usize, now: Instant, elapsed_ms: Option<u128>)
        ensures
            old(self).applying() ==> *final(self) == *old(self),
            !old(self).applying() ==> recorded(
                *old(self),
                *final(self),
                (old_content@, old_cursor),
                limit as nat,
                joins_last_step(*old(self), elapsed_ms),
            ),
            !old(self).applying() ==> final(self).last_edit() == Some(now),
    {
        if self.in_undo_redo {
            return;
        }
        let keep = if limit < 1 { 1 } else { limit };
        let within_window = match elapsed_ms {
            Some(ms) => ms < EDIT_GROUP_MS,
            None => false,
        };
        let should_group = self.last_edit_time.is_some() && within_window;
        if !should_group {
            let ghost before = self.undo_stack@;
            self.undo_stack.push(EditSnapshot { content: old_content.to_string(), cursor_pos: old_cursor });
            let ghost pushed = self.undo_stack@;
            while self.undo_stack.len() > keep
                invariant
                    keep >= 1,
                    !self.in_undo_redo,
                    pushed.len() >= self.undo_stack@.len(),
                    pushed.len() > keep ==> self.undo_stack@.len() >= keep,
                    pushed.len() <= keep ==> self.undo_stack@.len() == pushed.len(),
                    self.undo_stack@ == pushed.skip(pushed.len() - self.undo_stack@.len()),
                decreases self.undo_stack@.len(),
            {
                self.undo_stack.remove(0);
                assert(self.undo_stack@ =~= pushed.skip(pushed.len() - self.undo_stack@.len()));
            }
            self.redo_stack.clear();
            proof {
                let snap = (old_content@, old_cursor);
                assert(snapshot_views(pushed) =~= snapshot_views(before).push(snap));
                assert(snapshot_views(self.undo_stack@) =~= push_bounded(snapshot_views(before), snap, limit as nat));
                assert(snapshot_views(self.redo_stack@) =~= Seq::<SnapshotView>::empty());
                assert(self@ == model_record(old(self)@, snap, limit as nat));
            }
        }
        self.last_edit_time = Some(now);
    }

    /// Record an edit whose previous state was `old_content` with the cursor
    /// at `old_cursor`, keeping at most `limit` undo steps (a zero limit keeps
    /// one). The monotonic clock is read; the edit joins the previous step
    /// exactly when the previous edit was recorded less than `EDIT_GROUP_MS`
    /// before (what `record_edit_at` states for the elapsed time read).
    pub fn record_edit(&mut self, old_content: &str, old_cursor: usize, limit: usize)
        ensures
            old(self).applying() ==> *final(self) == *old(self),
            !old(self).applying() ==> exists|elapsed_ms: u128| recorded(
                *old(self),
                *final(self),
                (old_content@, old_cursor),
                limit as nat,
                joins_last_step(*old(self), Some(elapsed_ms)),
            ),
    {
        if self.in_undo_redo {
            return;
        }
        let now = clock_now();
        let elapsed_ms = match &self.last_edit_time {
            Some(t) => {
                let elapsed = duration_between(&now, t);
                Some(duration_millis(&elapsed))
            },
            None => None,
        };
        self.record_edit_at(old_content, old_cursor, limit, now, elapsed_ms);
        proof {
            let e: u128 = match elapsed_ms { Some(ms) => ms, None => 0 };
            assert(joins_last_step(*old(self), Some(e)) == joins_last_step(*old(self), elapsed_ms));
        }
    }

    /// Undo the last edit from the current state (`current_content`,
    /// `current_cursor`), which moves to the redo stack; returns the state to
    /// restore, or `None` when there is nothing to undo.
    pub fn undo(&mut self, current_content: &str, current_cursor: usize) -> (r: Option<EditSnapshot>)
        ensures
            final(self)@ == model_undo(old(self)@, (current_content@, current_cursor)).0,
            r matches Some(s) ==> model_undo(old(self)@, (current_content@, current_cursor)).1 == Some(s@),
            r is None <==> old(self)@.undo.len() == 0,
            r is None ==> final(self).applying() == old(self).applying(),
            r is Some ==> final(self).applying(),
            final(self).last_edit() == old(self).last_edit(),
    {
        if let Some(snapshot) = self.undo_stack.pop() {
            let ghost before = self.redo_stack@;
            self.redo_stack.push(EditSnapshot { content: current_content.to_string(), cursor_pos: current_cursor });
            self.in_undo_redo = true;
            proof {
                assert(snapshot_views(self.undo_stack@) =~= snapshot_views(old(self).undo_stack@).drop_last());
                assert(snapshot_views(self.redo_stack@) =~= snapshot_views(before).push((current_content@, current_cursor)));
            }
            Some(snapshot)
        } else {
            None
        }
    }

    /// Redo the last undone edit from the current state, which moves to the
    /// undo stack; returns the state to restore, or `None` when there is
    /// nothing to redo.
    pub fn redo(&mut self, current_content: &str, current_cursor: usize) -> (r: Option<EditSnapshot>)
        ensures
            final(self)@ == model_redo(old(self)@, (current_content@, current_cursor)).0,
            r matches Some(s) ==> model_redo(old(self)@, (current_content@, current_cursor)).1 == Some(s@),
            r is None <==> old(self)@.redo.len() == 0,
            r is None ==> final(self).applying() == old(self).applying(),
            r is Some ==> final(self).applying(),
            final(self).last_edit() == old(self).last_edit(),
    {
        if let Some(snapshot) = self.redo_stack.pop() {
            let ghost before = self.undo_stack@;
            self.undo_stack.push(EditSnapshot { content: current_content.to_string(), cursor_pos: current_cursor });
            self.in_undo_redo = true;
            proof {
                assert(snapshot_views(self.redo_stack@) =~= snapshot_views(old(self).redo_stack@).drop_last());
                assert(snapshot_views(self.undo_stack@) =~= snapshot_views(before).push((current_content@, current_cursor)));
            }
            Some(snapshot)
        } else {
            None
        }
    }

    /// Mark that an undo/redo operation is complete: recording resumes and the
    /// next edit starts a new step.
    pub fn finish_undo_redo(&mut self)
        ensures
            final(self)@ == old(self)@,
            !final(self).applying(),
            final(self).last_edit() is None,
    {
        self.in_undo_redo = false;
        self.last_edit_time = None;
    }
}

/// Undoing and then redoing from the restored state gives back the state the
/// undo started from and returns the stacks to where they were.
pub proof fn lemma_undo_then_redo(m: UndoModel, cur: SnapshotView)
    requires
        m.undo.len() > 0,
    ensures
        ({
            let (m1, restored) = model_undo(m, cur);
            let (m2, back) = model_redo(m1, restored.unwrap());
            m2 == m && back == Some(cur)
        }),
{
    let (m1, restored) = model_undo(m, cur);
    assert(m1.undo.push(restored.unwrap()) =~= m.undo);
    assert(m1.redo.drop_last() =~= m.redo);
}

/// Redoing and then undoing from the restored state gives back the state the
/// redo started from and returns the stacks to where they were.
pub proof fn lemma_redo_then_undo(m: UndoModel, cur: SnapshotView)
    requires
        m.redo.len() > 0,
    ensures
        ({
            let (m1, restored) = model_redo(m, cur);
            let (m2, back) = model_undo(m1, restored.unwrap());
            m2 == m && back == Some(cur)
        }),
{
    let (m1, restored) = model_redo(m, cur);
    assert(m1.redo.push(restored.unwrap()) =~= m.redo);
    assert(m1.undo.drop_last() =~= m.undo);
}

/// A new undo step keeps at most the limit of entries (at least one), the
/// newest being the recorded state, and empties the redo stack.
pub proof fn lemma_record_bounds(m: UndoModel, snap: SnapshotView, limit: nat)
    ensures
        model_record(m, snap, limit).undo.len() <= effective_limit(limit),
        model_record(m, snap, limit).undo.len() >= 1,
        model_record(m, snap, limit).undo.last() == snap,
        model_record(m, snap, limit).redo.len() == 0,
{
}

} // verus!
