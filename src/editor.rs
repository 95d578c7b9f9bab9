//! The input line's undo history and its grapheme positions.

use vstd::prelude::*;
use vstd::utf8::*;
use unicode_segmentation::UnicodeSegmentation;

verus! {

/// What the key handler does after a key.
#[derive(PartialEq, Eq, Structural, Clone, Copy, Debug)]
pub enum ControlFlow {
    Continue,
    Quit,
}

/// The kind of an edit; a change of kind always starts a new undo step.
#[derive(PartialEq, Eq, Structural, Clone, Copy, Debug)]
pub enum OpKind {
    Insert,
    Other,
}

/// The number of extended grapheme clusters of `s`.
pub uninterp spec fn grapheme_count_of(s: Seq<char>) -> nat;

/// The byte offsets at which the extended grapheme clusters of `s` start, in order.
pub uninterp spec fn grapheme_starts_of(s: Seq<char>) -> Seq<usize>;

/// Relies on `UnicodeSegmentation::graphemes(true).count()`; every cluster holds at
/// least one character.
#[verifier::external_body]
fn grapheme_count(s: &str) -> (r: usize)
    ensures
        r == grapheme_count_of(s@),
        r <= s@.len(),
{
    s.graphemes(true).count()
}

/// Relies on `UnicodeSegmentation::grapheme_indices(true)`, keeping each cluster's byte
/// offset.
#[verifier::external_body]
fn grapheme_starts(s: &str) -> (r: Vec<usize>)
    ensures
        r@ == grapheme_starts_of(s@),
{
    s.grapheme_indices(true).map(|(i, _)| i).collect()
}

/// Relies on `chrono::Utc::now().timestamp_millis()`: the current Unix time in ms.
#[verifier::external_body]
fn unix_now_millis() -> (r: i64) {
    chrono::Utc::now().timestamp_millis()
}

/// The byte offset of the `n`-th grapheme cluster of `s`, or the length of `s` when it
/// has no more than `n`.
pub fn nth_grapheme_byte_idx(s: &str, n: usize) -> (r: usize)
    ensures
        r == if n < grapheme_starts_of(s@).len() {
            grapheme_starts_of(s@)[n as int] as int
        } else {
            encode_utf8(s@).len() as int
        },
{
    let starts = grapheme_starts(s);
    if n < starts.len() {
        starts[n]
    } else {
        s.as_bytes().len()
    }
}

/// Milliseconds after which an edit of the same kind starts a new undo step.
pub const UNDO_PAUSE_MS: i64 = 500;

pub struct UndoView {
    pub stack: Seq<(Seq<char>, usize)>,
    pub last_save: i64,
    pub last_kind: OpKind,
    pub max_depth: usize,
}

impl UndoView {
    /// The history holds at most 200 snapshots.
    pub open spec fn wf(self) -> bool {
        self.max_depth == 200 && self.stack.len() <= self.max_depth
    }
}

/// Whether an edit of `kind` at time `now` (in ms) saves a snapshot: after a pause of
/// more than 500 ms, or when the kind of edit changes.
pub open spec fn saves_at(u: UndoView, kind: OpKind, now: i64) -> bool {
    now - u.last_save > UNDO_PAUSE_MS || kind != u.last_kind
}

/// The history after saving a snapshot: the oldest snapshot goes once there are more
/// than `max_depth`.
pub open spec fn pushed(u: UndoView, input: Seq<char>, cursor: usize, kind: OpKind, now: i64) -> UndoView {
    let s = u.stack.push((input, cursor));
    UndoView {
        stack: if s.len() > u.max_depth { s.drop_first() } else { s },
        last_save: now,
        last_kind: kind,
        max_depth: u.max_depth,
    }
}

pub struct UndoMgr {
    stack: Vec<(String, usize)>,
    last_save: i64,
    last_kind: OpKind,
    max_depth: usize,
}

impl UndoMgr {
    pub closed spec fn view(&self) -> UndoView {
        UndoView {
            stack: self.stack@.map_values(|e: (String, usize)| (e.0@, e.1)),
            last_save: self.last_save,
            last_kind: self.last_kind,
            max_depth: self.max_depth,
        }
    }

    /// An empty history of depth 200, as of time `now` (in ms).
    pub fn new_at(now: i64) -> (r: UndoMgr)
        ensures
            r@.stack.len() == 0,
            r@.last_save == now,
            r@.last_kind == OpKind::Other,
            r@.max_depth == 200,
            r@.wf(),
    {
        UndoMgr { stack: Vec::new(), last_save: now, last_kind: OpKind::Other, max_depth: 200 }
    }

    /// An empty history of depth 200.
    pub fn new() -> (r: UndoMgr)
        ensures
            r@.stack.len() == 0,
            r@.last_kind == OpKind::Other,
            r@.max_depth == 200,
            r@.wf(),
    {
        UndoMgr::new_at(unix_now_millis())
    }

    /// Saves a snapshot of the input and cursor before an edit of `kind` at time `now`
    /// (in ms), when `saves_at` says so.
    pub fn maybe_push_at(&mut self, input: &String, cursor: usize, kind: OpKind, now: i64)
        ensures
            final(self)@ == if saves_at(old(self)@, kind, now) {
                pushed(old(self)@, input@, cursor, kind, now)
            } else {
                old(self)@
            },
            old(self)@.wf() ==> final(self)@.wf(),
    {
        let elapsed: i128 = now as i128 - self.last_save as i128;
        if elapsed > UNDO_PAUSE_MS as i128 || kind != self.last_kind {
            let ghost s = old(self)@.stack.push((input@, cursor));
            self.stack.push((input.clone(), cursor));
            assert(self.stack@.map_values(|e: (String, usize)| (e.0@, e.1)) =~= s);
            if self.stack.len() > self.max_depth {
                self.stack.remove(0);
                assert(self.stack@.map_values(|e: (String, usize)| (e.0@, e.1)) =~= s.drop_first());
            }
            self.last_save = now;
            self.last_kind = kind;
        }
    }

    /// Saves a snapshot before an edit of `kind`, at the current time.
    pub fn maybe_push(&mut self, input: &String, cursor: usize, kind: OpKind)
        ensures
            exists|now: i64| final(self)@ == if saves_at(old(self)@, kind, now) {
                pushed(old(self)@, input@, cursor, kind, now)
            } else {
                old(self)@
            },
            old(self)@.wf() ==> final(self)@.wf(),
    {
        let now = unix_now_millis();
        self.maybe_push_at(input, cursor, kind, now);
    }

    /// Undoes one step: restores the latest snapshot, with the cursor kept within the
    /// restored input's grapheme count. Nothing happens when there is none.
    pub fn undo(&mut self, input: &mut String, cursor: &mut usize)
        ensures
            old(self)@.stack.len() == 0 ==> final(self)@ == old(self)@ && final(input)@ == old(input)@ && *final(cursor) == *old(cursor),
            old(self)@.stack.len() > 0 ==> {
                let (prev, pos) = old(self)@.stack.last();
                &&& final(self)@ == UndoView { stack: old(self)@.stack.drop_last(), ..old(self)@ }
                &&& final(input)@ == prev
                &&& *final(cursor) == if pos <= grapheme_count_of(prev) { pos as int } else { grapheme_count_of(prev) as int }
            },
            old(self)@.wf() ==> final(self)@.wf(),
    {
        let ghost s0 = self@.stack;
        match self.stack.pop() {
            Some((prev, pos)) => {
                assert(self.stack@.map_values(|e: (String, usize)| (e.0@, e.1)) =~= s0.drop_last());
                *input = prev;
                let n = grapheme_count(input.as_str());
                *cursor = if pos <= n { pos } else { n };
            },
            None => {},
        }
    }
}

} // verus!
