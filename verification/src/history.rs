use std::collections::VecDeque;
use vstd::prelude::*;

verus! {

/// How many entries the history reserves room for when it is made.
pub const COMMAND_HISTORY_BUFFER_SIZE: usize = 64;

/// The history of entered commands, with a cursor that walks back (`easily`) and forth
/// (`later`) through it. `wf` is its type invariant: the cursor always points at an
/// entry, or is 0 while the history is empty.
pub struct HistoryLoader<T: Clone> {
    history_buffer: VecDeque<T>,
    history_index: usize,
}

/// The cursor after a step back (`easily`): one entry back, not before the oldest.
pub open spec fn cursor_back(cursor: nat) -> nat {
    if cursor > 0 {
        (cursor - 1) as nat
    } else {
        0
    }
}

/// The cursor after a step forth (`later`): one entry forth, not past the newest.
pub open spec fn cursor_forth(cursor: nat, len: nat) -> nat {
    if cursor + 1 < len {
        cursor + 1
    } else {
        cursor
    }
}

/// The entry under the cursor, if the history is not empty.
pub open spec fn under_cursor<T>(entries: Seq<T>, cursor: nat) -> Option<T> {
    if cursor < entries.len() {
        Some(entries[cursor as int])
    } else {
        None
    }
}

/// A step gives a clone of the entry under the cursor, or nothing where there is none.
pub open spec fn gives<T: Clone>(r: Option<T>, entries: Seq<T>, cursor: nat) -> bool {
    match (r, under_cursor(entries, cursor)) {
        (Some(x), Some(e)) => cloned(e, x),
        (None, None) => true,
        _ => false,
    }
}

/// Read after write: right after an entry is added, the cursor is on it, so the next
/// step back or forth gives it.
pub proof fn lemma_add_then_recall<T>(entries: Seq<T>, x: T)
    ensures
        under_cursor(entries.push(x), entries.len()) == Some(x),
{
}

/// The cursor stays on an entry: stepping back or forth from an entry lands on one.
pub proof fn lemma_steps_stay_in_range(cursor: nat, len: nat)
    requires
        cursor < len,
    ensures
        cursor_back(cursor) < len,
        cursor_forth(cursor, len) < len,
{
}

/// The cursor after `j` steps back from `cursor`.
pub open spec fn steps_back(cursor: nat, j: nat) -> nat
    decreases j,
{
    if j == 0 {
        cursor
    } else {
        cursor_back(steps_back(cursor, (j - 1) as nat))
    }
}

/// A step moves the cursor by exactly one entry: back to the one before, unless it is
/// at the oldest; forth to the one after, unless it is at the newest. So `j` steps back
/// from the cursor, while there are entries behind it, land `j` entries back: Up walks
/// the entries from the newest to the oldest, each once.
pub proof fn lemma_cursor_steps(cursor: nat, len: nat, j: nat)
    ensures
        cursor > 0 ==> cursor_back(cursor) == cursor - 1,
        cursor == 0 ==> cursor_back(cursor) == 0,
        cursor + 1 < len ==> cursor_forth(cursor, len) == cursor + 1,
        cursor + 1 >= len ==> cursor_forth(cursor, len) == cursor,
        j <= cursor ==> steps_back(cursor, j) == cursor - j,
    decreases j,
{
    if j > 0 {
        lemma_cursor_steps(cursor, len, (j - 1) as nat);
    }
}

impl<T: Clone> HistoryLoader<T> {
    /// The entries, oldest first.
    pub closed spec fn entries(&self) -> Seq<T> {
        self.history_buffer@
    }

    /// The position of the cursor.
    pub closed spec fn cursor(&self) -> nat {
        self.history_index as nat
    }

    /// The cursor points at an entry, or is 0 while the history is empty.
    #[verifier::type_invariant]
    pub closed spec fn wf(&self) -> bool {
        if self.history_buffer@.len() == 0 {
            self.history_index == 0
        } else {
            self.history_index < self.history_buffer@.len()
        }
    }

    /// An empty history.
    pub fn new() -> (r: HistoryLoader<T>)
        ensures
            r.entries() == Seq::<T>::empty(),
            r.cursor() == 0,
    {
        HistoryLoader {
            history_buffer: VecDeque::with_capacity(COMMAND_HISTORY_BUFFER_SIZE),
            history_index: 0,
        }
    }

    /// The cursor points at an entry, or is 0 while the history is empty.
    pub proof fn lemma_wf(&self)
        requires
            self.wf(),
        ensures
            self.entries().len() == 0 ==> self.cursor() == 0,
            self.entries().len() > 0 ==> self.cursor() < self.entries().len(),
    {
    }

    /// Appends an entry and puts the cursor on it.
    pub fn add(&mut self, data: T)
        ensures
            final(self).entries() == old(self).entries().push(data),
            final(self).cursor() == old(self).entries().len(),
    {
        let mut taken = HistoryLoader { history_buffer: VecDeque::new(), history_index: 0 };
        std::mem::swap(&mut taken, self);
        let HistoryLoader { history_buffer: mut buffer, history_index: _ } = taken;
        buffer.push_back(data);
        let index = buffer.len() - 1;
        *self = HistoryLoader { history_buffer: buffer, history_index: index };
    }

    /// Gives the entry under the cursor, if there is one, then moves the cursor one
    /// entry back unless it is at the oldest.
    pub fn easily(&mut self) -> (r: Option<T>)
        ensures
            final(self).entries() == old(self).entries(),
            final(self).cursor() == cursor_back(old(self).cursor()),
            old(self).cursor() > 0 ==> final(self).cursor() == old(self).cursor() - 1,
            old(self).cursor() == 0 ==> final(self).cursor() == 0,
            gives(r, old(self).entries(), old(self).cursor()),
            old(self).entries().len() > 0 ==> old(self).cursor() < old(self).entries().len(),
    {
        proof {
            use_type_invariant(&*self);
        }
        let t = if self.history_index < self.history_buffer.len() {
            Some(self.history_buffer[self.history_index].clone())
        } else {
            None
        };
        if self.history_index > 0 {
            self.history_index = self.history_index - 1;
        }
        t
    }

    /// Gives the entry under the cursor, if there is one, then moves the cursor one
    /// entry forward unless it is at the newest.
    pub fn later(&mut self) -> (r: Option<T>)
        ensures
            final(self).entries() == old(self).entries(),
            final(self).cursor() == cursor_forth(old(self).cursor(), old(self).entries().len()),
            old(self).cursor() + 1 < old(self).entries().len() ==> final(self).cursor() == old(
                self,
            ).cursor() + 1,
            old(self).cursor() + 1 >= old(self).entries().len() ==> final(self).cursor() == old(
                self,
            ).cursor(),
            gives(r, old(self).entries(), old(self).cursor()),
            old(self).entries().len() > 0 ==> old(self).cursor() < old(self).entries().len(),
    {
        proof {
            use_type_invariant(&*self);
        }
        let t = if self.history_index < self.history_buffer.len() {
            Some(self.history_buffer[self.history_index].clone())
        } else {
            None
        };
        if self.history_index + 1 < self.history_buffer.len() {
            self.history_index = self.history_index + 1;
        }
        t
    }
}

} // verus!
