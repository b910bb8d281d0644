//! Undo/redo history: two stacks of snapshots.
use vstd::prelude::*;
use vstd::std_specs::cmp::PartialEqSpec;

verus! {

/// One undo (or, with the stacks swapped, one redo): the top of `from` is
/// given back and `current` goes on top of `to`; nothing changes when
/// `from` is empty. Yields the new `from`, the new `to` and the result.
pub open spec fn undo_step<T>(from: Seq<T>, to: Seq<T>, current: T) -> (Seq<T>, Seq<T>, Option<T>) {
    if from.len() == 0 {
        (from, to, None)
    } else {
        (from.drop_last(), to.push(current), Some(from.last()))
    }
}

/// Whether `begin_edit` with `snapshot` leaves the stacks as they are: the
/// top of the undo stack equals `snapshot`.
pub open spec fn begin_edit_skips<T: PartialEq>(undo: Seq<T>, snapshot: T) -> bool {
    undo.len() > 0 && undo.last().eq_spec(&snapshot)
}

/// The stacks after `begin_edit` with `snapshot`.
pub open spec fn begin_edit_step<T: PartialEq>(undo: Seq<T>, redo: Seq<T>, snapshot: T) -> (
    Seq<T>,
    Seq<T>,
) {
    if begin_edit_skips(undo, snapshot) {
        (undo, redo)
    } else {
        (undo.push(snapshot), Seq::empty())
    }
}

/// The undo stack and the redo stack; the last element of each is its top.
pub struct UndoRedoHistory<T> where T: Clone + PartialEq {
    undo: Vec<T>,
    redo: Vec<T>,
}

impl<T> Default for UndoRedoHistory<T> where T: Clone + PartialEq {
    fn default() -> (res: Self)
        ensures
            res.undo_stack() == Seq::<T>::empty(),
            res.redo_stack() == Seq::<T>::empty(),
    {
        UndoRedoHistory { undo: Vec::new(), redo: Vec::new() }
    }
}

impl<T> UndoRedoHistory<T> where T: Clone + PartialEq {
    /// The snapshots that undo gives back, the most recent last.
    pub closed spec fn undo_stack(&self) -> Seq<T> {
        self.undo@
    }

    /// The snapshots that redo gives back, the most recent last.
    pub closed spec fn redo_stack(&self) -> Seq<T> {
        self.redo@
    }

    /// Records `snapshot` as the state before an edit and forgets what could
    /// be redone; does nothing when `snapshot` equals the top of the undo stack.
    pub fn begin_edit(&mut self, snapshot: T)
        ensures
            final(self).undo_stack() == old(self).undo_stack() && final(self).redo_stack() == old(
                self,
            ).redo_stack() || final(self).undo_stack() == old(self).undo_stack().push(snapshot)
                && final(self).redo_stack() == Seq::<T>::empty(),
            T::obeys_eq_spec() ==> (final(self).undo_stack(), final(self).redo_stack())
                == begin_edit_step(old(self).undo_stack(), old(self).redo_stack(), snapshot),
    {
        let n = self.undo.len();
        if n > 0 {
            let same = self.undo[n - 1] == snapshot;
            if same {
                return ;
            }
        }
        self.undo.push(snapshot);
        self.redo.clear();
    }

    /// Takes the top of the undo stack, pushing `current` on the redo stack;
    /// `None` (and no change) when there is nothing to undo.
    pub fn undo(&mut self, current: T) -> (res: Option<T>)
        ensures
            (final(self).undo_stack(), final(self).redo_stack(), res) == undo_step(
                old(self).undo_stack(),
                old(self).redo_stack(),
                current,
            ),
    {
        match self.undo.pop() {
            Some(snapshot) => {
                self.redo.push(current);
                Some(snapshot)
            },
            None => None,
        }
    }

    /// Takes the top of the redo stack, pushing `current` on the undo stack;
    /// `None` (and no change) when there is nothing to redo.
    pub fn redo(&mut self, current: T) -> (res: Option<T>)
        ensures
            ({
                let (r, u, got) = undo_step(old(self).redo_stack(), old(self).undo_stack(), current);
                final(self).undo_stack() == u && final(self).redo_stack() == r && res == got
            }),
    {
        match self.redo.pop() {
            Some(snapshot) => {
                self.undo.push(current);
                Some(snapshot)
            },
            None => None,
        }
    }
}

/// Undo right after an edit began gives back the state the edit began
/// from, and redo then gives back the state that was current at the undo.
pub proof fn law_undo_returns_edit_start<T: PartialEq>(undo: Seq<T>, redo: Seq<T>, snapshot: T, current: T)
    requires
        !begin_edit_skips(undo, snapshot),
    ensures
        ({
            let (u1, r1) = begin_edit_step(undo, redo, snapshot);
            let (u2, r2, got) = undo_step(u1, r1, current);
            let (r3, u3, again) = undo_step(r2, u2, snapshot);
            &&& got == Some(snapshot)
            &&& u2 == undo
            &&& r2 == seq![current]
            &&& again == Some(current)
            &&& u3 == undo.push(snapshot)
            &&& r3 == Seq::<T>::empty()
        }),
{
    assert(undo.push(snapshot).drop_last() =~= undo);
    assert(Seq::<T>::empty().push(current) =~= seq![current]);
    assert(seq![current].drop_last() =~= Seq::<T>::empty());
}

/// Redo right after undo restores both stacks and gives back the state that
/// was current at the undo.
pub proof fn law_redo_undoes_undo<T>(undo: Seq<T>, redo: Seq<T>, current: T)
    requires
        undo.len() > 0,
    ensures
        ({
            let (u1, r1, got) = undo_step(undo, redo, current);
            let (r2, u2, back) = undo_step(r1, u1, got->0);
            &&& got == Some(undo.last())
            &&& back == Some(current)
            &&& u2 == undo
            &&& r2 == redo
        }),
{
    assert(undo.drop_last().push(undo.last()) =~= undo);
    assert(redo.push(current).drop_last() =~= redo);
}

/// Undo right after redo restores both stacks and gives back the state that
/// was current at the redo.
pub proof fn law_undo_undoes_redo<T>(undo: Seq<T>, redo: Seq<T>, current: T)
    requires
        redo.len() > 0,
    ensures
        ({
            let (r1, u1, got) = undo_step(redo, undo, current);
            let (u2, r2, back) = undo_step(u1, r1, got->0);
            &&& got == Some(redo.last())
            &&& back == Some(current)
            &&& u2 == undo
            &&& r2 == redo
        }),
{
    assert(redo.drop_last().push(redo.last()) =~= redo);
    assert(undo.push(current).drop_last() =~= undo);
}

/// An edit that is recorded leaves nothing to redo.
pub proof fn law_edit_clears_redo<T: PartialEq>(undo: Seq<T>, redo: Seq<T>, snapshot: T, current: T)
    requires
        !begin_edit_skips(undo, snapshot),
    ensures
        ({
            let (u1, r1) = begin_edit_step(undo, redo, snapshot);
            let (r2, u2, got) = undo_step(r1, u1, current);
            got is None && u2 == u1 && r2 == r1
        }),
{
}

} // verus!
