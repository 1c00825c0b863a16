//! The form browser: a virtual focus that walks over the controls of a
//! window, round and round.

use vstd::prelude::*;

verus! {

/// Where the focus stands after moving by `diff` among `len` controls: one
/// step past the last control leads to the first, and one step before the
/// first leads to the last. With fewer than two controls it stays.
pub open spec fn moved(position: int, len: int, diff: int) -> int {
    if len <= 1 {
        position
    } else if position + diff < 0 {
        len - 1
    } else if position + diff >= len {
        0
    } else {
        position + diff
    }
}

/// The controls of a window and the virtual focus among them.
pub struct FormBrowser<E> {
    index: usize,
    container: Vec<E>,
}

impl<E> FormBrowser<E> {
    /// The controls, in the order in which they were added.
    pub closed spec fn elements(&self) -> Seq<E> {
        self.container@
    }

    /// The place of the virtual focus.
    pub closed spec fn position(&self) -> int {
        self.index as int
    }

    /// The focus stands on a control, or at zero where there is none.
    #[verifier::type_invariant]
    pub open spec fn wf(&self) -> bool {
        0 <= self.position() && (self.position() < self.elements().len() || self.position() == 0)
    }

    /// A browser without controls.
    pub fn new() -> (browser: FormBrowser<E>)
        ensures
            browser.wf(),
            browser.elements() == Seq::<E>::empty(),
            browser.position() == 0,
    {
        FormBrowser { index: 0, container: Vec::new() }
    }

    /// Adds a control behind the others. The focus stays where it is.
    pub fn add(&mut self, element: E)
        ensures
            final(self).wf(),
            final(self).elements() == old(self).elements().push(element),
            final(self).position() == old(self).position(),
    {
        proof {
            use_type_invariant(&*self);
        }
        let mut taken: FormBrowser<E> = FormBrowser::new();
        core::mem::swap(self, &mut taken);
        let FormBrowser { index, mut container } = taken;
        container.push(element);
        *self = FormBrowser { index, container };
    }

    /// Removes every control and puts the focus back to the start.
    pub fn clear(&mut self)
        ensures
            final(self).wf(),
            final(self).elements() == Seq::<E>::empty(),
            final(self).position() == 0,
    {
        *self = FormBrowser { index: 0, container: Vec::new() };
    }

    /// Moves the focus to the next control, from the last to the first.
    pub fn next(&mut self)
        ensures
            final(self).wf(),
            final(self).elements() == old(self).elements(),
            final(self).position() == moved(
                old(self).position(),
                old(self).elements().len() as int,
                1,
            ),
    {
        self.next_index(1);
    }

    /// Moves the focus to the control before, from the first to the last.
    pub fn prev(&mut self)
        ensures
            final(self).wf(),
            final(self).elements() == old(self).elements(),
            final(self).position() == moved(
                old(self).position(),
                old(self).elements().len() as int,
                -1,
            ),
    {
        self.next_index(-1);
    }

    /// The control that has the focus, if there is any control.
    pub fn current(&self) -> (r: Option<&E>)
        ensures
            match r {
                Some(element) => self.elements().len() > 0 && *element == self.elements()[self.position()],
                None => self.elements().len() == 0,
            },
    {
        proof {
            use_type_invariant(self);
        }
        if self.container.len() == 0 {
            return None;
        }
        Some(&self.container[self.index])
    }

    /// How many controls the browser holds.
    pub fn len(&self) -> (n: usize)
        ensures
            n == self.elements().len(),
    {
        self.container.len()
    }

    /// Moves the focus by `diff` places.
    pub fn next_index(&mut self, diff: i32)
        ensures
            final(self).wf(),
            final(self).elements() == old(self).elements(),
            final(self).position() == moved(
                old(self).position(),
                old(self).elements().len() as int,
                diff as int,
            ),
    {
        proof {
            use_type_invariant(&*self);
        }
        let len: usize = self.container.len();
        if len <= 1 {
            return;
        }
        let target: i128 = self.index as i128 + diff as i128;
        if target < 0 {
            self.index = len - 1;
        } else if target >= len as i128 {
            self.index = 0;
        } else {
            self.index = target as usize;
        }
    }
}

/// Where the focus stands after `n` moves by `diff` each.
pub open spec fn moved_times(position: int, len: int, diff: int, n: nat) -> int
    decreases n,
{
    if n == 0 {
        position
    } else {
        moved(moved_times(position, len, diff, (n - 1) as nat), len, diff)
    }
}

/// Where the focus stands after `n` moves to the next control, for no more
/// moves than there are controls.
proof fn lemma_forward(position: int, len: int, n: nat)
    requires
        0 <= position < len,
        n <= len,
    ensures
        moved_times(position, len, 1, n) == if position + n < len {
            position + n
        } else {
            position + n - len
        },
    decreases n,
{
    if n > 0 {
        lemma_forward(position, len, (n - 1) as nat);
    }
}

/// Where the focus stands after `n` moves to the control before, for no
/// more moves than there are controls.
proof fn lemma_backward(position: int, len: int, n: nat)
    requires
        0 <= position < len,
        n <= len,
    ensures
        moved_times(position, len, -1, n) == if position - n >= 0 {
            position - n
        } else {
            position - n + len
        },
    decreases n,
{
    if n > 0 {
        lemma_backward(position, len, (n - 1) as nat);
    }
}

/// Once round leads back: as many moves to the next control as there are
/// controls bring the focus to where it stood, and so do as many moves to
/// the control before. Fewer moves, but at least one, do not.
pub proof fn lemma_once_round(position: int, len: int, n: nat)
    requires
        0 <= position < len,
    ensures
        moved_times(position, len, 1, len as nat) == position,
        moved_times(position, len, -1, len as nat) == position,
        0 < n < len ==> moved_times(position, len, 1, n) != position && moved_times(
            position,
            len,
            -1,
            n,
        ) != position,
{
    lemma_forward(position, len, len as nat);
    lemma_backward(position, len, len as nat);
    if 0 < n < len {
        lemma_forward(position, len, n);
        lemma_backward(position, len, n);
    }
}

} // verus!
