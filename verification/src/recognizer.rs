//! The combo recognizer: from press and release edges to a committed chord
//! or a cancellation.

use crate::chord::Chord;
use crate::key::KeyId;
use vstd::prelude::*;

verus! {

/// A press or a release of one key.
#[derive(Clone, Copy, Debug, PartialEq, Eq, Structural)]
pub enum Edge {
    Press(KeyId),
    Release(KeyId),
}

/// What an edge brought about, as a value of the model.
pub enum Signal {
    /// Nothing final: the gesture goes on, or there is none.
    Pending,
    /// The user abandoned the gesture.
    Cancelled,
    /// The gesture ended with these keys.
    Committed(Set<KeyId>),
}

/// What the recognizer answers to an edge.
#[derive(Debug, PartialEq, Eq)]
pub enum Outcome {
    /// Nothing final: the gesture goes on, or there is none.
    Pending,
    /// The user abandoned the gesture.
    Cancelled,
    /// The gesture ended with this chord.
    Committed(Chord),
}

impl View for Outcome {
    type V = Signal;

    open spec fn view(&self) -> Signal {
        match self {
            Outcome::Pending => Signal::Pending,
            Outcome::Cancelled => Signal::Cancelled,
            Outcome::Committed(chord) => Signal::Committed(chord@),
        }
    }
}

/// Whether exactly one key is held and that key abandons the gesture.
pub open spec fn cancels_alone(held: Set<KeyId>) -> bool {
    held.len() == 1 && forall|k: KeyId| held.contains(k) ==> k.is_cancel()
}

/// One step of the recognizer. `held` is the set of keys pressed since the
/// last reset. A press adds its key and says nothing final. A release with no
/// key held changes nothing. Any other release ends the gesture and resets:
/// it cancels where the one key held is Escape or Enter, and else commits all
/// the keys held.
pub open spec fn step(held: Set<KeyId>, edge: Edge) -> (Set<KeyId>, Signal) {
    match edge {
        Edge::Press(key) => (held.insert(key), Signal::Pending),
        Edge::Release(_) => if held.len() == 0 {
            (held, Signal::Pending)
        } else if cancels_alone(held) {
            (Set::empty(), Signal::Cancelled)
        } else {
            (Set::empty(), Signal::Committed(held))
        },
    }
}

/// The keys held after `edges`, starting with `held`.
pub open spec fn held_after(held: Set<KeyId>, edges: Seq<Edge>) -> Set<KeyId>
    decreases edges.len(),
{
    if edges.len() == 0 {
        held
    } else {
        step(held_after(held, edges.drop_last()), edges.last()).0
    }
}

/// The final signals that `edges` bring about, in order, starting with
/// `held`: one entry for each cancellation and each commit.
pub open spec fn signals(held: Set<KeyId>, edges: Seq<Edge>) -> Seq<Signal>
    decreases edges.len(),
{
    if edges.len() == 0 {
        Seq::empty()
    } else {
        let before = signals(held, edges.drop_last());
        let signal = step(held_after(held, edges.drop_last()), edges.last()).1;
        if signal is Pending {
            before
        } else {
            before.push(signal)
        }
    }
}

/// The keys of the presses at the end of `edges`, behind its last release.
pub open spec fn trailing_presses(edges: Seq<Edge>) -> Set<KeyId>
    decreases edges.len(),
{
    if edges.len() == 0 {
        Set::empty()
    } else {
        match edges.last() {
            Edge::Press(key) => trailing_presses(edges.drop_last()).insert(key),
            Edge::Release(_) => Set::empty(),
        }
    }
}

/// The recognizer of one capture. It remembers every key pressed since the
/// last reset. The first release ends the gesture, so these are also the keys
/// that are down.
#[derive(Debug)]
pub struct Recognizer {
    held: Vec<KeyId>,
}

impl View for Recognizer {
    type V = Set<KeyId>;

    closed spec fn view(&self) -> Set<KeyId> {
        self.held@.to_set()
    }
}

impl Recognizer {
    #[verifier::type_invariant]
    closed spec fn wf(&self) -> bool {
        self.held@.no_duplicates()
    }

    /// A recognizer with no key held.
    pub fn new() -> (recognizer: Recognizer)
        ensures
            recognizer@ == Set::<KeyId>::empty(),
    {
        let held: Vec<KeyId> = Vec::new();
        proof {
            assert(held@.to_set() =~= Set::<KeyId>::empty());
        }
        Recognizer { held }
    }

    /// Forgets every key.
    pub fn reset(&mut self)
        ensures
            final(self)@ == Set::<KeyId>::empty(),
    {
        self.held = Vec::new();
        proof {
            assert(self.held@.to_set() =~= Set::<KeyId>::empty());
        }
    }

    /// Whether `key` is marked down.
    pub fn is_down(&self, key: KeyId) -> (down: bool)
        ensures
            down == self@.contains(key),
    {
        let mut i: usize = 0;
        while i < self.held.len()
            invariant
                i <= self.held.len(),
                forall|p: int| 0 <= p < i ==> self.held@[p] != key,
            decreases self.held.len() - i,
        {
            if self.held[i].code == key.code && self.held[i].extended == key.extended {
                proof {
                    assert(self.held@[i as int] == key);
                    assert(self.held@.contains(key));
                }
                return true;
            }
            i = i + 1;
        }
        proof {
            assert(!self.held@.contains(key));
        }
        false
    }

    /// Whether a gesture is under way: at least one key is held.
    pub fn is_composing(&self) -> (composing: bool)
        ensures
            composing == (self@.len() > 0),
            self@.finite(),
    {
        proof {
            use_type_invariant(self);
            self.held@.unique_seq_to_set();
        }
        self.held.len() > 0
    }

    /// Marks `key` down.
    pub fn press(&mut self, key: KeyId)
        ensures
            final(self)@ == old(self)@.insert(key),
            (final(self)@, Signal::Pending) == step(old(self)@, Edge::Press(key)),
    {
        proof {
            use_type_invariant(&*self);
        }
        if !self.is_down(key) {
            let ghost before = self.held@;
            let mut held: Vec<KeyId> = Vec::new();
            core::mem::swap(&mut self.held, &mut held);
            held.push(key);
            proof {
                before.lemma_push_to_set_commute(key);
                assert forall|i: int, j: int|
                    0 <= i < held@.len() && 0 <= j < held@.len() && i != j implies held@[i]
                    != held@[j] by {
                    if i < before.len() && j < before.len() {
                        assert(before[i] != before[j]);
                    } else if i < before.len() {
                        assert(before.contains(before[i]));
                    } else {
                        assert(before.contains(before[j]));
                    }
                }
            }
            core::mem::swap(&mut self.held, &mut held);
        } else {
            proof {
                assert(self@.insert(key) =~= self@);
            }
        }
    }

    /// Takes the release of a key: ends the gesture, unless no key is held.
    pub fn release(&mut self, key: KeyId) -> (outcome: Outcome)
        ensures
            (final(self)@, outcome@) == step(old(self)@, Edge::Release(key)),
    {
        proof {
            use_type_invariant(&*self);
            self.held@.unique_seq_to_set();
        }
        if self.held.len() == 0 {
            return Outcome::Pending;
        }
        let ghost before = self.held@;
        let alone: bool = self.held.len() == 1 && self.held[0].cancels();
        proof {
            if self.held.len() == 1 {
                assert(before.contains(before[0]));
                assert forall|k: KeyId| before.to_set().contains(k) implies k == before[0] by {
                    let i = choose|i: int| 0 <= i < before.len() && before[i] == k;
                }
            }
            assert(alone == cancels_alone(before.to_set()));
        }
        if alone {
            self.held = Vec::new();
            proof {
                assert(self.held@.to_set() =~= Set::<KeyId>::empty());
            }
            return Outcome::Cancelled;
        }
        let chord: Option<Chord> = Chord::from_keys(&self.held);
        self.held = Vec::new();
        proof {
            assert(self.held@.to_set() =~= Set::<KeyId>::empty());
        }
        match chord {
            Some(chord) => Outcome::Committed(chord),
            None => Outcome::Pending,
        }
    }

    /// Takes one edge.
    pub fn handle(&mut self, edge: Edge) -> (outcome: Outcome)
        ensures
            (final(self)@, outcome@) == step(old(self)@, edge),
    {
        match edge {
            Edge::Press(key) => {
                self.press(key);
                Outcome::Pending
            },
            Edge::Release(key) => self.release(key),
        }
    }
}

/// After any edges, the keys held are the keys pressed since the last
/// release: every release ends a gesture or finds none.
pub proof fn lemma_held_after(edges: Seq<Edge>)
    ensures
        held_after(Set::empty(), edges) == trailing_presses(edges),
        trailing_presses(edges).finite(),
    decreases edges.len(),
{
    if edges.len() > 0 {
        lemma_held_after(edges.drop_last());
        let before = held_after(Set::empty(), edges.drop_last());
        match edges.last() {
            Edge::Press(key) => {},
            Edge::Release(_) => {
                if before.len() == 0 {
                    before.lemma_len0_is_empty();
                }
            },
        }
    }
}

/// A release commits the keys pressed since the last reset, and nothing
/// else: it adds exactly one signal, the commit of those keys, and resets.
/// This holds of every release that finds a key held, unless the one key
/// held is Escape or Enter; so it holds of the release of any held key that
/// is neither.
pub proof fn lemma_release_commits(edges: Seq<Edge>, key: KeyId)
    requires
        trailing_presses(edges).len() > 0,
        !cancels_alone(trailing_presses(edges)),
    ensures
        signals(Set::empty(), edges.push(Edge::Release(key))) == signals(
            Set::empty(),
            edges,
        ).push(Signal::Committed(trailing_presses(edges))),
        held_after(Set::empty(), edges.push(Edge::Release(key))) == Set::<KeyId>::empty(),
{
    lemma_held_after(edges);
    let longer = edges.push(Edge::Release(key));
    assert(longer.drop_last() =~= edges);
    assert(longer.last() == Edge::Release(key));
}

/// The release of a held key that is neither Escape nor Enter commits the
/// keys pressed since the last reset.
pub proof fn lemma_release_of_held_key_commits(edges: Seq<Edge>, key: KeyId)
    requires
        trailing_presses(edges).contains(key),
        !key.is_cancel(),
    ensures
        signals(Set::empty(), edges.push(Edge::Release(key))) == signals(
            Set::empty(),
            edges,
        ).push(Signal::Committed(trailing_presses(edges))),
{
    lemma_held_after(edges);
    let held = trailing_presses(edges);
    if held.len() == 0 {
        held.lemma_len0_is_empty();
    }
    lemma_release_commits(edges, key);
}

/// Pressing Escape or Enter alone and releasing it cancels, and commits
/// nothing.
pub proof fn lemma_cancel_alone(cancel: KeyId)
    requires
        cancel.is_cancel(),
    ensures
        signals(Set::empty(), seq![Edge::Press(cancel), Edge::Release(cancel)]) == seq![
            Signal::Cancelled,
        ],
        held_after(Set::empty(), seq![Edge::Press(cancel), Edge::Release(cancel)])
            == Set::<KeyId>::empty(),
{
    let edges = seq![Edge::Press(cancel), Edge::Release(cancel)];
    let first = edges.drop_last();
    assert(first =~= seq![Edge::Press(cancel)]);
    assert(first.drop_last() =~= Seq::<Edge>::empty());
    let held = Set::<KeyId>::empty().insert(cancel);
    assert(held_after(Set::empty(), first.drop_last()) == Set::<KeyId>::empty());
    assert(held_after(Set::empty(), first) == held);
    assert(held.len() == 1) by {
        assert(held =~= set![cancel]);
    }
    assert(cancels_alone(held));
    assert(signals(Set::empty(), first.drop_last()) =~= Seq::<Signal>::empty());
    assert(signals(Set::empty(), first) =~= Seq::<Signal>::empty());
    assert(signals(Set::empty(), edges) =~= seq![Signal::Cancelled]);
}

/// Presses alone bring about nothing final.
pub proof fn lemma_presses_pending(held: Set<KeyId>, edges: Seq<Edge>)
    requires
        forall|i: int| 0 <= i < edges.len() ==> edges[i] is Press,
    ensures
        signals(held, edges) == Seq::<Signal>::empty(),
    decreases edges.len(),
{
    if edges.len() > 0 {
        assert(edges.last() is Press);
        lemma_presses_pending(held, edges.drop_last());
    }
}

} // verus!
