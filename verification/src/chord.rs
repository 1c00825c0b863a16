//! Chords: non-empty sets of keys pressed together, and their text form.

use crate::key::KeyId;
use crate::names::{key_chars, key_name, lemma_key_name_injective, lemma_key_name_plain, parse_key};
use crate::text::{
    chars_of, is_plain, join, lemma_join_split, lemma_split_join, pieces_view, split, split_text,
    string_of, SEPARATOR,
};
use vstd::prelude::*;

verus! {

/// Whether `keys` lists its keys in the fixed order, each key once.
pub open spec fn is_canonical(keys: Seq<KeyId>) -> bool {
    forall|i: int, j: int|
        0 <= i < j < keys.len() ==> (#[trigger] keys[i]).order_value() < (
        #[trigger] keys[j]).order_value()
}

/// The display names of `keys`, in the same order.
pub open spec fn names(keys: Seq<KeyId>) -> Seq<Seq<char>> {
    Seq::new(keys.len(), |i: int| key_name(keys[i]))
}

/// The text that lists `keys`: their display names with `+` between them.
pub open spec fn listing_text(keys: Seq<KeyId>) -> Seq<char> {
    join(names(keys), SEPARATOR)
}

/// Whether `text` lists exactly the keys `keys`, in that order.
pub open spec fn spells(keys: Seq<KeyId>, text: Seq<char>) -> bool {
    keys.len() >= 1 && listing_text(keys) == text
}

/// The set of keys that `text` lists, if it is a list of key names with `+`
/// between them. The names may come in any order, and a name may come twice.
pub open spec fn chord_of_text(text: Seq<char>) -> Option<Set<KeyId>> {
    if exists|keys: Seq<KeyId>| spells(keys, text) {
        Some((choose|keys: Seq<KeyId>| spells(keys, text)).to_set())
    } else {
        None
    }
}

/// The keys of `keys` in the fixed order.
pub open spec fn canonical_listing(keys: Set<KeyId>) -> Seq<KeyId> {
    choose|listing: Seq<KeyId>| is_canonical(listing) && listing.to_set() == keys
}

/// The text of the chord of the keys `keys`.
pub open spec fn text_of_keys(keys: Set<KeyId>) -> Seq<char> {
    listing_text(canonical_listing(keys))
}

/// A list in the fixed order holds no key twice.
pub proof fn lemma_canonical_distinct(keys: Seq<KeyId>)
    requires
        is_canonical(keys),
    ensures
        keys.no_duplicates(),
        keys.to_set().len() == keys.len(),
        keys.to_set().finite(),
{
    assert forall|i: int, j: int| 0 <= i < keys.len() && 0 <= j < keys.len() && i != j implies keys[i]
        != keys[j] by {
        if i < j {
            assert(keys[i].order_value() < keys[j].order_value());
        } else {
            assert(keys[j].order_value() < keys[i].order_value());
        }
    }
    keys.unique_seq_to_set();
}

/// Two lists in the fixed order that hold the same keys are the same list.
pub proof fn lemma_canonical_unique(a: Seq<KeyId>, b: Seq<KeyId>)
    requires
        is_canonical(a),
        is_canonical(b),
        a.to_set() == b.to_set(),
    ensures
        a == b,
    decreases a.len(),
{
    if a.len() == 0 {
        if b.len() > 0 {
            assert(b.contains(b[0]));
            assert(a.to_set().contains(b[0]));
            assert(a.contains(b[0]));
        }
        assert(a =~= b);
    } else if b.len() == 0 {
        assert(a.contains(a[0]));
        assert(b.to_set().contains(a[0]));
        assert(b.contains(a[0]));
    } else {
        let x = a.last();
        let y = b.last();
        assert(a.contains(x));
        assert(b.to_set().contains(x));
        assert(b.contains(x));
        assert(b.contains(y));
        assert(a.to_set().contains(y));
        assert(a.contains(y));
        let i = choose|i: int| 0 <= i < a.len() && a[i] == y;
        let j = choose|j: int| 0 <= j < b.len() && b[j] == x;
        assert(a[i].order_value() <= x.order_value()) by {
            if i < a.len() - 1 {
                assert(a[i].order_value() < a[a.len() - 1].order_value());
            }
        }
        assert(b[j].order_value() <= y.order_value()) by {
            if j < b.len() - 1 {
                assert(b[j].order_value() < b[b.len() - 1].order_value());
            }
        }
        KeyId::lemma_order_injective(x, y);
        let a0 = a.drop_last();
        let b0 = b.drop_last();
        assert(is_canonical(a0)) by {
            assert forall|p: int, q: int| 0 <= p < q < a0.len() implies (#[trigger] a0[p]).order_value()
                < (#[trigger] a0[q]).order_value() by {
                assert(a[p].order_value() < a[q].order_value());
            }
        }
        assert(is_canonical(b0)) by {
            assert forall|p: int, q: int| 0 <= p < q < b0.len() implies (#[trigger] b0[p]).order_value()
                < (#[trigger] b0[q]).order_value() by {
                assert(b[p].order_value() < b[q].order_value());
            }
        }
        assert forall|z: KeyId| a0.to_set().contains(z) <==> b0.to_set().contains(z) by {
            if a0.contains(z) {
                let p = choose|p: int| 0 <= p < a0.len() && a0[p] == z;
                assert(a[p] == z);
                assert(a[p].order_value() < a[a.len() - 1].order_value());
                assert(a.contains(z));
                assert(b.to_set().contains(z));
                assert(b.contains(z));
                let q = choose|q: int| 0 <= q < b.len() && b[q] == z;
                assert(q < b.len() - 1);
                assert(b0[q] == z);
                assert(b0.contains(z));
            }
            if b0.contains(z) {
                let q = choose|q: int| 0 <= q < b0.len() && b0[q] == z;
                assert(b[q] == z);
                assert(b[q].order_value() < b[b.len() - 1].order_value());
                assert(b.contains(z));
                assert(a.to_set().contains(z));
                assert(a.contains(z));
                let p = choose|p: int| 0 <= p < a.len() && a[p] == z;
                assert(p < a.len() - 1);
                assert(a0[p] == z);
                assert(a0.contains(z));
            }
        }
        assert(a0.to_set() =~= b0.to_set());
        lemma_canonical_unique(a0, b0);
        assert(a =~= a0.push(x));
        assert(b =~= b0.push(y));
    }
}

/// The names of a list of keys hold no separator, so the text of the list
/// splits back into them.
pub proof fn lemma_split_listing(keys: Seq<KeyId>)
    requires
        keys.len() >= 1,
    ensures
        split(listing_text(keys), SEPARATOR) == names(keys),
{
    assert forall|i: int| 0 <= i < names(keys).len() implies is_plain(#[trigger] names(keys)[i], SEPARATOR) by {
        lemma_key_name_plain(keys[i]);
    }
    lemma_split_join(names(keys), SEPARATOR);
}

/// One more key at the end of a list adds a separator and its name to the
/// text.
pub proof fn lemma_listing_push(keys: Seq<KeyId>, key: KeyId)
    requires
        keys.len() >= 1,
    ensures
        listing_text(keys.push(key)) == listing_text(keys) + seq![SEPARATOR] + key_name(key),
{
    let longer = names(keys.push(key));
    assert(longer.drop_last() =~= names(keys));
    assert(longer.last() == key_name(key));
}

/// A text lists at most one sequence of keys.
pub proof fn lemma_spelling_unique(a: Seq<KeyId>, b: Seq<KeyId>, text: Seq<char>)
    requires
        spells(a, text),
        spells(b, text),
    ensures
        a == b,
{
    lemma_split_listing(a);
    lemma_split_listing(b);
    assert(names(a) == names(b));
    assert(a.len() == names(a).len());
    assert(b.len() == names(b).len());
    assert forall|i: int| 0 <= i < a.len() implies a[i] == b[i] by {
        assert(names(a)[i] == key_name(a[i]));
        assert(names(b)[i] == key_name(b[i]));
        lemma_key_name_injective(a[i], b[i]);
    }
    assert(a =~= b);
}

/// What a text lists is the set of any sequence of keys that it spells.
pub proof fn lemma_chord_of_text(keys: Seq<KeyId>, text: Seq<char>)
    requires
        spells(keys, text),
    ensures
        chord_of_text(text) == Some(keys.to_set()),
{
    let chosen = choose|k: Seq<KeyId>| spells(k, text);
    lemma_spelling_unique(keys, chosen, text);
}

/// Puts `key` at its place in a list that is in the fixed order. A key that
/// the list holds already is not put in again.
fn insert_key(keys: &mut Vec<KeyId>, key: KeyId)
    requires
        is_canonical(old(keys)@),
    ensures
        is_canonical(final(keys)@),
        final(keys)@.to_set() == old(keys)@.to_set().insert(key),
{
    let rank: u64 = key.order();
    let mut at: usize = 0;
    while at < keys.len() && keys[at].order() < rank
        invariant
            at <= keys.len(),
            keys@ == old(keys)@,
            rank == key.order_value(),
            forall|p: int| 0 <= p < at ==> (#[trigger] keys@[p]).order_value() < rank,
        decreases keys.len() - at,
    {
        at = at + 1;
    }
    let ghost before = keys@;
    if at < keys.len() && keys[at].order() == rank {
        proof {
            KeyId::lemma_order_injective(keys@[at as int], key);
            assert(before.contains(before[at as int]));
            assert(before.to_set().insert(key) =~= before.to_set());
        }
        return;
    }
    keys.insert(at, key);
    proof {
        let after = keys@;
        assert(after == before.insert(at as int, key));
        assert forall|i: int, j: int| 0 <= i < j < after.len() implies (#[trigger] after[i]).order_value()
            < (#[trigger] after[j]).order_value() by {
            let a: int = if i < at { i } else { i - 1 };
            let b: int = if j < at { j } else { j - 1 };
            if i != at && j != at {
                assert(after[i] == before[a]);
                assert(after[j] == before[b]);
                assert(before[a].order_value() < before[b].order_value());
            } else if i == at {
                assert(after[j] == before[b]);
                if b > at {
                    assert(before[at as int].order_value() < before[b].order_value());
                }
            } else {
                assert(after[i] == before[a]);
            }
        }
        assert forall|z: KeyId| after.to_set().contains(z) <==> before.to_set().insert(
            key,
        ).contains(z) by {
            if after.contains(z) {
                let i = choose|i: int| 0 <= i < after.len() && after[i] == z;
                if i < at {
                    assert(before[i] == z);
                    assert(before.contains(z));
                } else if i > at {
                    assert(before[i - 1] == z);
                    assert(before.contains(z));
                }
            }
            if before.contains(z) {
                let i = choose|i: int| 0 <= i < before.len() && before[i] == z;
                if i < at {
                    assert(after[i] == z);
                } else {
                    assert(after[i + 1] == z);
                }
                assert(after.contains(z));
            }
            if z == key {
                assert(after[at as int] == z);
                assert(after.contains(z));
            }
        }
        assert(after.to_set() =~= before.to_set().insert(key));
    }
}

/// A set of keys pressed together. It is never empty, and it keeps its keys
/// in one fixed order, so that the same combination always has the same text.
#[derive(Debug)]
pub struct Chord {
    keys: Vec<KeyId>,
}

impl View for Chord {
    type V = Set<KeyId>;

    closed spec fn view(&self) -> Set<KeyId> {
        self.keys@.to_set()
    }
}

impl Chord {
    /// The keys of the chord in the fixed order.
    pub closed spec fn listing(&self) -> Seq<KeyId> {
        self.keys@
    }

    /// A chord holds at least one key, and lists its keys in the fixed order.
    #[verifier::type_invariant]
    pub open spec fn wf(&self) -> bool {
        &&& self.listing().len() >= 1
        &&& is_canonical(self.listing())
        &&& self@ == self.listing().to_set()
    }

    /// The text of the chord: the names of its keys in the fixed order, with
    /// `+` between them.
    pub open spec fn text(&self) -> Seq<char> {
        listing_text(self.listing())
    }

    /// The chord of one key.
    pub fn single(key: KeyId) -> (chord: Chord)
        ensures
            chord.wf(),
            chord@ == set![key],
    {
        let mut keys: Vec<KeyId> = Vec::new();
        keys.push(key);
        proof {
            assert forall|z: KeyId| keys@.to_set().contains(z) <==> set![key].contains(z) by {
                if z == key {
                    assert(keys@[0] == z);
                    assert(keys@.contains(z));
                }
            }
            assert(keys@.to_set() =~= set![key]);
        }
        Chord { keys }
    }

    /// The chord of the keys in `keys`, in whatever order they come and
    /// however often. There is no chord of no keys.
    pub fn from_keys(keys: &Vec<KeyId>) -> (r: Option<Chord>)
        ensures
            match r {
                Some(chord) => chord.wf() && keys.len() > 0 && chord@ == keys@.to_set(),
                None => keys.len() == 0,
            },
    {
        if keys.len() == 0 {
            return None;
        }
        let mut sorted: Vec<KeyId> = Vec::new();
        let mut i: usize = 0;
        proof {
            assert(keys@.take(0).to_set() =~= sorted@.to_set());
        }
        while i < keys.len()
            invariant
                i <= keys.len(),
                is_canonical(sorted@),
                sorted@.to_set() == keys@.take(i as int).to_set(),
                i > 0 ==> sorted.len() > 0,
            decreases keys.len() - i,
        {
            insert_key(&mut sorted, keys[i]);
            proof {
                let head = keys@.take(i as int);
                let next = keys@.take(i + 1);
                assert(next =~= head.push(keys@[i as int]));
                head.lemma_push_to_set_commute(keys@[i as int]);
                assert(sorted@.to_set().contains(keys@[i as int]));
                assert(sorted@.contains(keys@[i as int]));
            }
            i = i + 1;
        }
        proof {
            assert(keys@.take(keys.len() as int) =~= keys@);
        }
        Some(Chord { keys: sorted })
    }

    /// The chord with `key` added.
    pub fn with(self, key: KeyId) -> (chord: Chord)
        ensures
            chord.wf(),
            chord@ == self@.insert(key),
    {
        proof {
            use_type_invariant(&self);
        }
        let mut keys: Vec<KeyId> = self.keys;
        insert_key(&mut keys, key);
        proof {
            assert(keys@.to_set().contains(key));
            assert(keys@.contains(key));
        }
        Chord { keys }
    }

    /// Whether `key` is one of the keys of the chord.
    pub fn contains(&self, key: KeyId) -> (found: bool)
        ensures
            found == self@.contains(key),
    {
        let mut i: usize = 0;
        while i < self.keys.len()
            invariant
                i <= self.keys.len(),
                forall|p: int| 0 <= p < i ==> self.keys@[p] != key,
            decreases self.keys.len() - i,
        {
            if self.keys[i].code == key.code && self.keys[i].extended == key.extended {
                proof {
                    assert(self.keys@[i as int] == key);
                    assert(self.keys@.contains(key));
                }
                return true;
            }
            i = i + 1;
        }
        proof {
            assert(!self.keys@.contains(key));
        }
        false
    }

    /// Whether every key of the chord is a modifier. The recognizer commits
    /// such chords like any other; a caller that does not want them asks
    /// here.
    pub fn is_modifiers_only(&self) -> (only: bool)
        ensures
            only == (forall|key: KeyId| self@.contains(key) ==> key.is_modifier()),
    {
        let mut i: usize = 0;
        while i < self.keys.len()
            invariant
                i <= self.keys.len(),
                forall|p: int| 0 <= p < i ==> (#[trigger] self.keys@[p]).is_modifier(),
            decreases self.keys.len() - i,
        {
            if !self.keys[i].modifier() {
                proof {
                    assert(self.keys@.contains(self.keys@[i as int]));
                }
                return false;
            }
            i = i + 1;
        }
        proof {
            assert forall|key: KeyId| self@.contains(key) implies key.is_modifier() by {
                let p = choose|p: int| 0 <= p < self.keys@.len() && self.keys@[p] == key;
                assert(self.keys@[p].is_modifier());
            }
        }
        true
    }

    /// How many keys the chord holds.
    pub fn len(&self) -> (n: usize)
        ensures
            n == self@.len(),
            n >= 1,
    {
        proof {
            use_type_invariant(self);
            lemma_canonical_distinct(self.keys@);
        }
        self.keys.len()
    }

    /// The keys of the chord in the fixed order.
    pub fn keys(&self) -> (keys: Vec<KeyId>)
        ensures
            keys@ == self.listing(),
    {
        let mut keys: Vec<KeyId> = Vec::new();
        let mut i: usize = 0;
        while i < self.keys.len()
            invariant
                i <= self.keys.len(),
                keys@ == self.keys@.take(i as int),
            decreases self.keys.len() - i,
        {
            keys.push(self.keys[i]);
            proof {
                assert(keys@ =~= self.keys@.take(i + 1));
            }
            i = i + 1;
        }
        proof {
            assert(self.keys@.take(self.keys.len() as int) =~= self.keys@);
        }
        keys
    }

    /// Whether the two chords hold the same keys.
    pub fn same_as(&self, other: &Chord) -> (same: bool)
        ensures
            same == (self@ == other@),
    {
        proof {
            use_type_invariant(self);
            use_type_invariant(other);
            if self@ == other@ {
                lemma_canonical_unique(self.keys@, other.keys@);
            }
        }
        if self.keys.len() != other.keys.len() {
            return false;
        }
        let mut i: usize = 0;
        while i < self.keys.len()
            invariant
                i <= self.keys.len(),
                self.keys.len() == other.keys.len(),
                forall|p: int| 0 <= p < i ==> self.keys@[p] == other.keys@[p],
                self@ == other@ ==> self.keys@ == other.keys@,
            decreases self.keys.len() - i,
        {
            if self.keys[i].code != other.keys[i].code || self.keys[i].extended
                != other.keys[i].extended {
                return false;
            }
            i = i + 1;
        }
        proof {
            assert(self.keys@ =~= other.keys@);
        }
        true
    }

    /// The text of the chord.
    pub fn to_string(&self) -> (s: String)
        ensures
            s@ == self.text(),
            s@ == text_of_keys(self@),
    {
        proof {
            use_type_invariant(self);
            lemma_text_of_keys(*self);
        }
        let mut out: Vec<char> = key_chars(self.keys[0]);
        let mut i: usize = 1;
        proof {
            assert(names(self.keys@.take(1)) =~= seq![key_name(self.keys@[0])]);
            assert(listing_text(self.keys@.take(1)) == key_name(self.keys@[0]));
        }
        while i < self.keys.len()
            invariant
                1 <= i <= self.keys.len(),
                out@ == listing_text(self.keys@.take(i as int)),
            decreases self.keys.len() - i,
        {
            let ghost before = out@;
            out.push(SEPARATOR);
            let mut name: Vec<char> = key_chars(self.keys[i]);
            out.append(&mut name);
            proof {
                lemma_listing_push(self.keys@.take(i as int), self.keys@[i as int]);
                assert(self.keys@.take(i + 1) =~= self.keys@.take(i as int).push(
                    self.keys@[i as int],
                ));
                assert(out@ =~= before + seq![SEPARATOR] + key_name(self.keys@[i as int]));
            }
            i = i + 1;
        }
        proof {
            assert(self.keys@.take(self.keys.len() as int) =~= self.keys@);
        }
        string_of(&out)
    }

    /// Reads a chord from its text: key names with `+` between them. The
    /// names may come in any order, and a name may come twice. `None` where a
    /// piece of the text is not the name of a key.
    pub fn parse(text: &str) -> (r: Option<Chord>)
        ensures
            match r {
                Some(chord) => chord.wf() && chord_of_text(text@) == Some(chord@),
                None => chord_of_text(text@) is None,
            },
    {
        let chars: Vec<char> = chars_of(text);
        let pieces: Vec<Vec<char>> = split_text(&chars, SEPARATOR);
        let mut keys: Vec<KeyId> = Vec::new();
        let mut i: usize = 0;
        while i < pieces.len()
            invariant
                i <= pieces.len(),
                chars@ == text@,
                pieces_view(pieces@) == split(text@, SEPARATOR),
                keys.len() == i,
                names(keys@) == pieces_view(pieces@).take(i as int),
            decreases pieces.len() - i,
        {
            match parse_key(&pieces[i]) {
                Some(key) => {
                    keys.push(key);
                    proof {
                        assert(pieces_view(pieces@)[i as int] == pieces@[i as int]@);
                        assert(names(keys@) =~= pieces_view(pieces@).take(i + 1));
                    }
                },
                None => {
                    proof {
                        assert forall|listed: Seq<KeyId>| !spells(listed, text@) by {
                            if spells(listed, text@) {
                                lemma_split_listing(listed);
                                assert(names(listed)[i as int] == key_name(listed[i as int]));
                                assert(pieces_view(pieces@)[i as int] == pieces@[i as int]@);
                            }
                        }
                    }
                    return None;
                },
            }
            i = i + 1;
        }
        proof {
            assert(pieces_view(pieces@).take(pieces.len() as int) =~= pieces_view(pieces@));
            crate::text::lemma_split_pieces(text@, SEPARATOR);
            lemma_join_split(text@, SEPARATOR);
            assert(spells(keys@, text@));
            lemma_chord_of_text(keys@, text@);
        }
        Chord::from_keys(&keys)
    }
}

impl Clone for Chord {
    fn clone(&self) -> (chord: Chord)
        ensures
            chord.wf(),
            chord@ == self@,
            chord.listing() == self.listing(),
    {
        proof {
            use_type_invariant(self);
        }
        Chord { keys: self.keys() }
    }
}

impl PartialEq for Chord {
    fn eq(&self, other: &Chord) -> (same: bool) {
        self.same_as(other)
    }
}

impl Eq for Chord {

}

impl vstd::std_specs::cmp::PartialEqSpecImpl for Chord {
    open spec fn obeys_eq_spec() -> bool {
        true
    }

    open spec fn eq_spec(&self, other: &Chord) -> bool {
        self@ == other@
    }
}

/// A chord always has the same text: two chords of the same keys list them
/// in the same order.
pub proof fn lemma_text_canonical(a: Chord, b: Chord)
    requires
        a.wf(),
        b.wf(),
        a@ == b@,
    ensures
        a.listing() == b.listing(),
        a.text() == b.text(),
{
    lemma_canonical_unique(a.listing(), b.listing());
}

/// The text of a chord is the text of its keys.
pub proof fn lemma_text_of_keys(chord: Chord)
    requires
        chord.wf(),
    ensures
        canonical_listing(chord@) == chord.listing(),
        text_of_keys(chord@) == chord.text(),
{
    lemma_canonical_unique(canonical_listing(chord@), chord.listing());
}

/// Whether `keys` are the keys of a chord: at least one key, and a list of
/// them in the fixed order.
pub open spec fn is_chord_set(keys: Set<KeyId>) -> bool {
    exists|listing: Seq<KeyId>|
        listing.len() >= 1 && is_canonical(listing) && listing.to_set() == keys
}

/// The keys of a chord are the keys of a chord.
pub proof fn lemma_chord_set(chord: Chord)
    requires
        chord.wf(),
    ensures
        is_chord_set(chord@),
{
    let listing = chord.listing();
    assert(listing.len() >= 1 && is_canonical(listing) && listing.to_set() == chord@);
}

/// Reading the text of the keys of a chord gives the keys back.
pub proof fn lemma_keys_round_trip(keys: Set<KeyId>)
    requires
        is_chord_set(keys),
    ensures
        chord_of_text(text_of_keys(keys)) == Some(keys),
{
    let witness = choose|listing: Seq<KeyId>|
        listing.len() >= 1 && is_canonical(listing) && listing.to_set() == keys;
    let listing = canonical_listing(keys);
    lemma_canonical_unique(listing, witness);
    lemma_chord_of_text(listing, text_of_keys(keys));
}

/// Reading the text of a chord gives the chord back.
pub proof fn lemma_text_round_trip(chord: Chord)
    requires
        chord.wf(),
    ensures
        chord_of_text(chord.text()) == Some(chord@),
{
    lemma_chord_of_text(chord.listing(), chord.text());
}

} // verus!
