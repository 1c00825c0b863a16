//! What is kept of the custom bindings between runs: for each command that
//! has one, its identifier and the text of its custom chord.

use crate::chord::{chord_of_text, is_chord_set, lemma_keys_round_trip, text_of_keys, Chord};
use crate::resolver::{
    after_bind, is_consistent, is_registered, place_of, with_custom, Binding, Resolver,
};
use vstd::prelude::*;

verus! {

/// One custom binding as it is kept: the identifier of the command and the
/// text of the chord.
#[derive(Debug)]
pub struct HotkeyEntry {
    pub command: String,
    pub chord: String,
}

impl View for HotkeyEntry {
    type V = (Seq<char>, Seq<char>);

    open spec fn view(&self) -> (Seq<char>, Seq<char>) {
        (self.command@, self.chord@)
    }
}

/// The root of the configuration: the custom bindings, in order.
#[derive(Debug)]
pub struct ConfigRoot {
    pub hotkeys: Vec<HotkeyEntry>,
}

impl View for ConfigRoot {
    type V = Seq<(Seq<char>, Seq<char>)>;

    open spec fn view(&self) -> Seq<(Seq<char>, Seq<char>)> {
        Seq::new(self.hotkeys@.len(), |i: int| self.hotkeys@[i]@)
    }
}

/// The entries that keep the custom chords of `table`: one for each command
/// that has a custom chord, in the order of the commands.
pub open spec fn saved(table: Seq<Binding>) -> Seq<(Seq<char>, Seq<char>)>
    decreases table.len(),
{
    if table.len() == 0 {
        Seq::empty()
    } else {
        let before = saved(table.drop_last());
        match table.last().custom_chord {
            Some(keys) => before.push((table.last().id, text_of_keys(keys))),
            None => before,
        }
    }
}

/// The commands after the entries are bound one by one. An entry takes
/// effect as a binding does; one whose text is no chord or whose command is
/// not registered is passed over.
pub open spec fn loaded(table: Seq<Binding>, entries: Seq<(Seq<char>, Seq<char>)>) -> Seq<Binding>
    decreases entries.len(),
{
    if entries.len() == 0 {
        table
    } else {
        let before = loaded(table, entries.drop_last());
        match chord_of_text(entries.last().1) {
            Some(keys) => after_bind(before, entries.last().0, keys),
            None => before,
        }
    }
}

/// How many of the entries take effect when they are bound one by one.
pub open spec fn accepted(table: Seq<Binding>, entries: Seq<(Seq<char>, Seq<char>)>) -> nat
    decreases entries.len(),
{
    if entries.len() == 0 {
        0
    } else {
        let before = loaded(table, entries.drop_last());
        let count = accepted(table, entries.drop_last());
        match chord_of_text(entries.last().1) {
            Some(keys) => if is_registered(before, entries.last().0) {
                count + 1
            } else {
                count
            },
            None => count,
        }
    }
}

impl ConfigRoot {
    /// A configuration without custom bindings.
    pub fn new() -> (config: ConfigRoot)
        ensures
            config@ == Seq::<(Seq<char>, Seq<char>)>::empty(),
    {
        let config = ConfigRoot { hotkeys: Vec::new() };
        proof {
            assert(config@ =~= Seq::<(Seq<char>, Seq<char>)>::empty());
        }
        config
    }

    /// The configuration that keeps the custom chords of `resolver`.
    pub fn save_bindings(resolver: &Resolver) -> (config: ConfigRoot)
        ensures
            config@ == saved(resolver@),
    {
        let mut hotkeys: Vec<HotkeyEntry> = Vec::new();
        let mut i: usize = 0;
        proof {
            assert(resolver@.take(0) =~= Seq::<Binding>::empty());
            assert((ConfigRoot { hotkeys })@ =~= saved(resolver@.take(0)));
        }
        while i < resolver.len()
            invariant
                i <= resolver@.len(),
                (ConfigRoot { hotkeys })@ == saved(resolver@.take(i as int)),
            decreases resolver@.len() - i,
        {
            let ghost before = (ConfigRoot { hotkeys })@;
            proof {
                assert(resolver@.take(i + 1).drop_last() =~= resolver@.take(i as int));
                assert(resolver@.take(i + 1).last() == resolver@[i as int]);
            }
            match resolver.command(i) {
                Some(command) => {
                    match command.custom_chord() {
                        Some(chord) => {
                            let entry = HotkeyEntry {
                                command: command.id().clone(),
                                chord: chord.to_string(),
                            };
                            hotkeys.push(entry);
                            proof {
                                assert((ConfigRoot { hotkeys })@ =~= before.push(entry@));
                            }
                        },
                        None => {},
                    }
                },
                None => {},
            }
            i = i + 1;
        }
        proof {
            assert(resolver@.take(resolver@.len() as int) =~= resolver@);
        }
        ConfigRoot { hotkeys }
    }

    /// Binds the entries of the configuration in `resolver`, one by one, and
    /// says how many took effect. A file that cannot be read is an empty
    /// configuration to this function: then the default chords apply.
    pub fn load_bindings(&self, resolver: &mut Resolver) -> (count: usize)
        ensures
            final(resolver)@ == loaded(old(resolver)@, self@),
            count == accepted(old(resolver)@, self@),
    {
        let mut count: usize = 0;
        let mut i: usize = 0;
        proof {
            assert(self@.take(0) =~= Seq::<(Seq<char>, Seq<char>)>::empty());
        }
        while i < self.hotkeys.len()
            invariant
                i <= self.hotkeys.len(),
                count <= i,
                resolver@ == loaded(old(resolver)@, self@.take(i as int)),
                count == accepted(old(resolver)@, self@.take(i as int)),
            decreases self.hotkeys.len() - i,
        {
            proof {
                assert(self@.take(i + 1).drop_last() =~= self@.take(i as int));
                assert(self@.take(i + 1).last() == self.hotkeys@[i as int]@);
            }
            let entry: &HotkeyEntry = &self.hotkeys[i];
            match Chord::parse(entry.chord.as_str()) {
                Some(chord) => {
                    if resolver.bind(entry.command.as_str(), chord).is_ok() {
                        count = count + 1;
                    }
                },
                None => {},
            }
            i = i + 1;
        }
        proof {
            assert(self@.take(self.hotkeys.len() as int) =~= self@);
        }
        count
    }
}

/// The commands with the custom chords of the first `n` of them only.
pub open spec fn restored(table: Seq<Binding>, n: int) -> Seq<Binding> {
    Seq::new(
        table.len(),
        |i: int|
            if i < n {
                table[i]
            } else {
                Binding { custom_chord: None, ..table[i] }
            },
    )
}

/// The commands without any custom chord.
pub open spec fn without_custom(table: Seq<Binding>) -> Seq<Binding> {
    restored(table, 0)
}

proof fn lemma_load_saved_prefix(table: Seq<Binding>, n: int)
    requires
        is_consistent(table),
        forall|i: int|
            0 <= i < table.len() && (#[trigger] table[i]).custom_chord is Some ==> is_chord_set(
                table[i].custom_chord->0,
            ),
        0 <= n <= table.len(),
    ensures
        loaded(without_custom(table), saved(table.take(n))) == restored(table, n),
    decreases n,
{
    let base = without_custom(table);
    if n == 0 {
        assert(table.take(0) =~= Seq::<Binding>::empty());
        assert(restored(table, 0) =~= base);
    } else {
        lemma_load_saved_prefix(table, n - 1);
        let before = restored(table, n - 1);
        let last = table[n - 1];
        assert(table.take(n).drop_last() =~= table.take(n - 1));
        assert(table.take(n).last() == last);
        match last.custom_chord {
            None => {
                assert(restored(table, n) =~= before);
            },
            Some(keys) => {
                let entries = saved(table.take(n));
                let text = text_of_keys(keys);
                assert(entries.drop_last() =~= saved(table.take(n - 1)));
                assert(entries.last() == (last.id, text));
                lemma_keys_round_trip(keys);
                assert(before[n - 1].id == last.id);
                let at = place_of(before, last.id);
                assert(at == n - 1) by {
                    if at != n - 1 {
                        assert(table[at].id == before[at].id);
                        assert(table[at].id != table[n - 1].id);
                    }
                }
                assert(is_registered(before, last.id));
                assert(with_custom(before, at, Some(keys)) =~= restored(table, n));
            },
        }
    }
}

/// What is saved can be loaded again: binding the saved entries, with no
/// custom chord in the way, gives every command its custom chord back.
pub proof fn lemma_load_saved(table: Seq<Binding>)
    requires
        is_consistent(table),
        forall|i: int|
            0 <= i < table.len() && (#[trigger] table[i]).custom_chord is Some ==> is_chord_set(
                table[i].custom_chord->0,
            ),
    ensures
        loaded(without_custom(table), saved(table)) == table,
{
    lemma_load_saved_prefix(table, table.len() as int);
    assert(table.take(table.len() as int) =~= table);
    assert(restored(table, table.len() as int) =~= table);
}

} // verus!
