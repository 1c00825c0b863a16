//! The binding resolver: which command a chord stands for.
//!
//! A command has at most one custom chord, and a custom chord takes the
//! place of the default chord of its command. Several commands may hold one
//! chord; then the command registered last is the one that the chord calls,
//! and a custom chord goes before every default chord.

use crate::chord::{text_of_keys, Chord};
use crate::key::KeyId;
use vstd::prelude::*;

verus! {

/// A registered command as the contracts see it.
pub struct Binding {
    /// The identifier of the command.
    pub id: Seq<char>,
    /// What the command does, in words.
    pub doc: Seq<char>,
    /// The chord that the command declares for itself.
    pub default_chord: Option<Set<KeyId>>,
    /// The chord that the user chose for the command.
    pub custom_chord: Option<Set<KeyId>>,
}

impl Binding {
    /// The chord that calls the command: the custom chord where the user
    /// chose one, and then not the default chord any more; else the default
    /// chord.
    pub open spec fn active_chord(self) -> Option<Set<KeyId>> {
        if self.custom_chord is Some {
            self.custom_chord
        } else {
            self.default_chord
        }
    }
}

/// Whether command `i` has `chord` as its custom chord.
pub open spec fn is_custom_of(table: Seq<Binding>, i: int, chord: Set<KeyId>) -> bool {
    0 <= i < table.len() && table[i].custom_chord == Some(chord)
}

/// Whether command `i` has no custom chord and `chord` as its default chord.
pub open spec fn is_default_of(table: Seq<Binding>, i: int, chord: Set<KeyId>) -> bool {
    0 <= i < table.len() && table[i].custom_chord is None && table[i].default_chord == Some(chord)
}

/// Whether some command has the identifier `id`.
pub open spec fn is_registered(table: Seq<Binding>, id: Seq<char>) -> bool {
    exists|i: int| 0 <= i < table.len() && (#[trigger] table[i]).id == id
}

/// The place of the command with the identifier `id`.
pub open spec fn place_of(table: Seq<Binding>, id: Seq<char>) -> int {
    choose|i: int| 0 <= i < table.len() && (#[trigger] table[i]).id == id
}

/// The place of the command registered last among those that have `chord`
/// as their custom chord.
pub open spec fn last_custom(table: Seq<Binding>, chord: Set<KeyId>) -> Option<int>
    decreases table.len(),
{
    if table.len() == 0 {
        None
    } else if table.last().custom_chord == Some(chord) {
        Some(table.len() - 1)
    } else {
        last_custom(table.drop_last(), chord)
    }
}

/// The place of the command registered last among those that have no
/// custom chord and `chord` as their default chord.
pub open spec fn last_default(table: Seq<Binding>, chord: Set<KeyId>) -> Option<int>
    decreases table.len(),
{
    if table.len() == 0 {
        None
    } else if table.last().custom_chord is None && table.last().default_chord == Some(chord) {
        Some(table.len() - 1)
    } else {
        last_default(table.drop_last(), chord)
    }
}

/// The command that `chord` stands for. A custom chord that is exactly
/// `chord` decides; failing that, the default chord of a command without
/// custom chord that is exactly `chord`; failing that, no command. Where
/// several commands hold the chord, the one registered last is called.
pub open spec fn resolves_to(table: Seq<Binding>, chord: Set<KeyId>) -> Option<Seq<char>> {
    match last_custom(table, chord) {
        Some(i) => Some(table[i].id),
        None => match last_default(table, chord) {
            Some(i) => Some(table[i].id),
            None => None,
        },
    }
}

/// No two commands share an identifier.
pub open spec fn is_consistent(table: Seq<Binding>) -> bool {
    forall|i: int, j: int|
        0 <= i < table.len() && 0 <= j < table.len() && i != j ==> (#[trigger] table[i]).id != (
        #[trigger] table[j]).id
}

/// Command `at` with `chord` as its custom chord, or with none.
pub open spec fn with_custom(table: Seq<Binding>, at: int, chord: Option<Set<KeyId>>) -> Seq<
    Binding,
> {
    table.update(at, Binding { custom_chord: chord, ..table[at] })
}

/// What binding a chord to the command `id` answers: the command must be
/// registered, and nothing else is asked.
pub open spec fn bind_answer(table: Seq<Binding>, id: Seq<char>) -> Result<(), BindError> {
    if is_registered(table, id) {
        Ok(())
    } else {
        Err(BindError::UnknownCommand)
    }
}

/// The commands after binding `chord` to the command `id`: the command has
/// `chord` as its custom chord, whatever chord it had and whatever chords
/// the other commands have, and every other command is as it was. Without
/// such a command nothing changes.
pub open spec fn after_bind(table: Seq<Binding>, id: Seq<char>, chord: Set<KeyId>) -> Seq<Binding> {
    if is_registered(table, id) {
        with_custom(table, place_of(table, id), Some(chord))
    } else {
        table
    }
}

/// The commands after taking the custom chord from the command `id`.
pub open spec fn after_unbind(table: Seq<Binding>, id: Seq<char>) -> Seq<Binding> {
    if is_registered(table, id) {
        with_custom(table, place_of(table, id), None)
    } else {
        table
    }
}

/// A command: its identifier, what it does, the chord it declares for
/// itself, and the chord that the user chose for it.
#[derive(Debug)]
pub struct Command {
    id: String,
    doc: String,
    default_chord: Option<Chord>,
    custom_chord: Option<Chord>,
}

/// The set of keys of a chord that may be missing.
pub open spec fn keys_of(chord: Option<Chord>) -> Option<Set<KeyId>> {
    match chord {
        Some(chord) => Some(chord@),
        None => None,
    }
}

impl View for Command {
    type V = Binding;

    closed spec fn view(&self) -> Binding {
        Binding {
            id: self.id@,
            doc: self.doc@,
            default_chord: keys_of(self.default_chord),
            custom_chord: keys_of(self.custom_chord),
        }
    }
}

impl Command {
    /// The identifier of the command.
    pub fn id(&self) -> (id: &String)
        ensures
            id@ == self@.id,
    {
        &self.id
    }

    /// What the command does, in words.
    pub fn doc(&self) -> (doc: &String)
        ensures
            doc@ == self@.doc,
    {
        &self.doc
    }

    /// The chord that the command declares for itself.
    pub fn default_chord(&self) -> (chord: &Option<Chord>)
        ensures
            keys_of(*chord) == self@.default_chord,
    {
        &self.default_chord
    }

    /// The chord that the user chose for the command.
    pub fn custom_chord(&self) -> (chord: &Option<Chord>)
        ensures
            keys_of(*chord) == self@.custom_chord,
    {
        &self.custom_chord
    }

    /// What the list of hotkeys shows for the command: the text of its
    /// custom chord, in the column of the custom chords; without a custom
    /// chord the text of its default chord, in the column of the default
    /// chords; and an empty text there where it has neither.
    pub fn shown(&self) -> (r: (String, Column))
        ensures
            r.1 == if self@.custom_chord is Some {
                Column::Custom
            } else {
                Column::Default
            },
            r.0@ == match self@.active_chord() {
                Some(keys) => text_of_keys(keys),
                None => Seq::<char>::empty(),
            },
    {
        match &self.custom_chord {
            Some(chord) => (chord.to_string(), Column::Custom),
            None => match &self.default_chord {
                Some(chord) => (chord.to_string(), Column::Default),
                None => (String::new(), Column::Default),
            },
        }
    }

    /// The chord that calls the command.
    pub fn active_chord(&self) -> (chord: &Option<Chord>)
        ensures
            keys_of(*chord) == self@.active_chord(),
    {
        if self.custom_chord.is_some() {
            &self.custom_chord
        } else {
            &self.default_chord
        }
    }
}

/// The column of the list of hotkeys in which the chord of a command is
/// shown.
#[derive(Clone, Copy, Debug, PartialEq, Eq, Structural)]
pub enum Column {
    /// The column of the default chords.
    Default,
    /// The column of the custom chords.
    Custom,
}

/// Why a command was not registered.
#[derive(Clone, Copy, Debug, PartialEq, Eq, Structural)]
pub enum RegisterError {
    /// A command with this identifier is registered already.
    DuplicateId,
}

/// Why a chord was not bound to a command.
#[derive(Clone, Copy, Debug, PartialEq, Eq, Structural)]
pub enum BindError {
    /// No command has this identifier.
    UnknownCommand,
}

/// The commands of `commands` as the contracts see them.
pub open spec fn bindings(commands: Seq<Command>) -> Seq<Binding> {
    Seq::new(commands.len(), |i: int| commands[i]@)
}

/// The commands and their chords.
#[derive(Debug)]
pub struct Resolver {
    commands: Vec<Command>,
}

impl View for Resolver {
    type V = Seq<Binding>;

    closed spec fn view(&self) -> Seq<Binding> {
        bindings(self.commands@)
    }
}

impl Resolver {
    #[verifier::type_invariant]
    pub open spec fn wf(&self) -> bool {
        is_consistent(self@)
    }

    /// A resolver without commands.
    pub fn new() -> (resolver: Resolver)
        ensures
            resolver.wf(),
            resolver@ == Seq::<Binding>::empty(),
    {
        let resolver = Resolver { commands: Vec::new() };
        proof {
            assert(resolver@ =~= Seq::<Binding>::empty());
        }
        resolver
    }

    /// How many commands are registered.
    pub fn len(&self) -> (n: usize)
        ensures
            n == self@.len(),
    {
        self.commands.len()
    }

    /// The command at place `i`, in the order of registration.
    pub fn command(&self, i: usize) -> (r: Option<&Command>)
        ensures
            match r {
                Some(command) => i < self@.len() && command@ == self@[i as int],
                None => i >= self@.len(),
            },
    {
        if i < self.commands.len() {
            Some(&self.commands[i])
        } else {
            None
        }
    }

    /// The place of the command with the identifier `id`.
    pub fn find(&self, id: &str) -> (r: Option<usize>)
        ensures
            match r {
                Some(i) => i < self@.len() && self@[i as int].id == id@ && is_registered(self@, id@)
                    && place_of(self@, id@) == i,
                None => !is_registered(self@, id@),
            },
    {
        proof {
            use_type_invariant(self);
        }
        let wanted: String = id.to_owned();
        let mut i: usize = 0;
        while i < self.commands.len()
            invariant
                i <= self.commands.len(),
                wanted@ == id@,
                is_consistent(self@),
                forall|p: int| 0 <= p < i ==> (#[trigger] self@[p]).id != id@,
            decreases self.commands.len() - i,
        {
            if self.commands[i].id == wanted {
                proof {
                    assert(self@[i as int].id == id@);
                    let p = place_of(self@, id@);
                    assert(self@[p].id == self@[i as int].id);
                }
                return Some(i);
            }
            i = i + 1;
        }
        None
    }

    /// Registers a command behind the others. It is refused where a command
    /// with the same identifier is registered; then nothing changes. A
    /// default chord that another command declares too is no hindrance: the
    /// command registered last is the one that the chord calls.
    pub fn register(&mut self, id: &str, doc: &str, default_chord: Option<Chord>) -> (r: Result<
        (),
        RegisterError,
    >)
        ensures
            final(self).wf(),
            r is Ok <==> !is_registered(old(self)@, id@),
            r is Err ==> r == Err::<(), RegisterError>(RegisterError::DuplicateId),
            final(self)@ == if r is Ok {
                old(self)@.push(
                    Binding {
                        id: id@,
                        doc: doc@,
                        default_chord: keys_of(default_chord),
                        custom_chord: None,
                    },
                )
            } else {
                old(self)@
            },
    {
        proof {
            use_type_invariant(&*self);
        }
        if self.find(id).is_some() {
            return Err(RegisterError::DuplicateId);
        }
        let ghost before = self@;
        let command = Command {
            id: id.to_owned(),
            doc: doc.to_owned(),
            default_chord,
            custom_chord: None,
        };
        let mut taken: Resolver = Resolver::new();
        core::mem::swap(self, &mut taken);
        let Resolver { mut commands } = taken;
        commands.push(command);
        proof {
            assert(bindings(commands@) =~= before.push(command@));
            lemma_push_consistent(before, command@);
        }
        *self = Resolver { commands };
        Ok(())
    }

    /// Puts `custom` in the place of the custom chord of command `at`.
    fn set_custom(&mut self, at: usize, custom: Option<Chord>)
        requires
            at < old(self)@.len(),
        ensures
            final(self).wf(),
            final(self)@ == with_custom(old(self)@, at as int, keys_of(custom)),
    {
        proof {
            use_type_invariant(&*self);
        }
        let ghost before = self@;
        let mut taken: Resolver = Resolver::new();
        core::mem::swap(self, &mut taken);
        let Resolver { mut commands } = taken;
        let Command { id, doc, default_chord, custom_chord: _ } = commands.remove(at);
        let command = Command { id, doc, default_chord, custom_chord: custom };
        commands.insert(at, command);
        proof {
            assert(bindings(commands@) =~= with_custom(before, at as int, keys_of(custom)));
            lemma_same_ids_consistent(before, bindings(commands@));
        }
        *self = Resolver { commands };
    }

    /// Binds `chord` to the command `id` as its custom chord, in place of
    /// the one it had. From then on the default chord of the command calls
    /// it no more. Every other command stays as it is, also one that has
    /// the same chord. The binding is refused only where no command has the
    /// identifier; then nothing changes.
    pub fn bind(&mut self, id: &str, chord: Chord) -> (r: Result<(), BindError>)
        ensures
            final(self).wf(),
            r is Ok <==> is_registered(old(self)@, id@),
            r == bind_answer(old(self)@, id@),
            final(self)@ == after_bind(old(self)@, id@, chord@),
    {
        proof {
            use_type_invariant(&*self);
        }
        let at: usize = match self.find(id) {
            Some(at) => at,
            None => {
                return Err(BindError::UnknownCommand);
            },
        };
        self.set_custom(at, Some(chord));
        Ok(())
    }

    /// Takes the custom chord from the command `id`, so that its default
    /// chord calls it again. Says whether there was a custom chord to take.
    pub fn unbind(&mut self, id: &str) -> (removed: bool)
        ensures
            final(self).wf(),
            removed == (is_registered(old(self)@, id@) && old(self)@[place_of(
                old(self)@,
                id@,
            )].custom_chord is Some),
            final(self)@ == after_unbind(old(self)@, id@),
    {
        proof {
            use_type_invariant(&*self);
        }
        let at: usize = match self.find(id) {
            Some(at) => at,
            None => {
                return false;
            },
        };
        let removed: bool = self.commands[at].custom_chord.is_some();
        self.set_custom(at, None);
        removed
    }

    /// Whether the user chose a chord for the command `id`.
    pub fn has_custom(&self, id: &str) -> (custom: bool)
        ensures
            custom == (is_registered(self@, id@) && self@[place_of(self@, id@)].custom_chord
                is Some),
    {
        match self.find(id) {
            Some(at) => self.commands[at].custom_chord.is_some(),
            None => false,
        }
    }

    /// The place of the command registered last among those that have
    /// `chord` as their custom chord.
    fn find_last_custom(&self, chord: &Chord) -> (r: Option<usize>)
        ensures
            match r {
                Some(i) => i < self@.len() && last_custom(self@, chord@) == Some(i as int),
                None => last_custom(self@, chord@) is None,
            },
    {
        let mut i: usize = self.commands.len();
        while i > 0
            invariant
                i <= self.commands.len(),
                forall|p: int| i <= p ==> !is_custom_of(self@, p, chord@),
            decreases i,
        {
            i = i - 1;
            match &self.commands[i].custom_chord {
                Some(custom) => {
                    if custom.same_as(chord) {
                        proof {
                            assert(is_custom_of(self@, i as int, chord@));
                            lemma_last_custom_is(self@, chord@, i as int);
                        }
                        return Some(i);
                    }
                },
                None => {},
            }
        }
        proof {
            lemma_last_custom(self@, chord@);
        }
        None
    }

    /// The place of the command registered last among those that have no
    /// custom chord and `chord` as their default chord.
    fn find_last_default(&self, chord: &Chord) -> (r: Option<usize>)
        ensures
            match r {
                Some(i) => i < self@.len() && last_default(self@, chord@) == Some(i as int),
                None => last_default(self@, chord@) is None,
            },
    {
        let mut i: usize = self.commands.len();
        while i > 0
            invariant
                i <= self.commands.len(),
                forall|p: int| i <= p ==> !is_default_of(self@, p, chord@),
            decreases i,
        {
            i = i - 1;
            let command: &Command = &self.commands[i];
            if command.custom_chord.is_none() {
                match &command.default_chord {
                    Some(declared) => {
                        if declared.same_as(chord) {
                            proof {
                                assert(is_default_of(self@, i as int, chord@));
                                lemma_last_default_is(self@, chord@, i as int);
                            }
                            return Some(i);
                        }
                    },
                    None => {},
                }
            }
        }
        proof {
            lemma_last_default(self@, chord@);
        }
        None
    }

    /// The command that `chord` stands for, if there is one. The chord must
    /// match exactly: a chord with more keys or fewer stands for nothing.
    pub fn resolve(&self, chord: &Chord) -> (r: Option<String>)
        ensures
            match r {
                Some(id) => resolves_to(self@, chord@) == Some(id@),
                None => resolves_to(self@, chord@) is None,
            },
    {
        match self.find_last_custom(chord) {
            Some(at) => {
                return Some(self.commands[at].id.clone());
            },
            None => {},
        }
        match self.find_last_default(chord) {
            Some(at) => Some(self.commands[at].id.clone()),
            None => None,
        }
    }
}

/// Commands with the identifiers of consistent commands, each at its
/// place, are consistent.
pub proof fn lemma_same_ids_consistent(before: Seq<Binding>, after: Seq<Binding>)
    requires
        is_consistent(before),
        after.len() == before.len(),
        forall|i: int| 0 <= i < before.len() ==> (#[trigger] after[i]).id == before[i].id,
    ensures
        is_consistent(after),
{
    assert forall|i: int, j: int|
        0 <= i < after.len() && 0 <= j < after.len() && i != j implies (#[trigger] after[i]).id != (
        #[trigger] after[j]).id by {
        assert(before[i].id != before[j].id);
    }
}

/// One more command with an identifier that is not registered keeps the
/// commands consistent.
pub proof fn lemma_push_consistent(before: Seq<Binding>, command: Binding)
    requires
        is_consistent(before),
        !is_registered(before, command.id),
    ensures
        is_consistent(before.push(command)),
{
    let after = before.push(command);
    assert forall|i: int, j: int|
        0 <= i < after.len() && 0 <= j < after.len() && i != j implies (#[trigger] after[i]).id != (
        #[trigger] after[j]).id by {
        if i < before.len() && j < before.len() {
            assert(before[i].id != before[j].id);
        } else if i < before.len() {
            assert(before[i].id != command.id);
        } else {
            assert(before[j].id != command.id);
        }
    }
}

/// Last registered wins among custom chords: the command that
/// `last_custom` names has the chord as its custom chord, and no command
/// registered after it has; it names none only where no command has.
pub proof fn lemma_last_custom(table: Seq<Binding>, chord: Set<KeyId>)
    ensures
        match last_custom(table, chord) {
            Some(i) => is_custom_of(table, i, chord) && forall|j: int|
                i < j ==> !is_custom_of(table, j, chord),
            None => forall|j: int| !is_custom_of(table, j, chord),
        },
    decreases table.len(),
{
    if table.len() > 0 {
        let head = table.drop_last();
        lemma_last_custom(head, chord);
        assert forall|j: int| is_custom_of(head, j, chord) <==> j < table.len() - 1
            && is_custom_of(table, j, chord) by {
            if 0 <= j < head.len() {
                assert(head[j] == table[j]);
            }
        }
        if table.last().custom_chord == Some(chord) {
            assert(is_custom_of(table, table.len() - 1, chord));
        } else {
            assert(!is_custom_of(table, table.len() - 1, chord));
        }
    }
}

/// Last registered wins among default chords: the command that
/// `last_default` names has no custom chord and the chord as its default
/// chord, and no command registered after it is such; it names none only
/// where no command is.
pub proof fn lemma_last_default(table: Seq<Binding>, chord: Set<KeyId>)
    ensures
        match last_default(table, chord) {
            Some(i) => is_default_of(table, i, chord) && forall|j: int|
                i < j ==> !is_default_of(table, j, chord),
            None => forall|j: int| !is_default_of(table, j, chord),
        },
    decreases table.len(),
{
    if table.len() > 0 {
        let head = table.drop_last();
        lemma_last_default(head, chord);
        assert forall|j: int| is_default_of(head, j, chord) <==> j < table.len() - 1
            && is_default_of(table, j, chord) by {
            if 0 <= j < head.len() {
                assert(head[j] == table[j]);
            }
        }
        if table.last().custom_chord is None && table.last().default_chord == Some(chord) {
            assert(is_default_of(table, table.len() - 1, chord));
        } else {
            assert(!is_default_of(table, table.len() - 1, chord));
        }
    }
}

/// A command that has the chord as its custom chord, with no such command
/// registered after it, is the one that `last_custom` names.
pub proof fn lemma_last_custom_is(table: Seq<Binding>, chord: Set<KeyId>, at: int)
    requires
        is_custom_of(table, at, chord),
        forall|j: int| at < j ==> !is_custom_of(table, j, chord),
    ensures
        last_custom(table, chord) == Some(at),
{
    lemma_last_custom(table, chord);
}

/// A command without custom chord that has the chord as its default chord,
/// with no such command registered after it, is the one that `last_default`
/// names.
pub proof fn lemma_last_default_is(table: Seq<Binding>, chord: Set<KeyId>, at: int)
    requires
        is_default_of(table, at, chord),
        forall|j: int| at < j ==> !is_default_of(table, j, chord),
    ensures
        last_default(table, chord) == Some(at),
{
    lemma_last_default(table, chord);
}

/// Where a command has a custom chord and another chord as its default,
/// the default chord does not stand for the command, and the custom chord
/// stands for a command that has it as its custom chord: for this command,
/// unless a command registered later has the same custom chord.
pub proof fn lemma_custom_preferred(table: Seq<Binding>, at: int)
    requires
        is_consistent(table),
        0 <= at < table.len(),
        table[at].custom_chord is Some,
        table[at].default_chord is Some,
        table[at].custom_chord != table[at].default_chord,
    ensures
        resolves_to(table, table[at].default_chord->0) != Some(table[at].id),
        last_custom(table, table[at].custom_chord->0) is Some,
        resolves_to(table, table[at].custom_chord->0) == Some(
            table[last_custom(table, table[at].custom_chord->0)->0].id,
        ),
        (forall|j: int| at < j ==> !is_custom_of(table, j, table[at].custom_chord->0))
            ==> resolves_to(table, table[at].custom_chord->0) == Some(table[at].id),
{
    let custom = table[at].custom_chord->0;
    let declared = table[at].default_chord->0;
    lemma_last_custom(table, custom);
    lemma_last_custom(table, declared);
    lemma_last_default(table, declared);
    assert(is_custom_of(table, at, custom));
    match last_custom(table, declared) {
        Some(other) => {
            assert(is_custom_of(table, other, declared));
            assert(other != at);
            assert(table[other].id != table[at].id);
        },
        None => {
            match last_default(table, declared) {
                Some(other) => {
                    assert(is_default_of(table, other, declared));
                    assert(other != at);
                    assert(table[other].id != table[at].id);
                },
                None => {},
            }
        },
    }
}

/// A chord stands only for a command that it calls: the chord is exactly
/// the custom chord of the command, or exactly its default chord where the
/// command has no custom chord.
pub proof fn lemma_exact_match(table: Seq<Binding>, chord: Set<KeyId>)
    ensures
        match resolves_to(table, chord) {
            Some(id) => exists|i: int|
                0 <= i < table.len() && (#[trigger] table[i]).id == id && table[i].active_chord()
                    == Some(chord),
            None => forall|i: int|
                0 <= i < table.len() ==> (#[trigger] table[i]).active_chord() != Some(chord),
        },
{
    lemma_last_custom(table, chord);
    lemma_last_default(table, chord);
    match last_custom(table, chord) {
        Some(i) => {
            assert(is_custom_of(table, i, chord));
            assert(table[i].active_chord() == Some(chord));
        },
        None => {
            match last_default(table, chord) {
                Some(i) => {
                    assert(is_default_of(table, i, chord));
                    assert(table[i].active_chord() == Some(chord));
                },
                None => {
                    assert forall|i: int| 0 <= i < table.len() implies (
                    #[trigger] table[i]).active_chord() != Some(chord) by {
                        assert(!is_custom_of(table, i, chord));
                        assert(!is_default_of(table, i, chord));
                    }
                },
            }
        },
    }
}

/// The default chord of a command without custom chord stands for it, as
/// long as no command has that chord as its custom chord and no command
/// registered later calls by it as its default chord.
pub proof fn lemma_default_resolves(table: Seq<Binding>, at: int)
    requires
        0 <= at < table.len(),
        table[at].custom_chord is None,
        table[at].default_chord is Some,
        forall|i: int| !is_custom_of(table, i, table[at].default_chord->0),
        forall|j: int| at < j ==> !is_default_of(table, j, table[at].default_chord->0),
    ensures
        resolves_to(table, table[at].default_chord->0) == Some(table[at].id),
{
    let declared = table[at].default_chord->0;
    lemma_last_custom(table, declared);
    lemma_last_default(table, declared);
    assert(is_default_of(table, at, declared));
}

/// Binding keeps the commands consistent, and so does taking a custom chord
/// away.
pub proof fn lemma_bind_consistent(table: Seq<Binding>, id: Seq<char>, chord: Set<KeyId>)
    requires
        is_consistent(table),
    ensures
        is_consistent(after_bind(table, id, chord)),
        is_consistent(after_unbind(table, id)),
{
    lemma_same_ids_consistent(table, after_bind(table, id, chord));
    lemma_same_ids_consistent(table, after_unbind(table, id));
}

/// A binding changes one command and no other: the command `id` has the
/// chord as its custom chord, whether or not another command has the same
/// one, and every other command is as it was.
pub proof fn lemma_bind_touches_one(table: Seq<Binding>, id: Seq<char>, chord: Set<KeyId>)
    requires
        is_consistent(table),
        is_registered(table, id),
    ensures
        after_bind(table, id, chord).len() == table.len(),
        after_bind(table, id, chord)[place_of(table, id)].custom_chord == Some(chord),
        forall|k: int|
            0 <= k < table.len() && (#[trigger] table[k]).id != id ==> after_bind(
                table,
                id,
                chord,
            )[k] == table[k],
{
    let at = place_of(table, id);
    assert forall|k: int| 0 <= k < table.len() && (#[trigger] table[k]).id != id implies after_bind(
        table,
        id,
        chord,
    )[k] == table[k] by {
        assert(k != at);
    }
}

/// Once a chord is bound to a command, the default chord of the command,
/// if it is another one, stands for it no more; and the chord stands for
/// the command, unless a command registered later has the same custom
/// chord.
pub proof fn lemma_bind_shadows_default(table: Seq<Binding>, id: Seq<char>, chord: Set<KeyId>)
    requires
        is_consistent(table),
        is_registered(table, id),
    ensures
        (forall|j: int| place_of(table, id) < j ==> !is_custom_of(table, j, chord)) ==> resolves_to(
            after_bind(table, id, chord),
            chord,
        ) == Some(id),
        table[place_of(table, id)].default_chord is Some && table[place_of(
            table,
            id,
        )].default_chord != Some(chord) ==> resolves_to(
            after_bind(table, id, chord),
            table[place_of(table, id)].default_chord->0,
        ) != Some(id),
{
    let at = place_of(table, id);
    let after = after_bind(table, id, chord);
    lemma_bind_consistent(table, id, chord);
    lemma_last_custom(after, chord);
    assert(is_custom_of(after, at, chord));
    if forall|j: int| at < j ==> !is_custom_of(table, j, chord) {
        assert forall|j: int| at < j implies !is_custom_of(after, j, chord) by {
            if j < table.len() {
                assert(after[j] == table[j]);
                assert(!is_custom_of(table, j, chord));
            }
        }
    }
    if table[at].default_chord is Some && table[at].default_chord != Some(chord) {
        lemma_custom_preferred(after, at);
    }
}

} // verus!
