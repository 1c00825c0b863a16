//! Display names of keys: the text that stands for a key in a chord.

use crate::key::KeyId;
use crate::text::{
    chars_of, decimal, digits_value, is_digit, is_number, is_plain, lemma_decimal,
    lemma_decimal_is_number, push_decimal, read_number, string_of, SEPARATOR,
};
use vstd::prelude::*;

verus! {

/// How many keys have a name of their own in the table.
pub const NAMED_KEYS: usize = 33;

/// Entry `i` of the table of named keys: the key, by its virtual-key code
/// and extended flag, and its name. The modifiers come first, each with its
/// left and right variant; then the editing and navigation keys; then the
/// operators of the number pad.
pub open spec fn named_key(i: int) -> (KeyId, Seq<char>) {
    if i == 0 {
        (KeyId { code: 0x11, extended: false }, "Ctrl"@)
    } else if i == 1 {
        (KeyId { code: 0xA2, extended: false }, "LCtrl"@)
    } else if i == 2 {
        (KeyId { code: 0xA3, extended: true }, "RCtrl"@)
    } else if i == 3 {
        (KeyId { code: 0x12, extended: false }, "Alt"@)
    } else if i == 4 {
        (KeyId { code: 0xA4, extended: false }, "LAlt"@)
    } else if i == 5 {
        (KeyId { code: 0xA5, extended: true }, "RAlt"@)
    } else if i == 6 {
        (KeyId { code: 0x10, extended: false }, "Shift"@)
    } else if i == 7 {
        (KeyId { code: 0xA0, extended: false }, "LShift"@)
    } else if i == 8 {
        (KeyId { code: 0xA1, extended: false }, "RShift"@)
    } else if i == 9 {
        (KeyId { code: 0x5B, extended: true }, "Win"@)
    } else if i == 10 {
        (KeyId { code: 0x5C, extended: true }, "RWin"@)
    } else if i == 11 {
        (KeyId { code: 0x1B, extended: false }, "Escape"@)
    } else if i == 12 {
        (KeyId { code: 0x0D, extended: false }, "Enter"@)
    } else if i == 13 {
        (KeyId { code: 0x0D, extended: true }, "NumPadEnter"@)
    } else if i == 14 {
        (KeyId { code: 0x09, extended: false }, "Tab"@)
    } else if i == 15 {
        (KeyId { code: 0x20, extended: false }, "Space"@)
    } else if i == 16 {
        (KeyId { code: 0x08, extended: false }, "Backspace"@)
    } else if i == 17 {
        (KeyId { code: 0x14, extended: false }, "CapsLock"@)
    } else if i == 18 {
        (KeyId { code: 0x2D, extended: true }, "Insert"@)
    } else if i == 19 {
        (KeyId { code: 0x2E, extended: true }, "Delete"@)
    } else if i == 20 {
        (KeyId { code: 0x24, extended: true }, "Home"@)
    } else if i == 21 {
        (KeyId { code: 0x23, extended: true }, "End"@)
    } else if i == 22 {
        (KeyId { code: 0x21, extended: true }, "PageUp"@)
    } else if i == 23 {
        (KeyId { code: 0x22, extended: true }, "PageDown"@)
    } else if i == 24 {
        (KeyId { code: 0x25, extended: true }, "Left"@)
    } else if i == 25 {
        (KeyId { code: 0x26, extended: true }, "Up"@)
    } else if i == 26 {
        (KeyId { code: 0x27, extended: true }, "Right"@)
    } else if i == 27 {
        (KeyId { code: 0x28, extended: true }, "Down"@)
    } else if i == 28 {
        (KeyId { code: 0x6A, extended: false }, "NumPadMul"@)
    } else if i == 29 {
        (KeyId { code: 0x6B, extended: false }, "NumPadAdd"@)
    } else if i == 30 {
        (KeyId { code: 0x6D, extended: false }, "NumPadSub"@)
    } else if i == 31 {
        (KeyId { code: 0x6E, extended: false }, "NumPadDot"@)
    } else {
        (KeyId { code: 0x6F, extended: true }, "NumPadDiv"@)
    }
}

fn named_entry(i: usize) -> (e: (KeyId, &'static str))
    requires
        i < NAMED_KEYS,
    ensures
        e.0 == named_key(i as int).0,
        e.1@ == named_key(i as int).1,
{
    match i {
        0 => (KeyId { code: 0x11, extended: false }, "Ctrl"),
        1 => (KeyId { code: 0xA2, extended: false }, "LCtrl"),
        2 => (KeyId { code: 0xA3, extended: true }, "RCtrl"),
        3 => (KeyId { code: 0x12, extended: false }, "Alt"),
        4 => (KeyId { code: 0xA4, extended: false }, "LAlt"),
        5 => (KeyId { code: 0xA5, extended: true }, "RAlt"),
        6 => (KeyId { code: 0x10, extended: false }, "Shift"),
        7 => (KeyId { code: 0xA0, extended: false }, "LShift"),
        8 => (KeyId { code: 0xA1, extended: false }, "RShift"),
        9 => (KeyId { code: 0x5B, extended: true }, "Win"),
        10 => (KeyId { code: 0x5C, extended: true }, "RWin"),
        11 => (KeyId { code: 0x1B, extended: false }, "Escape"),
        12 => (KeyId { code: 0x0D, extended: false }, "Enter"),
        13 => (KeyId { code: 0x0D, extended: true }, "NumPadEnter"),
        14 => (KeyId { code: 0x09, extended: false }, "Tab"),
        15 => (KeyId { code: 0x20, extended: false }, "Space"),
        16 => (KeyId { code: 0x08, extended: false }, "Backspace"),
        17 => (KeyId { code: 0x14, extended: false }, "CapsLock"),
        18 => (KeyId { code: 0x2D, extended: true }, "Insert"),
        19 => (KeyId { code: 0x2E, extended: true }, "Delete"),
        20 => (KeyId { code: 0x24, extended: true }, "Home"),
        21 => (KeyId { code: 0x23, extended: true }, "End"),
        22 => (KeyId { code: 0x21, extended: true }, "PageUp"),
        23 => (KeyId { code: 0x22, extended: true }, "PageDown"),
        24 => (KeyId { code: 0x25, extended: true }, "Left"),
        25 => (KeyId { code: 0x26, extended: true }, "Up"),
        26 => (KeyId { code: 0x27, extended: true }, "Right"),
        27 => (KeyId { code: 0x28, extended: true }, "Down"),
        28 => (KeyId { code: 0x6A, extended: false }, "NumPadMul"),
        29 => (KeyId { code: 0x6B, extended: false }, "NumPadAdd"),
        30 => (KeyId { code: 0x6D, extended: false }, "NumPadSub"),
        31 => (KeyId { code: 0x6E, extended: false }, "NumPadDot"),
        _ => (KeyId { code: 0x6F, extended: true }, "NumPadDiv"),
    }
}

pub open spec fn is_letter(c: char) -> bool {
    'A' <= c <= 'Z' || 'a' <= c <= 'z'
}

/// The names of the table are made of two or more letters, and no two
/// entries share a name or a key.
pub proof fn lemma_named_keys(i: int, j: int)
    requires
        0 <= i < NAMED_KEYS,
        0 <= j < NAMED_KEYS,
    ensures
        named_key(i).1.len() >= 2,
        forall|p: int| 0 <= p < named_key(i).1.len() ==> is_letter(#[trigger] named_key(i).1[p]),
        named_key(i).1 == named_key(j).1 ==> i == j,
        named_key(i).0 == named_key(j).0 ==> i == j,
{
    reveal_strlit("Ctrl");
    reveal_strlit("LCtrl");
    reveal_strlit("RCtrl");
    reveal_strlit("Alt");
    reveal_strlit("LAlt");
    reveal_strlit("RAlt");
    reveal_strlit("Shift");
    reveal_strlit("LShift");
    reveal_strlit("RShift");
    reveal_strlit("Win");
    reveal_strlit("RWin");
    reveal_strlit("Escape");
    reveal_strlit("Enter");
    reveal_strlit("NumPadEnter");
    reveal_strlit("Tab");
    reveal_strlit("Space");
    reveal_strlit("Backspace");
    reveal_strlit("CapsLock");
    reveal_strlit("Insert");
    reveal_strlit("Delete");
    reveal_strlit("Home");
    reveal_strlit("End");
    reveal_strlit("PageUp");
    reveal_strlit("PageDown");
    reveal_strlit("Left");
    reveal_strlit("Up");
    reveal_strlit("Right");
    reveal_strlit("Down");
    reveal_strlit("NumPadMul");
    reveal_strlit("NumPadAdd");
    reveal_strlit("NumPadSub");
    reveal_strlit("NumPadDot");
    reveal_strlit("NumPadDiv");
    let a = named_key(i).1;
    let b = named_key(j).1;
    if a == b {
        assert(a.len() == b.len());
        assert(a[0] == b[0]);
        assert(a[1] == b[1]);
        assert(a.len() > 6 ==> a[6] == b[6]);
        assert(a.len() > 7 ==> a[7] == b[7]);
    }
}

/// The place in the table of the entry for key `k`, if it has one.
pub open spec fn named_index(k: KeyId) -> Option<int> {
    if exists|i: int| 0 <= i < NAMED_KEYS && (#[trigger] named_key(i)).0 == k {
        Some(choose|i: int| 0 <= i < NAMED_KEYS && (#[trigger] named_key(i)).0 == k)
    } else {
        None
    }
}

/// Keys that print as one character: the digit and letter keys, whose code
/// is the code of that character.
pub open spec fn is_char_key(k: KeyId) -> bool {
    !k.extended && (0x30 <= k.code <= 0x39 || 0x41 <= k.code <= 0x5A)
}

/// The word in front of the number, for a key that is named by a number.
pub open spec fn numbered_prefix(k: KeyId) -> Seq<char> {
    if k.extended {
        "Ext"@
    } else if 0x60 <= k.code <= 0x69 {
        "NumPad"@
    } else if 0x70 <= k.code <= 0x87 {
        "F"@
    } else {
        "Vk"@
    }
}

/// The number in the name of a key that is named by a number: the digit of
/// a number-pad key, the number of a function key, and the raw code of a key
/// that has no name.
pub open spec fn numbered_value(k: KeyId) -> nat {
    if k.extended {
        k.code as nat
    } else if 0x60 <= k.code <= 0x69 {
        (k.code - 0x60) as nat
    } else if 0x70 <= k.code <= 0x87 {
        (k.code - 0x6F) as nat
    } else {
        k.code as nat
    }
}

/// The display name of a key. A key of the table has the table's name; a
/// digit or letter key has its character; number-pad digits and function
/// keys are `NumPad0` to `NumPad9` and `F1` to `F24`. Every other key falls
/// back to its raw code in decimal, behind `Vk`, or behind `Ext` where the
/// key is extended.
pub open spec fn key_name(k: KeyId) -> Seq<char> {
    match named_index(k) {
        Some(i) => named_key(i).1,
        None => if is_char_key(k) {
            seq![(k.code as u8) as char]
        } else {
            numbered_prefix(k) + decimal(numbered_value(k))
        },
    }
}

/// Whether `t` begins with `prefix`.
pub open spec fn has_prefix(t: Seq<char>, prefix: Seq<char>) -> bool {
    prefix.len() <= t.len() && t.take(prefix.len() as int) == prefix
}

/// Whether `t` is `prefix` and then a number within `u32`.
spec fn is_numbered(t: Seq<char>, prefix: Seq<char>) -> bool {
    has_prefix(t, prefix) && is_number(t.skip(prefix.len() as int))
}

spec fn number_behind(t: Seq<char>, prefix: Seq<char>) -> nat {
    digits_value(t.skip(prefix.len() as int))
}

/// The place in the table of the entry with the name `t`, if there is one.
spec fn name_index(t: Seq<char>) -> Option<int> {
    if exists|i: int| 0 <= i < NAMED_KEYS && (#[trigger] named_key(i)).1 == t {
        Some(choose|i: int| 0 <= i < NAMED_KEYS && (#[trigger] named_key(i)).1 == t)
    } else {
        None
    }
}

/// The one key that `t` could be the name of, going by the shape of `t`
/// alone.
spec fn candidate(t: Seq<char>) -> Option<KeyId> {
    if name_index(t) is Some {
        Some(named_key(name_index(t)->0).0)
    } else if t.len() == 1 {
        if is_digit(t[0]) || 'A' <= t[0] <= 'Z' {
            Some(KeyId { code: t[0] as u32, extended: false })
        } else {
            None
        }
    } else if is_numbered(t, "NumPad"@) {
        if number_behind(t, "NumPad"@) <= 9 {
            Some(KeyId { code: (0x60 + number_behind(t, "NumPad"@)) as u32, extended: false })
        } else {
            None
        }
    } else if is_numbered(t, "F"@) {
        if 1 <= number_behind(t, "F"@) <= 24 {
            Some(KeyId { code: (0x6F + number_behind(t, "F"@)) as u32, extended: false })
        } else {
            None
        }
    } else if is_numbered(t, "Vk"@) {
        Some(KeyId { code: number_behind(t, "Vk"@) as u32, extended: false })
    } else if is_numbered(t, "Ext"@) {
        Some(KeyId { code: number_behind(t, "Ext"@) as u32, extended: true })
    } else {
        None
    }
}

/// A name that is a word and a number begins with a letter, ends with a
/// digit, is longer than one character, and splits back into its word and
/// number.
proof fn lemma_numbered_name(k: KeyId)
    requires
        named_index(k) is None,
        !is_char_key(k),
    ensures
        key_name(k).len() >= 2,
        is_digit(key_name(k).last()),
        is_letter(key_name(k)[0]),
        is_numbered(key_name(k), numbered_prefix(k)),
        number_behind(key_name(k), numbered_prefix(k)) == numbered_value(k),
{
    reveal_strlit("NumPad");
    reveal_strlit("F");
    reveal_strlit("Vk");
    reveal_strlit("Ext");
    let prefix = numbered_prefix(k);
    let number = decimal(numbered_value(k));
    let name = key_name(k);
    lemma_decimal_is_number(numbered_value(k));
    assert(name == prefix + number);
    assert(name.take(prefix.len() as int) =~= prefix);
    assert(name.skip(prefix.len() as int) =~= number);
    assert(name.last() == number.last());
}

/// Going by its shape, the name of a key can only be the name of that key.
proof fn lemma_candidate_of_name(k: KeyId)
    ensures
        candidate(key_name(k)) == Some(k),
{
    reveal_strlit("NumPad");
    reveal_strlit("F");
    reveal_strlit("Vk");
    reveal_strlit("Ext");
    let name = key_name(k);
    match named_index(k) {
        Some(i) => {
            assert(named_key(i).1 == name);
            assert(name_index(name) is Some);
            lemma_named_keys(i, name_index(name)->0);
        },
        None => {
            assert forall|i: int| 0 <= i < NAMED_KEYS implies (#[trigger] named_key(i)).1
                != name by {
                lemma_named_keys(i, i);
                if is_char_key(k) {
                } else {
                    lemma_numbered_name(k);
                    if named_key(i).1 == name {
                        assert(is_letter(named_key(i).1[name.len() - 1]));
                    }
                }
            }
            assert(name_index(name) is None);
            if is_char_key(k) {
                assert(name[0] as u32 == k.code);
            } else {
                lemma_numbered_name(k);
                lemma_prefixes_differ(name, numbered_prefix(k));
            }
        },
    }
}

/// A text begins with at most one of the four words that stand in front of
/// a number.
proof fn lemma_prefixes_differ(t: Seq<char>, prefix: Seq<char>)
    requires
        has_prefix(t, prefix),
        prefix == "NumPad"@ || prefix == "F"@ || prefix == "Vk"@ || prefix == "Ext"@,
    ensures
        has_prefix(t, "NumPad"@) ==> prefix == "NumPad"@,
        has_prefix(t, "F"@) ==> prefix == "F"@,
        has_prefix(t, "Vk"@) ==> prefix == "Vk"@,
        has_prefix(t, "Ext"@) ==> prefix == "Ext"@,
{
    reveal_strlit("NumPad");
    reveal_strlit("F");
    reveal_strlit("Vk");
    reveal_strlit("Ext");
    assert(t.take(prefix.len() as int)[0] == t[0]);
    assert(prefix[0] == t[0]);
    if has_prefix(t, "NumPad"@) {
        assert(t.take(6)[0] == 'N');
    }
    if has_prefix(t, "F"@) {
        assert(t.take(1)[0] == 'F');
    }
    if has_prefix(t, "Vk"@) {
        assert(t.take(2)[0] == 'V');
    }
    if has_prefix(t, "Ext"@) {
        assert(t.take(3)[0] == 'E');
    }
}

/// No two keys share a name.
pub proof fn lemma_key_name_injective(a: KeyId, b: KeyId)
    requires
        key_name(a) == key_name(b),
    ensures
        a == b,
{
    lemma_candidate_of_name(a);
    lemma_candidate_of_name(b);
}

/// A name is never empty and holds no separator.
pub proof fn lemma_key_name_plain(k: KeyId)
    ensures
        key_name(k).len() >= 1,
        is_plain(key_name(k), SEPARATOR),
{
    let name = key_name(k);
    match named_index(k) {
        Some(i) => {
            lemma_named_keys(i, i);
            assert forall|p: int| 0 <= p < name.len() implies #[trigger] name[p] != SEPARATOR by {
                assert(is_letter(named_key(i).1[p]));
            }
        },
        None => {
            if !is_char_key(k) {
                reveal_strlit("NumPad");
                reveal_strlit("F");
                reveal_strlit("Vk");
                reveal_strlit("Ext");
                let prefix = numbered_prefix(k);
                let number = decimal(numbered_value(k));
                lemma_decimal(numbered_value(k));
                assert forall|p: int| 0 <= p < name.len() implies #[trigger] name[p]
                    != SEPARATOR by {
                    if p >= prefix.len() {
                        assert(name[p] == number[p - prefix.len()]);
                        assert(is_digit(number[p - prefix.len()]));
                    }
                }
            }
        },
    }
}

fn starts_with(t: &Vec<char>, prefix: &str) -> (b: bool)
    ensures
        b == has_prefix(t@, prefix@),
{
    let n: usize = prefix.unicode_len();
    if n > t.len() {
        return false;
    }
    let mut i: usize = 0;
    while i < n
        invariant
            i <= n,
            n == prefix@.len(),
            n <= t.len(),
            t@.take(i as int) == prefix@.take(i as int),
        decreases n - i,
    {
        if t[i] != prefix.get_char(i) {
            proof {
                if t@.take(n as int) == prefix@ {
                    assert(t@.take(n as int)[i as int] == prefix@[i as int]);
                }
            }
            return false;
        }
        proof {
            assert(t@.take(i + 1) =~= t@.take(i as int).push(t@[i as int]));
            assert(prefix@.take(i + 1) =~= prefix@.take(i as int).push(prefix@[i as int]));
        }
        i = i + 1;
    }
    proof {
        assert(prefix@.take(n as int) =~= prefix@);
    }
    true
}

fn same_chars(a: &Vec<char>, b: &Vec<char>) -> (same: bool)
    ensures
        same == (a@ == b@),
{
    if a.len() != b.len() {
        return false;
    }
    let mut i: usize = 0;
    while i < a.len()
        invariant
            i <= a.len(),
            a.len() == b.len(),
            forall|p: int| 0 <= p < i ==> a@[p] == b@[p],
        decreases a.len() - i,
    {
        if a[i] != b[i] {
            return false;
        }
        i = i + 1;
    }
    proof {
        assert(a@ =~= b@);
    }
    true
}

/// The characters of the display name of `k`.
pub fn key_chars(k: KeyId) -> (v: Vec<char>)
    ensures
        v@ == key_name(k),
{
    let mut i: usize = 0;
    while i < NAMED_KEYS
        invariant
            i <= NAMED_KEYS,
            forall|j: int| 0 <= j < i ==> (#[trigger] named_key(j)).0 != k,
        decreases NAMED_KEYS - i,
    {
        let entry = named_entry(i);
        if entry.0.code == k.code && entry.0.extended == k.extended {
            proof {
                assert(named_key(i as int).0 == k);
                lemma_named_keys(i as int, named_index(k)->0);
            }
            return chars_of(entry.1);
        }
        i = i + 1;
    }
    assert(named_index(k) is None);
    let mut v: Vec<char> = Vec::new();
    if !k.extended && (0x30 <= k.code && k.code <= 0x39 || 0x41 <= k.code && k.code <= 0x5A) {
        v.push((k.code as u8) as char);
        proof {
            assert(v@ =~= key_name(k));
        }
        return v;
    }
    if k.extended {
        v = chars_of("Ext");
        push_decimal(&mut v, k.code);
    } else if 0x60 <= k.code && k.code <= 0x69 {
        v = chars_of("NumPad");
        push_decimal(&mut v, k.code - 0x60);
    } else if 0x70 <= k.code && k.code <= 0x87 {
        v = chars_of("F");
        push_decimal(&mut v, k.code - 0x6F);
    } else {
        v = chars_of("Vk");
        push_decimal(&mut v, k.code);
    }
    v
}

/// Reads the number behind `prefix`, where `t` is that word and a number.
fn numbered(t: &Vec<char>, prefix: &str) -> (r: Option<u32>)
    ensures
        r == if is_numbered(t@, prefix@) {
            Some(number_behind(t@, prefix@) as u32)
        } else {
            None
        },
{
    if starts_with(t, prefix) {
        read_number(t, prefix.unicode_len())
    } else {
        None
    }
}

fn find_candidate(t: &Vec<char>) -> (r: Option<KeyId>)
    ensures
        r == candidate(t@),
{
    let mut i: usize = 0;
    while i < NAMED_KEYS
        invariant
            i <= NAMED_KEYS,
            forall|j: int| 0 <= j < i ==> (#[trigger] named_key(j)).1 != t@,
        decreases NAMED_KEYS - i,
    {
        let entry = named_entry(i);
        let word: Vec<char> = chars_of(entry.1);
        if same_chars(t, &word) {
            proof {
                assert(named_key(i as int).1 == t@);
                lemma_named_keys(i as int, name_index(t@)->0);
            }
            return Some(entry.0);
        }
        i = i + 1;
    }
    assert(name_index(t@) is None);
    if t.len() == 1 {
        let c: char = t[0];
        if ('0' <= c && c <= '9') || ('A' <= c && c <= 'Z') {
            return Some(KeyId { code: c as u32, extended: false });
        }
        return None;
    }
    match numbered(t, "NumPad") {
        Some(n) => {
            return if n <= 9 {
                Some(KeyId { code: 0x60 + n, extended: false })
            } else {
                None
            };
        },
        None => {},
    }
    match numbered(t, "F") {
        Some(n) => {
            return if 1 <= n && n <= 24 {
                Some(KeyId { code: 0x6F + n, extended: false })
            } else {
                None
            };
        },
        None => {},
    }
    match numbered(t, "Vk") {
        Some(n) => {
            return Some(KeyId { code: n, extended: false });
        },
        None => {},
    }
    match numbered(t, "Ext") {
        Some(n) => Some(KeyId { code: n, extended: true }),
        None => None,
    }
}

/// The key whose display name is `t`, if there is one. Only the exact name
/// is read: `F01` or `ctrl` name no key.
pub fn parse_key(t: &Vec<char>) -> (r: Option<KeyId>)
    ensures
        match r {
            Some(k) => key_name(k) == t@,
            None => forall|k: KeyId| key_name(k) != t@,
        },
{
    proof {
        assert forall|k: KeyId| key_name(k) == t@ implies candidate(t@) == Some(k) by {
            lemma_candidate_of_name(k);
        }
    }
    match find_candidate(t) {
        Some(k) => {
            let name: Vec<char> = key_chars(k);
            if same_chars(&name, t) {
                Some(k)
            } else {
                None
            }
        },
        None => None,
    }
}

impl KeyId {
    /// The display name of the key.
    pub fn name(&self) -> (s: String)
        ensures
            s@ == key_name(*self),
    {
        let v: Vec<char> = key_chars(*self);
        string_of(&v)
    }

    /// The key with the display name `text`, if there is one.
    pub fn parse(text: &str) -> (r: Option<KeyId>)
        ensures
            match r {
                Some(k) => key_name(k) == text@,
                None => forall|k: KeyId| key_name(k) != text@,
            },
    {
        let t: Vec<char> = chars_of(text);
        parse_key(&t)
    }
}

} // verus!
