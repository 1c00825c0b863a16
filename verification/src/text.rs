//! Character sequences: decimal numerals, and joining and splitting at a
//! separating character.

use vstd::prelude::*;

verus! {

/// The character that separates key names in the text of a chord.
pub const SEPARATOR: char = '+';

pub open spec fn is_digit(c: char) -> bool {
    '0' <= c <= '9'
}

/// The digit character of `d`, for `d` below ten.
pub open spec fn digit_char(d: nat) -> char {
    ((d + 48) as u8) as char
}

/// The canonical decimal numeral of `n`: no sign, no leading zero.
pub open spec fn decimal(n: nat) -> Seq<char>
    decreases n,
{
    if n < 10 {
        seq![digit_char(n)]
    } else {
        decimal(n / 10).push(digit_char(n % 10))
    }
}

/// Ten to the power `k`.
pub open spec fn pow10(k: nat) -> nat
    decreases k,
{
    if k == 0 {
        1
    } else {
        10 * pow10((k - 1) as nat)
    }
}

/// The number that a run of digit characters denotes, leading zeros allowed.
pub open spec fn digits_value(s: Seq<char>) -> nat
    decreases s.len(),
{
    if s.len() == 0 {
        0
    } else {
        10 * digits_value(s.drop_last()) + (s.last() as nat - 48) as nat
    }
}

pub open spec fn all_digits(s: Seq<char>) -> bool {
    forall|i: int| 0 <= i < s.len() ==> is_digit(#[trigger] s[i])
}

/// A numeral is never empty, holds digits only, denotes its number, and has
/// at most `k` characters when the number is below ten to the `k`.
pub proof fn lemma_decimal(n: nat)
    ensures
        decimal(n).len() >= 1,
        all_digits(decimal(n)),
        digits_value(decimal(n)) == n,
        forall|k: nat| k >= 1 && n < pow10(k) ==> decimal(n).len() <= k,
    decreases n,
{
    if n < 10 {
        assert(decimal(n).drop_last().len() == 0);
        assert(digits_value(decimal(n).drop_last()) == 0);
        assert forall|k: nat| k >= 1 && n < pow10(k) implies decimal(n).len() <= k by {}
    } else {
        lemma_decimal(n / 10);
        let d = decimal(n);
        assert(d.drop_last() =~= decimal(n / 10));
        assert(d.last() == digit_char(n % 10));
        assert forall|i: int| 0 <= i < d.len() implies is_digit(#[trigger] d[i]) by {
            if i < d.len() - 1 {
                assert(d[i] == decimal(n / 10)[i]);
            }
        }
        assert forall|k: nat| k >= 1 && n < pow10(k) implies d.len() <= k by {
            assert(pow10(1) == 10) by {
                assert(pow10(0) == 1);
            }
            assert(k >= 2);
            assert(n / 10 < pow10((k - 1) as nat));
        }
    }
}

/// Appends the numeral of `n` to `out`.
pub fn push_decimal(out: &mut Vec<char>, n: u32)
    ensures
        final(out)@ == old(out)@ + decimal(n as nat),
    decreases n,
{
    if n >= 10 {
        push_decimal(out, n / 10);
    }
    let d: u8 = (n % 10) as u8;
    out.push((d + 48) as char);
    proof {
        assert(final(out)@ =~= old(out)@ + decimal(n as nat));
    }
}

/// Whether `s` reads as a number within `u32`: one to ten digits, leading
/// zeros allowed.
pub open spec fn is_number(s: Seq<char>) -> bool {
    &&& 1 <= s.len() <= 10
    &&& all_digits(s)
    &&& digits_value(s) <= u32::MAX
}

/// The numeral of a number within `u32` reads as that number.
pub proof fn lemma_decimal_is_number(n: nat)
    requires
        n <= u32::MAX,
    ensures
        is_number(decimal(n)),
        digits_value(decimal(n)) == n,
{
    lemma_decimal(n);
    lemma_pow10_values();
}

/// Reads the characters of `s` from `start` on as a number. There is none
/// where `start` lies behind the end of `s`.
pub fn read_number(s: &Vec<char>, start: usize) -> (r: Option<u32>)
    ensures
        r == if start <= s.len() && is_number(s@.skip(start as int)) {
            Some(digits_value(s@.skip(start as int)) as u32)
        } else {
            None
        },
{
    if start > s.len() {
        return None;
    }
    let ghost rest: Seq<char> = s@.skip(start as int);
    let len: usize = s.len() - start;
    if len == 0 || len > 10 {
        return None;
    }
    let mut acc: u64 = 0;
    let mut i: usize = 0;
    while i < len
        invariant
            i <= len,
            len == s.len() - start,
            len <= 10,
            rest == s@.skip(start as int),
            all_digits(rest.take(i as int)),
            acc == digits_value(rest.take(i as int)),
            acc < pow10(i as nat),
        decreases len - i,
    {
        let c: char = s[start + i];
        assert(c == rest[i as int]);
        if c < '0' || c > '9' {
            return None;
        }
        proof {
            lemma_pow10_values();
            let next = rest.take(i + 1);
            assert(next.drop_last() =~= rest.take(i as int));
            assert(next.last() == c);
        }
        acc = acc * 10 + (c as u64 - 48);
        i = i + 1;
    }
    proof {
        assert(rest.take(len as int) =~= rest);
    }
    if acc > 0xFFFF_FFFF {
        None
    } else {
        Some(acc as u32)
    }
}

/// The powers of ten up to the tenth.
pub proof fn lemma_pow10_values()
    ensures
        pow10(0) == 1,
        pow10(1) == 10,
        pow10(2) == 100,
        pow10(3) == 1_000,
        pow10(4) == 10_000,
        pow10(5) == 100_000,
        pow10(6) == 1_000_000,
        pow10(7) == 10_000_000,
        pow10(8) == 100_000_000,
        pow10(9) == 1_000_000_000,
        pow10(10) == 10_000_000_000,
{
    reveal_with_fuel(pow10, 11);
}

/// Whether `s` holds no `mark`: the character that separates.
pub open spec fn is_plain(s: Seq<char>, mark: char) -> bool {
    forall|i: int| 0 <= i < s.len() ==> #[trigger] s[i] != mark
}

/// The parts in order, with one `mark` between neighbours.
pub open spec fn join(parts: Seq<Seq<char>>, mark: char) -> Seq<char>
    decreases parts.len(),
{
    if parts.len() == 0 {
        Seq::empty()
    } else if parts.len() == 1 {
        parts[0]
    } else {
        join(parts.drop_last(), mark) + seq![mark] + parts.last()
    }
}

/// The pieces of `s` between its marks, empty pieces included. A text
/// without a mark is one piece.
pub open spec fn split(s: Seq<char>, mark: char) -> Seq<Seq<char>>
    decreases s.len(),
{
    if s.len() == 0 {
        seq![Seq::empty()]
    } else {
        let before = split(s.drop_last(), mark);
        if s.last() == mark {
            before.push(Seq::empty())
        } else {
            before.drop_last().push(before.last().push(s.last()))
        }
    }
}

/// Splitting gives at least one piece, and no piece holds the mark.
pub proof fn lemma_split_pieces(s: Seq<char>, mark: char)
    ensures
        split(s, mark).len() >= 1,
        forall|i: int| 0 <= i < split(s, mark).len() ==> is_plain(#[trigger] split(s, mark)[i], mark),
    decreases s.len(),
{
    if s.len() > 0 {
        lemma_split_pieces(s.drop_last(), mark);
        let before = split(s.drop_last(), mark);
        assert forall|i: int| 0 <= i < split(s, mark).len() implies is_plain(#[trigger] split(s, mark)[i], mark) by {
            if i < before.len() - 1 {
                assert(split(s, mark)[i] == before[i]);
            } else if s.last() != mark && i == before.len() - 1 {
                assert(is_plain(before[before.len() - 1], mark));
            }
        }
    }
}

/// Joining the pieces of a text gives the text back.
pub proof fn lemma_join_split(s: Seq<char>, mark: char)
    ensures
        join(split(s, mark), mark) == s,
    decreases s.len(),
{
    if s.len() == 0 {
        assert(join(split(s, mark), mark) =~= s);
    } else {
        let head = s.drop_last();
        let before = split(head, mark);
        lemma_split_pieces(head, mark);
        lemma_join_split(head, mark);
        if s.last() == mark {
            let parts = before.push(Seq::empty());
            assert(parts.drop_last() =~= before);
            assert(join(parts, mark) =~= s);
        } else {
            let grown = before.last().push(s.last());
            let parts = before.drop_last().push(grown);
            assert(parts.drop_last() =~= before.drop_last());
            if before.len() == 1 {
                assert(join(parts, mark) =~= s);
            } else {
                assert(join(before, mark) == join(before.drop_last(), mark) + seq![mark] + before.last());
                assert(parts.last() == grown);
                assert(join(parts, mark) == join(parts.drop_last(), mark) + seq![mark] + grown);
                assert(s =~= head.push(s.last()));
                assert(join(parts, mark) =~= s);
            }
        }
    }
}

/// A piece without the mark, put behind a text and a mark, is the
/// last piece of the whole; alone it is the only piece.
pub proof fn lemma_split_append(s: Seq<char>, piece: Seq<char>, mark: char)
    requires
        is_plain(piece, mark),
    ensures
        split(s + seq![mark] + piece, mark) == split(s, mark).push(piece),
        split(piece, mark) == seq![piece],
    decreases piece.len(),
{
    let whole = s + seq![mark] + piece;
    if piece.len() == 0 {
        assert(whole.drop_last() =~= s);
        assert(piece =~= Seq::empty());
    } else {
        let shorter = piece.drop_last();
        assert(is_plain(shorter, mark)) by {
            assert forall|i: int| 0 <= i < shorter.len() implies #[trigger] shorter[i]
                != mark by {
                assert(shorter[i] == piece[i]);
            }
        }
        lemma_split_append(s, shorter, mark);
        assert(piece.last() == piece[piece.len() - 1]);
        assert(whole.drop_last() =~= s + seq![mark] + shorter);
        assert(whole.last() == piece.last());
        assert(split(s, mark).push(shorter).drop_last() =~= split(s, mark));
        assert(shorter.push(piece.last()) =~= piece);
        assert(seq![shorter].drop_last().push(piece) =~= seq![piece]);
    }
}

/// Splitting a join of pieces that hold no mark gives the pieces back.
pub proof fn lemma_split_join(parts: Seq<Seq<char>>, mark: char)
    requires
        parts.len() >= 1,
        forall|i: int| 0 <= i < parts.len() ==> is_plain(#[trigger] parts[i], mark),
    ensures
        split(join(parts, mark), mark) == parts,
    decreases parts.len(),
{
    if parts.len() == 1 {
        lemma_split_append(Seq::empty(), parts[0], mark);
        assert(seq![parts[0]] =~= parts);
    } else {
        let init = parts.drop_last();
        assert forall|i: int| 0 <= i < init.len() implies is_plain(#[trigger] init[i], mark) by {
            assert(init[i] == parts[i]);
        }
        lemma_split_join(init, mark);
        lemma_split_append(join(init, mark), parts.last(), mark);
        assert(init.push(parts.last()) =~= parts);
    }
}

/// The characters of each piece of `parts`.
pub open spec fn pieces_view(parts: Seq<Vec<char>>) -> Seq<Seq<char>> {
    Seq::new(parts.len(), |i: int| parts[i]@)
}

/// Cuts `s` at each `mark`.
pub fn split_text(s: &Vec<char>, mark: char) -> (parts: Vec<Vec<char>>)
    ensures
        pieces_view(parts@) == split(s@, mark),
{
    let mut parts: Vec<Vec<char>> = Vec::new();
    let mut piece: Vec<char> = Vec::new();
    let mut i: usize = 0;
    proof {
        assert(s@.take(0) =~= Seq::empty());
        assert(pieces_view(parts@).push(piece@) =~= split(s@.take(0), mark));
    }
    while i < s.len()
        invariant
            i <= s.len(),
            pieces_view(parts@).push(piece@) == split(s@.take(i as int), mark),
        decreases s.len() - i,
    {
        let c: char = s[i];
        let ghost head = s@.take(i as int);
        let ghost next = s@.take(i + 1);
        let ghost before = pieces_view(parts@).push(piece@);
        proof {
            assert(next.drop_last() =~= head);
            assert(next.last() == c);
        }
        if c == mark {
            parts.push(piece);
            piece = Vec::new();
            proof {
                assert(pieces_view(parts@) =~= before);
                assert(pieces_view(parts@).push(piece@) =~= before.push(Seq::empty()));
            }
        } else {
            piece.push(c);
            proof {
                assert(before.drop_last() =~= pieces_view(parts@));
                assert(before.last().push(c) == piece@);
            }
        }
        i = i + 1;
    }
    parts.push(piece);
    proof {
        assert(s@.take(s.len() as int) =~= s@);
        assert(pieces_view(parts@) =~= split(s@, mark));
    }
    parts
}

/// The characters of `s`, one by one.
pub fn chars_of(s: &str) -> (v: Vec<char>)
    ensures
        v@ == s@,
{
    let n: usize = s.unicode_len();
    let mut v: Vec<char> = Vec::new();
    let mut i: usize = 0;
    while i < n
        invariant
            i <= n,
            n == s@.len(),
            v@ == s@.take(i as int),
        decreases n - i,
    {
        v.push(s.get_char(i));
        proof {
            assert(v@ =~= s@.take(i + 1));
        }
        i = i + 1;
    }
    proof {
        assert(s@.take(n as int) =~= s@);
    }
    v
}

/// `String::push` appends the given character at the end of the string and
/// leaves what was there in place.
pub assume_specification[ String::push ](s: &mut String, c: char)
    ensures
        final(s)@ == old(s)@.push(c),
;

/// The string that holds the characters of `v`.
pub fn string_of(v: &Vec<char>) -> (s: String)
    ensures
        s@ == v@,
{
    let mut s: String = String::new();
    let mut i: usize = 0;
    while i < v.len()
        invariant
            i <= v.len(),
            s@ == v@.take(i as int),
        decreases v.len() - i,
    {
        s.push(v[i]);
        proof {
            assert(s@ =~= v@.take(i + 1));
        }
        i = i + 1;
    }
    proof {
        assert(v@.take(v.len() as int) =~= v@);
    }
    s
}

} // verus!

