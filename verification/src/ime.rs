//! Feedback for the candidates of an input method: which candidate to
//! speak, and the table of words with their explanations.

use crate::debounce::{stamps_after, suppresses, DebounceGuard};
use crate::table::Table;
use crate::text::{chars_of, pieces_view, split, split_text, string_of};
use vstd::prelude::*;

verus! {

/// How long a candidate that was spoken is not spoken again, in
/// milliseconds.
pub const REPEAT_WINDOW: u64 = 100;

/// Whether `c` is white space, as Unicode defines it.
pub uninterp spec fn is_white_space(c: char) -> bool;

/// `char::is_whitespace` says whether the character has the Unicode
/// property White_Space. The answer depends on the character alone.
pub assume_specification[ char::is_whitespace ](c: char) -> (white: bool)
    ensures
        white == is_white_space(c),
;

/// The text without the white space at its end.
pub open spec fn trimmed_end(s: Seq<char>) -> Seq<char>
    decreases s.len(),
{
    if s.len() > 0 && is_white_space(s.last()) {
        trimmed_end(s.drop_last())
    } else {
        s
    }
}

/// Takes the white space from the end of `text`.
pub fn trim_end(text: &str) -> (trimmed: String)
    ensures
        trimmed@ == trimmed_end(text@),
{
    let mut chars: Vec<char> = chars_of(text);
    while chars.len() > 0 && chars[chars.len() - 1].is_whitespace()
        invariant
            trimmed_end(chars@) == trimmed_end(text@),
        decreases chars.len(),
    {
        let ghost before = chars@;
        chars.pop();
        proof {
            assert(chars@ =~= before.drop_last());
        }
    }
    string_of(&chars)
}

/// The candidates that an input method offers, and which of them is
/// selected.
#[derive(Debug)]
pub struct CandidateList {
    pub selection: u32,
    pub page_start: u32,
    pub list: Vec<String>,
}

impl CandidateList {
    /// The selected candidate without the white space at its end.
    pub open spec fn selected(&self) -> Seq<char>
        recommends
            self.selection < self.list@.len(),
    {
        trimmed_end(self.list@[self.selection as int]@)
    }

    /// Whether the selection points at a candidate of the list.
    pub fn is_valid(&self) -> (valid: bool)
        ensures
            valid == (self.selection < self.list@.len()),
    {
        (self.selection as usize) < self.list.len()
    }

    /// The candidate to speak now, at the time `now`, if any. An empty
    /// candidate is not spoken, and neither is one that comes again within
    /// the repeat window of the time it was last spoken. A candidate that
    /// is to be spoken is stamped `now`.
    pub fn to_speak(&self, guard: &mut DebounceGuard, now: u64) -> (r: Option<String>)
        requires
            self.selection < self.list@.len(),
        ensures
            match r {
                Some(candidate) => candidate@ == self.selected() && self.selected().len() > 0
                    && !suppresses(old(guard)@, self.selected(), now, REPEAT_WINDOW),
                None => self.selected().len() == 0 || suppresses(
                    old(guard)@,
                    self.selected(),
                    now,
                    REPEAT_WINDOW,
                ),
            },
            final(guard)@ == if self.selected().len() == 0 {
                old(guard)@
            } else {
                stamps_after(old(guard)@, self.selected(), now, REPEAT_WINDOW)
            },
    {
        let candidate: String = trim_end(self.list[self.selection as usize].as_str());
        if candidate.as_str().unicode_len() == 0 {
            return None;
        }
        if guard.should_suppress_at(candidate.as_str(), now, REPEAT_WINDOW) {
            return None;
        }
        Some(candidate)
    }
}

/// The line without the carriage return at its end, if it has one.
pub open spec fn without_return(line: Seq<char>) -> Seq<char> {
    if line.len() > 0 && line.last() == '\r' {
        line.drop_last()
    } else {
        line
    }
}

/// The lines of a text. A line ends with a line feed; a carriage return
/// just before the line feed belongs to the line ending. What stands behind
/// the last line feed is a line too, unless it is empty.
pub open spec fn lines(text: Seq<char>) -> Seq<Seq<char>> {
    let pieces = split(text, '\n');
    let ended = Seq::new((pieces.len() - 1) as nat, |i: int| without_return(pieces[i]));
    if pieces.last().len() == 0 {
        ended
    } else {
        ended.push(pieces.last())
    }
}

/// The word and the explanation of a line `word=explanation`: what stands
/// before the first `=`, and what stands between it and the next `=` or the
/// end of the line. A line without `=` has none.
pub open spec fn word_entry(line: Seq<char>) -> Option<(Seq<char>, Seq<char>)> {
    let fields = split(line, '=');
    if fields.len() >= 2 {
        Some((fields[0], fields[1]))
    } else {
        None
    }
}

/// The words of the lines with their explanations, where every line holds
/// a word. A word that comes again takes the later explanation.
pub open spec fn words_of(lines: Seq<Seq<char>>) -> Option<Map<Seq<char>, Seq<char>>>
    decreases lines.len(),
{
    if lines.len() == 0 {
        Some(Map::empty())
    } else {
        match (words_of(lines.drop_last()), word_entry(lines.last())) {
            (Some(words), Some(entry)) => Some(words.insert(entry.0, entry.1)),
            _ => None,
        }
    }
}

/// The texts of the values of a table of strings.
pub open spec fn texts_of(words: Map<Seq<char>, String>) -> Map<Seq<char>, Seq<char>> {
    words.map_values(|explanation: String| explanation@)
}

/// Lines that begin with lines without words are without words.
proof fn lemma_words_none(lines: Seq<Seq<char>>, n: int)
    requires
        0 <= n <= lines.len(),
        words_of(lines.take(n)) is None,
    ensures
        words_of(lines) is None,
    decreases lines.len() - n,
{
    if n < lines.len() {
        assert(lines.take(n + 1).drop_last() =~= lines.take(n));
        lemma_words_none(lines, n + 1);
    } else {
        assert(lines.take(n) =~= lines);
    }
}

/// The first `n` characters of `v`.
fn prefix_of(v: &Vec<char>, n: usize) -> (prefix: Vec<char>)
    requires
        n <= v.len(),
    ensures
        prefix@ == v@.take(n as int),
{
    let mut prefix: Vec<char> = Vec::new();
    let mut i: usize = 0;
    while i < n
        invariant
            i <= n,
            n <= v.len(),
            prefix@ == v@.take(i as int),
        decreases n - i,
    {
        prefix.push(v[i]);
        proof {
            assert(prefix@ =~= v@.take(i + 1));
        }
        i = i + 1;
    }
    prefix
}

/// Reads one line of the table of words.
pub fn parse_word_line(line: &Vec<char>) -> (r: Option<(String, String)>)
    ensures
        match r {
            Some(entry) => word_entry(line@) == Some((entry.0@, entry.1@)),
            None => word_entry(line@) is None,
        },
{
    let fields: Vec<Vec<char>> = split_text(line, '=');
    if fields.len() < 2 {
        return None;
    }
    proof {
        assert(pieces_view(fields@)[0] == fields@[0]@);
        assert(pieces_view(fields@)[1] == fields@[1]@);
    }
    Some((string_of(&fields[0]), string_of(&fields[1])))
}

/// Reads the table of words: one `word=explanation` on each line. `None`
/// where a line holds no `=`.
pub fn parse_words(text: &str) -> (r: Option<Table<String>>)
    ensures
        match r {
            Some(words) => words.wf() && words_of(lines(text@)) == Some(texts_of(words.map())),
            None => words_of(lines(text@)) is None,
        },
{
    let chars: Vec<char> = chars_of(text);
    let pieces: Vec<Vec<char>> = split_text(&chars, '\n');
    proof {
        crate::text::lemma_split_pieces(text@, '\n');
    }
    let ghost all = lines(text@);
    let ghost raw = split(text@, '\n');
    let count: usize = pieces.len();
    let mut words: Table<String> = Table::new();
    let mut i: usize = 0;
    proof {
        assert(all.take(0) =~= Seq::<Seq<char>>::empty());
        assert(texts_of(words.map()) =~= Map::<Seq<char>, Seq<char>>::empty());
    }
    while i < count
        invariant
            i <= count,
            count == pieces.len(),
            count >= 1,
            pieces_view(pieces@) == raw,
            raw == split(text@, '\n'),
            all == lines(text@),
            words.wf(),
            i <= all.len(),
            i < count ==> words_of(all.take(i as int)) == Some(texts_of(words.map())),
            i == count ==> words_of(all) == Some(texts_of(words.map())),
        decreases count - i,
    {
        proof {
            assert(pieces_view(pieces@)[i as int] == pieces@[i as int]@);
        }
        let piece: &Vec<char> = &pieces[i];
        let mut keep: usize = piece.len();
        if i + 1 < count {
            if keep > 0 && piece[keep - 1] == '\r' {
                keep = keep - 1;
            }
            proof {
                assert(piece@.take(keep as int) =~= without_return(raw[i as int]));
            }
        } else if keep == 0 {
            proof {
                assert(all.len() == count - 1);
                assert(all.take(i as int) =~= all);
            }
            return Some(words);
        } else {
            proof {
                assert(all.len() == count);
                assert(piece@.take(keep as int) =~= raw[i as int]);
            }
        }
        let line: Vec<char> = prefix_of(piece, keep);
        proof {
            assert(all[i as int] == line@);
        }
        proof {
            assert(all.take(i + 1).drop_last() =~= all.take(i as int));
            assert(all.take(i + 1).last() == line@);
        }
        match parse_word_line(&line) {
            Some(entry) => {
                let ghost before = words.map();
                words.insert(entry.0.as_str(), entry.1);
                proof {
                    assert(texts_of(words.map()) =~= texts_of(before).insert(entry.0@, entry.1@));
                }
            },
            None => {
                proof {
                    lemma_words_none(all, i + 1);
                }
                return None;
            },
        }
        proof {
            if i + 1 == count {
                assert(all.take(i + 1) =~= all);
            }
        }
        i = i + 1;
    }
    Some(words)
}

/// The explanation to speak behind a candidate: that of the candidate in
/// the table of words, if the candidate was spoken to its end.
pub fn explanation<'a>(words: &'a Table<String>, candidate: &str, spoken: bool) -> (r: Option<
    &'a String,
>)
    ensures
        match r {
            Some(text) => spoken && words.map().contains_key(candidate@) && *text
                == words.map()[candidate@],
            None => !spoken || !words.map().contains_key(candidate@),
        },
{
    if spoken {
        words.get(candidate)
    } else {
        None
    }
}

/// How many bytes the head of a candidate buffer takes: six numbers.
pub const HEADER_SIZE: usize = 24;

/// The number of four bytes at `at`, lowest byte first.
pub open spec fn number_at(bytes: Seq<u8>, at: int) -> int {
    bytes[at] + 0x100 * bytes[at + 1] + 0x1_0000 * bytes[at + 2] + 0x100_0000 * bytes[at + 3]
}

/// The unit of two bytes at `at`, lower byte first.
pub open spec fn unit_at(bytes: Seq<u8>, at: int) -> int {
    bytes[at] + 0x100 * bytes[at + 1]
}

/// The units of the text that begins at `at`: all up to the first unit that
/// is zero, or up to where the bytes end.
pub open spec fn units_from(bytes: Seq<u8>, at: int) -> Seq<u16>
    decreases bytes.len() - at,
{
    if at < 0 || at + 2 > bytes.len() || unit_at(bytes, at) == 0 {
        Seq::empty()
    } else {
        seq![unit_at(bytes, at) as u16] + units_from(bytes, at + 2)
    }
}

/// Whether `bytes` hold the head of a candidate buffer and the place of
/// every candidate that the head counts.
pub open spec fn is_candidate_buffer(bytes: Seq<u8>) -> bool {
    bytes.len() >= HEADER_SIZE && HEADER_SIZE + 4 * number_at(bytes, 8) <= bytes.len()
}

/// The candidates of a buffer, each as the units of its text. The head
/// counts them; behind the head stands, for each, the place of its text in
/// the buffer.
pub open spec fn candidate_units(bytes: Seq<u8>) -> Seq<Seq<u16>> {
    Seq::new(
        number_at(bytes, 8) as nat,
        |i: int| units_from(bytes, number_at(bytes, HEADER_SIZE + 4 * i)),
    )
}

/// The head of a candidate buffer.
#[derive(Clone, Copy, Debug, PartialEq, Eq, Structural)]
pub struct CandidateHeader {
    pub size: u32,
    pub style: u32,
    pub count: u32,
    pub selection: u32,
    pub page_start: u32,
    pub page_size: u32,
}

fn read_number_at(bytes: &Vec<u8>, at: usize) -> (n: u32)
    requires
        at + 4 <= bytes.len(),
    ensures
        n == number_at(bytes@, at as int),
{
    let low: u32 = bytes[at] as u32 + 0x100 * (bytes[at + 1] as u32);
    let high: u32 = bytes[at + 2] as u32 + 0x100 * (bytes[at + 3] as u32);
    low + 0x1_0000 * high
}

fn read_units(bytes: &Vec<u8>, at: usize) -> (units: Vec<u16>)
    ensures
        units@ == units_from(bytes@, at as int),
{
    let mut units: Vec<u16> = Vec::new();
    let mut here: usize = at;
    loop
        invariant
            at <= here,
            units@ + units_from(bytes@, here as int) == units_from(bytes@, at as int),
        decreases bytes.len() - here,
    {
        if here > bytes.len() || bytes.len() - here < 2 {
            proof {
                assert(units_from(bytes@, here as int) =~= Seq::<u16>::empty());
                assert(units@ + Seq::<u16>::empty() =~= units@);
            }
            return units;
        }
        let unit: u16 = bytes[here] as u16 + 0x100 * (bytes[here + 1] as u16);
        if unit == 0 {
            proof {
                assert(units_from(bytes@, here as int) =~= Seq::<u16>::empty());
                assert(units@ + Seq::<u16>::empty() =~= units@);
            }
            return units;
        }
        let ghost before = units@;
        units.push(unit);
        proof {
            assert(units_from(bytes@, here as int) == seq![unit] + units_from(
                bytes@,
                here + 2,
            ));
            assert(units@ + units_from(bytes@, here + 2) =~= before + units_from(
                bytes@,
                here as int,
            ));
        }
        here = here + 2;
    }
}

/// Reads a candidate buffer: its head, and its candidates as units of
/// UTF-16. `None` where the bytes are too few for the head or for the places
/// of the candidates.
pub fn read_candidates(bytes: &Vec<u8>) -> (r: Option<(CandidateHeader, Vec<Vec<u16>>)>)
    ensures
        match r {
            Some((head, texts)) => {
                &&& is_candidate_buffer(bytes@)
                &&& head.size == number_at(bytes@, 0)
                &&& head.style == number_at(bytes@, 4)
                &&& head.count == number_at(bytes@, 8)
                &&& head.selection == number_at(bytes@, 12)
                &&& head.page_start == number_at(bytes@, 16)
                &&& head.page_size == number_at(bytes@, 20)
                &&& texts@.len() == head.count
                &&& forall|i: int|
                    0 <= i < texts@.len() ==> (#[trigger] texts@[i])@ == candidate_units(bytes@)[i]
            },
            None => !is_candidate_buffer(bytes@),
        },
{
    if bytes.len() < HEADER_SIZE {
        return None;
    }
    let head = CandidateHeader {
        size: read_number_at(bytes, 0),
        style: read_number_at(bytes, 4),
        count: read_number_at(bytes, 8),
        selection: read_number_at(bytes, 12),
        page_start: read_number_at(bytes, 16),
        page_size: read_number_at(bytes, 20),
    };
    let room: usize = (bytes.len() - HEADER_SIZE) / 4;
    if head.count as u64 > room as u64 {
        return None;
    }
    let count: usize = head.count as usize;
    let mut texts: Vec<Vec<u16>> = Vec::new();
    let mut i: usize = 0;
    while i < count
        invariant
            i <= count,
            count == number_at(bytes@, 8),
            HEADER_SIZE + 4 * count <= bytes.len(),
            texts@.len() == i,
            forall|j: int|
                0 <= j < i ==> (#[trigger] texts@[j])@ == candidate_units(bytes@)[j],
        decreases count - i,
    {
        let place: u32 = read_number_at(bytes, HEADER_SIZE + 4 * i);
        if place as u64 > bytes.len() as u64 {
            proof {
                assert(units_from(bytes@, place as int) =~= Seq::<u16>::empty());
            }
            texts.push(Vec::new());
        } else {
            texts.push(read_units(bytes, place as usize));
        }
        i = i + 1;
    }
    Some((head, texts))
}

} // verus!
