//! Which texts the line-oriented parser of the `robotstxt` crate can take.
//!
//! The parser walks the characters of a text and keeps two byte offsets into
//! it, the start and the end of the line that it is reading. It reads the
//! characters of a line that begin within its first [`LINE_LIMIT`] bytes and
//! passes over the rest. What it passes over it counts in characters, and at
//! the end of the line it moves on by as many bytes. Where a character that
//! it passed over is longer than one byte, its offsets fall behind the text
//! from there on. It cuts every line out of the text by its two offsets, and
//! that fails where one of them lies inside a character. It numbers the
//! lines in 32 bits.
//!
//! [`ParserState`] follows the parser's variables step by step, and
//! [`parser_accepts`] holds of the texts on which every cut succeeds.

use vstd::prelude::*;

verus! {

/// The number of bytes of a line within which a character must begin for the
/// parser to read it.
pub const LINE_LIMIT: u64 = 16663;

/// The number of bytes that a character takes in UTF-8.
pub open spec fn utf8_width(c: char) -> nat {
    if (c as u32) < 0x80 {
        1
    } else if (c as u32) < 0x800 {
        2
    } else if (c as u32) < 0x1_0000 {
        3
    } else {
        4
    }
}

/// Whether a character ends a line.
pub open spec fn is_line_end(c: char) -> bool {
    c == '\n' || c == '\r'
}

/// The character that the parser takes for the part of a byte order mark in
/// the given place.
pub open spec fn bom_char(place: int) -> u32 {
    if place == 0 {
        0xEF
    } else if place == 1 {
        0xBB
    } else {
        0xBF
    }
}

/// The number of bytes that the first `count` characters of `text` take.
pub open spec fn byte_offset(text: Seq<char>, count: int) -> nat
    decreases count,
{
    if count <= 0 {
        0
    } else {
        byte_offset(text, count - 1) + utf8_width(text[count - 1])
    }
}

/// Whether a character of `text` begins at the byte `offset`, or the text
/// ends there.
pub open spec fn is_boundary(text: Seq<char>, offset: int) -> bool {
    exists|count: int| 0 <= count <= text.len() && #[trigger] byte_offset(text, count) == offset
}

/// The variables of the parser between two characters.
pub struct ParserState {
    /// The byte offset at which the parser takes the line to start.
    pub start: int,
    /// The byte offset up to which the parser has read the line.
    pub end: int,
    /// The number of characters of the line that the parser has passed over.
    pub skipped: int,
    /// The number of parts of a byte order mark that the parser has seen; 3
    /// once it looks for none any more.
    pub bom: int,
    /// Whether the character before was a carriage return.
    pub after_cr: bool,
    /// The number of the last line that the parser has cut out.
    pub lines: int,
    /// Whether every cut so far lay on characters' boundaries and every line
    /// so far had a number of 32 bits.
    pub sound: bool,
}

impl ParserState {
    /// The variables before the first character.
    pub open spec fn initial() -> ParserState {
        ParserState {
            start: 0,
            end: 0,
            skipped: 0,
            bom: 0,
            after_cr: false,
            lines: 0,
            sound: true,
        }
    }

    /// The variables after the parser has numbered the line and cut it out
    /// of `text` from `start` to `end`.
    pub open spec fn cut(self, text: Seq<char>) -> ParserState {
        ParserState {
            start: self.start,
            end: self.end,
            skipped: self.skipped,
            bom: self.bom,
            after_cr: self.after_cr,
            lines: self.lines + 1,
            sound: self.sound && self.lines < u32::MAX && is_boundary(text, self.start)
                && is_boundary(text, self.end),
        }
    }

    /// The variables after one more character of `text`.
    pub open spec fn step(self, text: Seq<char>, c: char) -> ParserState {
        if self.bom < 3 && c as u32 == bom_char(self.bom) {
            ParserState {
                start: self.start + utf8_width(c),
                end: self.end + utf8_width(c),
                skipped: self.skipped,
                bom: self.bom + 1,
                after_cr: self.after_cr,
                lines: self.lines,
                sound: self.sound,
            }
        } else if !is_line_end(c) {
            if self.end - self.start < LINE_LIMIT {
                ParserState {
                    start: self.start,
                    end: self.end + utf8_width(c),
                    skipped: self.skipped,
                    bom: 3,
                    after_cr: self.after_cr,
                    lines: self.lines,
                    sound: self.sound,
                }
            } else {
                ParserState {
                    start: self.start,
                    end: self.end,
                    skipped: self.skipped + 1,
                    bom: 3,
                    after_cr: self.after_cr,
                    lines: self.lines,
                    sound: self.sound,
                }
            }
        } else {
            let second_of_crlf = self.end == self.start && self.after_cr && c == '\n';
            let counted = if second_of_crlf {
                self
            } else {
                self.cut(text)
            };
            ParserState {
                start: self.end + self.skipped + utf8_width(c),
                end: self.end + self.skipped + utf8_width(c),
                skipped: 0,
                bom: 3,
                after_cr: c == '\r',
                lines: counted.lines,
                sound: counted.sound,
            }
        }
    }
}

/// The variables of the parser after the first `count` characters of `text`.
pub open spec fn parser_state(text: Seq<char>, count: int) -> ParserState
    decreases count,
{
    if count <= 0 {
        ParserState::initial()
    } else {
        parser_state(text, count - 1).step(text, text[count - 1])
    }
}

/// Whether the parser can take `text`: every line that it cuts out, the one
/// after the last character too, lies between two boundaries of characters
/// and has a number of 32 bits.
pub open spec fn parser_accepts(text: Seq<char>) -> bool {
    parser_state(text, text.len() as int).cut(text).sound
}

/// Every character takes at least one byte and at most four.
pub proof fn lemma_offset_bounds(text: Seq<char>, count: int)
    requires
        0 <= count,
    ensures
        count <= byte_offset(text, count) <= 4 * count,
    decreases count,
{
    if count > 0 {
        lemma_offset_bounds(text, count - 1);
    }
}

/// Later characters begin at later bytes.
pub proof fn lemma_offset_rises(text: Seq<char>, earlier: int, later: int)
    requires
        0 <= earlier < later,
    ensures
        byte_offset(text, earlier) < byte_offset(text, later),
    decreases later,
{
    if earlier < later - 1 {
        lemma_offset_rises(text, earlier, later - 1);
    }
}

/// Once a cut has failed, the parser does not recover.
pub proof fn lemma_unsound_stays(text: Seq<char>, earlier: int, later: int)
    requires
        0 <= earlier <= later,
        !parser_state(text, earlier).sound,
    ensures
        !parser_state(text, later).sound,
        !parser_state(text, later).cut(text).sound,
    decreases later - earlier,
{
    if earlier < later {
        lemma_unsound_stays(text, earlier, later - 1);
    }
}

/// A text without a line ending is cut once, from behind its byte order mark
/// to where the parser stopped reading, and both are boundaries: the parser
/// can take it, however long it is and whatever characters it holds.
pub proof fn lemma_accepts_single_line(text: Seq<char>)
    requires
        forall|i: int| 0 <= i < text.len() ==> !is_line_end(#[trigger] text[i]),
    ensures
        parser_accepts(text),
{
    lemma_single_line_state(text, text.len() as int);
}

/// While no line has ended, the parser's offsets are boundaries.
proof fn lemma_single_line_state(text: Seq<char>, count: int)
    requires
        0 <= count <= text.len(),
        forall|i: int| 0 <= i < text.len() ==> !is_line_end(#[trigger] text[i]),
    ensures
        parser_state(text, count).sound,
        parser_state(text, count).lines == 0,
        is_boundary(text, parser_state(text, count).start),
        is_boundary(text, parser_state(text, count).end),
    decreases count,
{
    if count == 0 {
        assert(byte_offset(text, 0) == 0);
    } else {
        lemma_single_line_reads(text, count);
    }
}

/// While no line has ended, the parser has read a run of whole characters:
/// its offsets are those of two characters, the end no later than where it
/// stands, and once it has passed over a character it reads no more.
proof fn lemma_single_line_reads(text: Seq<char>, count: int) -> (places: (int, int))
    requires
        0 <= count <= text.len(),
        forall|i: int| 0 <= i < text.len() ==> !is_line_end(#[trigger] text[i]),
    ensures
        0 <= places.0 <= places.1 <= count,
        parser_state(text, count).sound,
        parser_state(text, count).lines == 0,
        parser_state(text, count).start == byte_offset(text, places.0),
        parser_state(text, count).end == byte_offset(text, places.1),
        parser_state(text, count).skipped == count - places.1,
        parser_state(text, count).bom < 3 ==> places.0 == count,
        parser_state(text, count).skipped > 0 ==> parser_state(text, count).end
            - parser_state(text, count).start >= LINE_LIMIT,
    decreases count,
{
    if count == 0 {
        (0, 0)
    } else {
        let before = lemma_single_line_reads(text, count - 1);
        let state = parser_state(text, count - 1);
        let c = text[count - 1];
        assert(!is_line_end(c));
        if state.bom < 3 && c as u32 == bom_char(state.bom) {
            (count, count)
        } else if state.end - state.start < LINE_LIMIT {
            (before.0, count)
        } else {
            before
        }
    }
}

/// Says that a text is none that the parser can take.
#[derive(Debug, Clone, Copy, PartialEq, Eq, Structural)]
pub struct UnsupportedText {}

/// The number of bytes that a character takes in UTF-8.
fn width(c: char) -> (bytes: u128)
    ensures
        bytes == utf8_width(c),
{
    let code: u32 = c as u32;
    if code < 0x80 {
        1
    } else if code < 0x800 {
        2
    } else if code < 0x1_0000 {
        3
    } else {
        4
    }
}

/// The characters of a text, one by one.
fn characters(text: &str) -> (chars: Vec<char>)
    ensures
        chars@ == text@,
{
    let mut chars: Vec<char> = Vec::new();
    for c in it: text.chars()
        invariant
            it.seq() == text@,
            chars@ == text@.take(it.index() as int),
    {
        chars.push(c);
        assert(chars@ =~= text@.take(it.index() + 1));
    }
    assert(text@.take(text@.len() as int) =~= text@);
    chars
}

/// Looks for the character that begins at the byte `target`, from the
/// character in the place `from` on, which begins at the byte `offset`. Gives
/// the place and the offset of the character found, and whether one begins
/// at `target`.
fn seek(chars: &Vec<char>, from: usize, offset: u128, target: u128) -> (found: (
    usize,
    u128,
    bool,
))
    requires
        from <= chars.len(),
        offset == byte_offset(chars@, from as int),
        offset <= target,
    ensures
        found.2 == is_boundary(chars@, target as int),
        found.2 ==> found.0 <= chars.len() && found.1 == target && found.1 == byte_offset(
            chars@,
            found.0 as int,
        ),
{
    let mut place: usize = from;
    let mut reached: u128 = offset;
    proof {
        assert forall|count: int| 0 <= count < from implies byte_offset(chars@, count)
            < target by {
            lemma_offset_rises(chars@, count, from as int);
        }
    }
    while place < chars.len() && reached < target
        invariant
            place <= chars.len(),
            reached == byte_offset(chars@, place as int),
            forall|count: int| 0 <= count < place ==> byte_offset(chars@, count) < target,
        decreases chars.len() - place,
    {
        proof {
            lemma_offset_bounds(chars@, place as int);
            assert forall|count: int| 0 <= count < place + 1 implies byte_offset(chars@, count)
                < target by {
                if count < place {
                } else {
                }
            }
        }
        reached = reached + width(chars[place]);
        place = place + 1;
    }
    proof {
        if reached != target {
            assert forall|count: int| 0 <= count <= chars.len() implies byte_offset(
                chars@,
                count,
            ) != target by {
                if count > place {
                    lemma_offset_rises(chars@, place as int, count);
                }
            }
        }
    }
    (place, reached, reached == target)
}

/// Decides whether the parser can take `text`, by following its variables
/// over the text.
pub fn accepts(text: &str) -> (ok: bool)
    ensures
        ok == parser_accepts(text@),
{
    let chars = characters(text);
    let count = chars.len();
    let mut start: u128 = 0;
    let mut end: u128 = 0;
    let mut skipped: u128 = 0;
    let mut bom: u8 = 0;
    let mut after_cr = false;
    let mut lines: u128 = 0;
    let mut seen: usize = 0;
    let mut seen_offset: u128 = 0;
    let mut at: usize = 0;
    while at < count
        invariant
            chars@ == text@,
            count == chars.len(),
            at <= count,
            parser_state(text@, at as int) == (ParserState {
                start: start as int,
                end: end as int,
                skipped: skipped as int,
                bom: bom as int,
                after_cr,
                lines: lines as int,
                sound: true,
            }),
            start <= end,
            end + skipped <= byte_offset(text@, at as int),
            lines <= at,
            bom <= 3,
            seen <= count,
            seen_offset == byte_offset(text@, seen as int),
            seen_offset <= start,
        decreases count - at,
    {
        let c = chars[at];
        let bytes = width(c);
        proof {
            lemma_offset_bounds(text@, at as int);
            lemma_offset_bounds(text@, at + 1);
        }
        let mark: u32 = if bom == 0 {
            0xEF
        } else if bom == 1 {
            0xBB
        } else {
            0xBF
        };
        if bom < 3 && c as u32 == mark {
            bom = bom + 1;
            start = start + bytes;
            end = end + bytes;
        } else if c != '\n' && c != '\r' {
            bom = 3;
            if end - start < LINE_LIMIT as u128 {
                end = end + bytes;
            } else {
                skipped = skipped + 1;
            }
        } else {
            let second_of_crlf = end == start && after_cr && c == '\n';
            if !second_of_crlf {
                if lines >= 0xffff_ffff {
                    proof {
                        lemma_unsound_stays(text@, at + 1, count as int);
                    }
                    return false;
                }
                let first = seek(&chars, seen, seen_offset, start);
                if !first.2 {
                    proof {
                        lemma_unsound_stays(text@, at + 1, count as int);
                    }
                    return false;
                }
                let second = seek(&chars, first.0, first.1, end);
                if !second.2 {
                    proof {
                        lemma_unsound_stays(text@, at + 1, count as int);
                    }
                    return false;
                }
                seen = second.0;
                seen_offset = second.1;
                lines = lines + 1;
            }
            bom = 3;
            end = end + skipped + bytes;
            start = end;
            after_cr = c == '\r';
            skipped = 0;
        }
        at = at + 1;
    }
    if lines >= 0xffff_ffff {
        return false;
    }
    let first = seek(&chars, seen, seen_offset, start);
    if !first.2 {
        return false;
    }
    let second = seek(&chars, first.0, first.1, end);
    second.2
}

} // verus!
