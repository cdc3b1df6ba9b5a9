//! Shell command lines: splitting one into its top-level commands, and what may be typed into a
//! login shell on behalf of an agent.
use std::borrow::Cow;

use vstd::prelude::*;
use vstd::string::*;
use vstd::utf8::*;

use crate::text::{
    chars_of, has_char, same, strip_prefix, trim, trim_end, trim_end_of, trim_of, trim_start,
    trim_start_of, views, without_prefix, words, words_of, CharClass,
};

verus! {

pub const SEMICOLON: u8 = 0x3B;

pub const AMPERSAND: u8 = 0x26;

pub const PIPE: u8 = 0x7C;

pub const GREATER: u8 = 0x3E;

pub const LESS: u8 = 0x3C;

pub const APOSTROPHE: u8 = 0x27;

pub const QUOTE: u8 = 0x22;

pub const BACKTICK: u8 = 0x60;

pub const BACKSLASH: u8 = 0x5C;

pub const OPEN: u8 = 0x28;

pub const CLOSE: u8 = 0x29;

pub const HASH: u8 = 0x23;

pub const SPACE: u8 = 0x20;

pub const TAB: u8 = 0x09;

pub const LINE_FEED: u8 = 0x0A;

pub const FORM_FEED: u8 = 0x0C;

pub const RETURN: u8 = 0x0D;

/// What kind of quoting the scanner is inside of.
#[derive(Clone, Copy, PartialEq, Eq, Structural)]
pub enum Quote {
    Bare,
    Single,
    Double,
    Backtick,
}

/// The scanner between two bytes of a command line.
pub struct Lex {
    pub quote: Quote,
    /// How many parentheses are open.
    pub depth: nat,
    /// Where the current segment starts.
    pub start: int,
    /// The byte scanned last, 0 at the start.
    pub prev: u8,
}

/// The scanner before the first byte.
pub open spec fn lex_init() -> Lex {
    Lex { quote: Quote::Bare, depth: 0, start: 0, prev: 0 }
}

/// Whether a `#` right after `prev` starts a word, so that it opens a comment: at the start of
/// the line, after white space, after a command separator, a parenthesis or a redirection. A
/// brace is no operator: the `#` of `${#x}` asks for a length.
pub open spec fn word_start(prev: u8) -> bool {
    ||| prev == 0
    ||| prev == SPACE || prev == TAB || prev == LINE_FEED || prev == FORM_FEED || prev == RETURN
    ||| prev == SEMICOLON || prev == AMPERSAND || prev == PIPE
    ||| prev == OPEN || prev == CLOSE || prev == LESS || prev == GREATER
}

/// Decides [`word_start`].
pub fn is_shell_word_start(prev: u8) -> (r: bool)
    ensures
        r == word_start(prev),
{
    prev == 0 || prev == SPACE || prev == TAB || prev == LINE_FEED || prev == FORM_FEED || prev == RETURN
        || prev == SEMICOLON || prev == AMPERSAND || prev == PIPE || prev == OPEN || prev == CLOSE || prev
        == LESS || prev == GREATER
}

/// How many bytes the command separator at `i` has, 0 where none is there: `;`, `&&`, `||`, `|&`,
/// a lone `&` and a lone `|`, but not the `&` of `>&`, `<&` and `&>` and not the `|` of `>|`.
pub open spec fn separator_len(bytes: Seq<u8>, i: int, prev: u8) -> int {
    let b = bytes[i];
    let follows = |c: u8| i + 1 < bytes.len() && bytes[i + 1] == c;
    if b == SEMICOLON {
        1
    } else if b == AMPERSAND {
        if prev == GREATER || prev == LESS || follows(GREATER) {
            0
        } else if follows(AMPERSAND) {
            2
        } else {
            1
        }
    } else if b == PIPE {
        if prev == GREATER {
            0
        } else if follows(PIPE) || follows(AMPERSAND) {
            2
        } else {
            1
        }
    } else {
        0
    }
}

/// The quoting after byte `b`: a quote opens outside of all others and closes its own kind.
pub open spec fn quote_after(q: Quote, b: u8) -> Quote {
    match q {
        Quote::Bare => if b == APOSTROPHE {
            Quote::Single
        } else if b == QUOTE {
            Quote::Double
        } else if b == BACKTICK {
            Quote::Backtick
        } else {
            Quote::Bare
        },
        Quote::Single => if b == APOSTROPHE {
            Quote::Bare
        } else {
            q
        },
        Quote::Double => if b == QUOTE {
            Quote::Bare
        } else {
            q
        },
        Quote::Backtick => if b == BACKTICK {
            Quote::Bare
        } else {
            q
        },
    }
}

/// The number of open parentheses after byte `b`.
pub open spec fn depth_after(q: Quote, depth: nat, b: u8) -> nat {
    if q != Quote::Bare {
        depth
    } else if b == OPEN {
        depth + 1
    } else if b == CLOSE && depth > 0 {
        (depth - 1) as nat
    } else {
        depth
    }
}

/// Where the scan goes on after the byte at `i`: a backslash takes the byte after it along,
/// except in single quotes.
pub open spec fn after_byte(bytes: Seq<u8>, i: int, q: Quote) -> int {
    if bytes[i] == BACKSLASH && q != Quote::Single && i + 1 < bytes.len() {
        i + 2
    } else {
        i + 1
    }
}

/// The byte ranges of the top-level commands that the scan finds from `i` on.
pub open spec fn segments_from(bytes: Seq<u8>, i: int, lex: Lex) -> Seq<(int, int)>
    decreases bytes.len() - i,
{
    if i < 0 || i >= bytes.len() {
        seq![(lex.start, bytes.len() as int)]
    } else {
        let b = bytes[i];
        let top = lex.quote == Quote::Bare && lex.depth == 0;
        let cut = separator_len(bytes, i, lex.prev);
        if top && b == HASH && word_start(lex.prev) {
            seq![(lex.start, i)]
        } else if top && cut > 0 {
            seq![(lex.start, i)] + segments_from(
                bytes,
                i + cut,
                Lex { start: i + cut, prev: b, ..lex },
            )
        } else {
            segments_from(
                bytes,
                after_byte(bytes, i, lex.quote),
                Lex {
                    quote: quote_after(lex.quote, b),
                    depth: depth_after(lex.quote, lex.depth, b),
                    prev: b,
                    ..lex
                },
            )
        }
    }
}

/// The byte ranges of the top-level commands of a command line.
pub open spec fn segments_of(command: Seq<char>) -> Seq<(int, int)> {
    segments_from(encode_utf8(command), 0, lex_init())
}

/// The bytes that separate commands.
pub open spec fn is_separator_byte(b: u8) -> bool {
    b == SEMICOLON || b == AMPERSAND || b == PIPE
}

/// The bytes `from..to` are one of the separators `;`, `&`, `&&`, `|`, `||` and `|&`.
pub open spec fn is_separator(bytes: Seq<u8>, from: int, to: int) -> bool {
    ||| to == from + 1 && is_separator_byte(bytes[from])
    ||| to == from + 2 && bytes[from] == AMPERSAND && bytes[from + 1] == AMPERSAND
    ||| to == from + 2 && bytes[from] == PIPE && (bytes[from + 1] == PIPE || bytes[from + 1]
        == AMPERSAND)
}

/// The ranges lie one behind the other in `from..bytes.len()`; just one separator lies between
/// neighbours, and nothing or a comment lies behind the last one.
pub open spec fn segments_ok(bytes: Seq<u8>, from: int, segs: Seq<(int, int)>) -> bool {
    &&& segs.len() > 0
    &&& segs[0].0 == from
    &&& forall|k: int|
        0 <= k < segs.len() ==> from <= (#[trigger] segs[k]).0 <= segs[k].1 <= bytes.len()
    &&& forall|k: int|
        0 < k < segs.len() ==> is_separator(bytes, segs[k - 1].1, (#[trigger] segs[k]).0)
    &&& segs.last().1 == bytes.len() || (segs.last().1 < bytes.len() && bytes[segs.last().1]
        == HASH)
}

pub(crate) proof fn lemma_segments_from_ok(bytes: Seq<u8>, i: int, lex: Lex)
    requires
        0 <= lex.start <= i <= bytes.len(),
    ensures
        segments_ok(bytes, lex.start, segments_from(bytes, i, lex)),
        forall|k: int|
            0 <= k < segments_from(bytes, i, lex).len() ==> (#[trigger] segments_from(
                bytes,
                i,
                lex,
            )[k]).1 >= i,
    decreases bytes.len() - i,
{
    let segs = segments_from(bytes, i, lex);
    if i >= bytes.len() {
    } else {
        let b = bytes[i];
        let top = lex.quote == Quote::Bare && lex.depth == 0;
        let cut = separator_len(bytes, i, lex.prev);
        if top && b == HASH && word_start(lex.prev) {
        } else if top && cut > 0 {
            let rest_lex = Lex { start: i + cut, prev: b, ..lex };
            lemma_segments_from_ok(bytes, i + cut, rest_lex);
            let rest = segments_from(bytes, i + cut, rest_lex);
            assert(segs == seq![(lex.start, i)] + rest);
            assert forall|k: int| 0 <= k < segs.len() implies lex.start <= (#[trigger] segs[k]).0
                <= segs[k].1 <= bytes.len() && segs[k].1 >= i by {
                if k > 0 {
                    assert(segs[k] == rest[k - 1]);
                }
            }
            assert forall|k: int| 0 < k < segs.len() implies is_separator(
                bytes,
                segs[k - 1].1,
                (#[trigger] segs[k]).0,
            ) by {
                assert(segs[k] == rest[k - 1]);
                if k > 1 {
                    assert(segs[k - 1] == rest[k - 2]);
                }
            }
            assert(segs.last() == rest.last());
        } else {
            lemma_segments_from_ok(
                bytes,
                after_byte(bytes, i, lex.quote),
                Lex {
                    quote: quote_after(lex.quote, b),
                    depth: depth_after(lex.quote, lex.depth, b),
                    prev: b,
                    ..lex
                },
            );
        }
    }
}

/// Nothing of a command line is lost by splitting it: the segments lie in order and apart, one
/// separator lies between each two of them, and behind the last one only a comment can lie.
pub proof fn segments_partition_the_line(command: Seq<char>)
    ensures
        segments_ok(encode_utf8(command), 0, segments_of(command)),
{
    lemma_segments_from_ok(encode_utf8(command), 0, lex_init());
}

/// Splits a command line into its top-level commands, as byte ranges without the separators.
pub fn top_level_command_segments(command: &str) -> (segs: Vec<(usize, usize)>)
    ensures
        ranges(segs@) == segments_of(command@),
{
    let bytes = command.as_bytes();
    let n: usize = bytes.len();
    let mut segs: Vec<(usize, usize)> = Vec::new();
    let mut quote = Quote::Bare;
    let mut depth: usize = 0;
    let mut start: usize = 0;
    let mut prev: u8 = 0;
    let mut i: usize = 0;
    let ghost want = segments_of(command@);
    assert(ranges(segs@) + want =~= want);
    while i < n
        invariant
            n == bytes@.len(),
            bytes@ == encode_utf8(command@),
            start <= i <= n,
            depth <= i,
            want == segments_of(command@),
            want == ranges(segs@) + segments_from(
                bytes@,
                i as int,
                Lex { quote, depth: depth as nat, start: start as int, prev },
            ),
        decreases n - i,
    {
        let b: u8 = bytes[i];
        let top: bool = matches!(quote, Quote::Bare) && depth == 0;
        let ghost before = ranges(segs@);
        if top && b == HASH && is_shell_word_start(prev) {
            segs.push((start, i));
            assert(ranges(segs@) =~= before + seq![(start as int, i as int)]);
            return segs;
        }
        let cut: usize = separator(bytes, i, prev);
        if top && cut > 0 {
            segs.push((start, i));
            assert(ranges(segs@) =~= before.push((start as int, i as int)));
            let ghost rest = segments_from(
                bytes@,
                i + cut,
                Lex { quote, depth: depth as nat, start: i + cut, prev: b },
            );
            assert(before + (seq![(start as int, i as int)] + rest) =~= ranges(segs@) + rest);
            start = i + cut;
            i = i + cut;
        } else {
            let escape: bool = b == BACKSLASH && !matches!(quote, Quote::Single) && n - i > 1;
            if matches!(quote, Quote::Bare) {
                if b == OPEN {
                    depth = depth + 1;
                } else if b == CLOSE && depth > 0 {
                    depth = depth - 1;
                }
            }
            quote = match quote {
                Quote::Bare => if b == APOSTROPHE {
                    Quote::Single
                } else if b == QUOTE {
                    Quote::Double
                } else if b == BACKTICK {
                    Quote::Backtick
                } else {
                    Quote::Bare
                },
                Quote::Single => if b == APOSTROPHE {
                    Quote::Bare
                } else {
                    Quote::Single
                },
                Quote::Double => if b == QUOTE {
                    Quote::Bare
                } else {
                    Quote::Double
                },
                Quote::Backtick => if b == BACKTICK {
                    Quote::Bare
                } else {
                    Quote::Backtick
                },
            };
            i = if escape {
                i + 2
            } else {
                i + 1
            };
        }
        prev = b;
    }
    let ghost before = ranges(segs@);
    segs.push((start, n));
    assert(ranges(segs@) =~= before + seq![(start as int, n as int)]);
    segs
}

/// Byte ranges as pairs of integers.
pub open spec fn ranges(segs: Seq<(usize, usize)>) -> Seq<(int, int)> {
    Seq::new(segs.len(), |k: int| (segs[k].0 as int, segs[k].1 as int))
}

fn separator(bytes: &[u8], i: usize, prev: u8) -> (r: usize)
    requires
        i < bytes@.len(),
    ensures
        r == separator_len(bytes@, i as int, prev),
        r <= bytes@.len() - i,
{
    let b: u8 = bytes[i];
    let next: u8 = if bytes.len() - i > 1 {
        bytes[i + 1]
    } else {
        0
    };
    if b == SEMICOLON {
        1
    } else if b == AMPERSAND {
        if prev == GREATER || prev == LESS || next == GREATER {
            0
        } else if next == AMPERSAND {
            2
        } else {
            1
        }
    } else if b == PIPE {
        if prev == GREATER {
            0
        } else if next == PIPE || next == AMPERSAND {
            2
        } else {
            1
        }
    } else {
        0
    }
}

proof fn lemma_ascii_boundary(bytes: Seq<u8>, i: int)
    requires
        valid_utf8(bytes),
        0 <= i < bytes.len(),
        bytes[i] < 0x80,
    ensures
        is_char_boundary(bytes, i),
        is_char_boundary(bytes, i + 1),
{
    reveal_with_fuel(valid_utf8, 3);
    is_char_boundary_iff_is_leading_byte(bytes, i);
    valid_utf8_split(bytes, i);
    let tail = bytes.subrange(i, bytes.len() as int);
    assert(valid_utf8(tail));
    assert(length_of_first_scalar(tail) == 1);
    let rest = pop_first_scalar(tail);
    assert(rest =~= bytes.subrange(i + 1, bytes.len() as int));
    if i + 1 < bytes.len() {
        assert(valid_first_scalar(rest));
        assert(rest[0] == bytes[i + 1]);
        is_char_boundary_iff_is_leading_byte(bytes, i + 1);
    } else {
        is_char_boundary_start_end_of_seq(bytes);
    }
}

/// The end points of every segment are character boundaries of the line.
pub(crate) proof fn lemma_segment_boundaries(command: Seq<char>, k: int)
    requires
        0 <= k < segments_of(command).len(),
    ensures
        0 <= segments_of(command)[k].0 <= segments_of(command)[k].1 <= encode_utf8(command).len(),
        is_char_boundary(encode_utf8(command), segments_of(command)[k].0),
        is_char_boundary(encode_utf8(command), segments_of(command)[k].1),
{
    let bytes = encode_utf8(command);
    let segs = segments_of(command);
    segments_partition_the_line(command);
    encode_utf8_valid_utf8(command);
    is_char_boundary_start_end_of_seq(bytes);
    let (s, e) = segs[k];
    if k > 0 {
        assert(is_separator_byte(bytes[s - 1]));
        lemma_ascii_boundary(bytes, s - 1);
    }
    if k + 1 < segs.len() {
        let next = segs[k + 1];
        assert(is_separator_byte(bytes[segs[k + 1 - 1].1]));
        lemma_ascii_boundary(bytes, e);
    } else if e < bytes.len() {
        assert(segs.last() == segs[k]);
        lemma_ascii_boundary(bytes, e);
    }
}

pub(crate) proof fn lemma_boundary_in_prefix(bytes: Seq<u8>, a: int, b: int)
    requires
        valid_utf8(bytes),
        0 <= a <= b <= bytes.len(),
        is_char_boundary(bytes, a),
        is_char_boundary(bytes, b),
    ensures
        valid_utf8(bytes.subrange(0, b)),
        is_char_boundary(bytes.subrange(0, b), a),
        valid_utf8(bytes.subrange(a, b)),
{
    let pre = bytes.subrange(0, b);
    valid_utf8_split(bytes, b);
    is_char_boundary_start_end_of_seq(pre);
    if a < b {
        is_char_boundary_iff_not_is_continuation_byte(bytes, a);
        is_char_boundary_iff_not_is_continuation_byte(pre, a);
        assert(pre[a] == bytes[a]);
    }
    valid_utf8_split(pre, a);
    assert(pre.subrange(a, b) =~= bytes.subrange(a, b));
}

/// The characters that the bytes `a..b` of a string encode.
pub open spec fn byte_slice(s: Seq<char>, a: int, b: int) -> Seq<char> {
    decode_utf8(encode_utf8(s).subrange(a, b))
}

/// The part of a string between two of its character boundaries.
pub fn slice<'a>(s: &'a str, a: usize, b: usize) -> (r: &'a str)
    requires
        a <= b <= encode_utf8(s@).len(),
        is_char_boundary(encode_utf8(s@), a as int),
        is_char_boundary(encode_utf8(s@), b as int),
    ensures
        r@ == byte_slice(s@, a as int, b as int),
{
    proof {
        encode_utf8_valid_utf8(s@);
        lemma_boundary_in_prefix(encode_utf8(s@), a as int, b as int);
    }
    let (head, _) = s.split_at(b);
    let (_, r) = head.split_at(a);
    proof {
        let bytes = encode_utf8(s@);
        assert(encode_utf8(head@) =~= bytes.subrange(0, b as int));
        assert(encode_utf8(r@) =~= bytes.subrange(a as int, b as int));
        encode_utf8_decode_utf8(r@);
    }
    r
}

/// A string is what its slices up to, between and after two character boundaries hold.
pub(crate) proof fn lemma_three_slices(s: Seq<char>, a: int, b: int)
    requires
        0 <= a <= b <= encode_utf8(s).len(),
        is_char_boundary(encode_utf8(s), a),
        is_char_boundary(encode_utf8(s), b),
    ensures
        s == byte_slice(s, 0, a) + byte_slice(s, a, b) + byte_slice(s, b, encode_utf8(s).len() as int),
{
    let bytes = encode_utf8(s);
    encode_utf8_valid_utf8(s);
    encode_utf8_decode_utf8(s);
    lemma_boundary_in_prefix(bytes, a, b);
    decode_utf8_split(bytes, b);
    let pre = bytes.subrange(0, b);
    decode_utf8_split(pre, a);
    assert(pre.subrange(0, a) =~= bytes.subrange(0, a));
    assert(pre.subrange(a, b) =~= bytes.subrange(a, b));
}

/// The text of a command line's `k`-th top-level command.
pub open spec fn segment_text(command: Seq<char>, k: int) -> Seq<char> {
    let (s, e) = segments_of(command)[k];
    byte_slice(command, s, e)
}

/// Whether a string holds nothing but white space.
pub open spec fn is_blank(s: Seq<char>) -> bool {
    trim_of(s).len() == 0
}

/// At least one character, and all of them decimal digits.
pub open spec fn is_digits(s: Seq<char>) -> bool {
    s.len() > 0 && forall|i: int| 0 <= i < s.len() ==> '0' <= #[trigger] s[i] <= '9'
}

/// An optional minus sign and at least one decimal digit.
pub open spec fn is_integer(s: Seq<char>) -> bool {
    if s.len() > 0 && s[0] == '-' {
        is_digits(s.skip(1))
    } else {
        is_digits(s)
    }
}

fn integer(s: &str) -> (r: bool)
    ensures
        r == is_integer(s@),
{
    let v = chars_of(s);
    let from: usize = if v.len() > 0 && v[0] == '-' {
        1
    } else {
        0
    };
    let ghost digits = s@.skip(from as int);
    assert(s@.skip(0) =~= s@);
    assert(is_integer(s@) == is_digits(digits));
    if v.len() == from {
        return false;
    }
    let mut i: usize = from;
    while i < v.len()
        invariant
            from <= i <= v@.len(),
            from < v@.len(),
            v@ == s@,
            digits == s@.skip(from as int),
            is_integer(s@) == is_digits(digits),
            forall|j: int| 0 <= j < i - from ==> '0' <= #[trigger] digits[j] <= '9',
        decreases v@.len() - i,
    {
        let c: char = v[i];
        if c < '0' || c > '9' {
            assert(digits[i - from] == c);
            return false;
        }
        i = i + 1;
    }
    true
}

/// How a command that only ends the session reads: its command word, `exit` or `logout`, and its
/// text without the white space around it and without trailing `;` and `&`. It may have one
/// argument, an integer.
pub open spec fn session_ender(command: Seq<char>) -> Option<(Seq<char>, Seq<char>)> {
    let body = trim_end_of(trim_of(command), CharClass::CommandTail);
    let w = words_of(body);
    if w.len() > 0 && (w[0] == "exit"@ || w[0] == "logout"@) && (w.len() == 1 || (w.len() == 2
        && is_integer(w[1]))) {
        Some((w[0], body))
    } else {
        None
    }
}

/// Whether a command is `exit` with at most one integer.
pub open spec fn is_exit(command: Seq<char>) -> bool {
    session_ender(command) is Some && (session_ender(command)->0).0 == "exit"@
}

/// Whether a command is `logout` with at most one integer.
pub open spec fn is_logout(command: Seq<char>) -> bool {
    session_ender(command) is Some && (session_ender(command)->0).0 == "logout"@
}

/// Recognises a command that only ends the session: its command word and its normal form.
pub fn normalized_session_ender<'a>(command: &'a str) -> (r: Option<(&'a str, &'a str)>)
    ensures
        match r {
            Some((head, body)) => session_ender(command@) == Some((head@, body@)),
            None => session_ender(command@) is None,
        },
{
    let body = trim_end(trim(command), CharClass::CommandTail);
    let w = words(body);
    assert(views(w@) == words_of(body@));
    assert(w@.len() == words_of(body@).len());
    assert(forall|i: int| 0 <= i < w@.len() ==> (#[trigger] w@[i])@ == views(w@)[i]);
    if w.len() == 0 || w.len() > 2 {
        return None;
    }
    if w.len() == 2 && !integer(w[1].as_str()) {
        return None;
    }
    if same(w[0].as_str(), "exit") {
        Some(("exit", body))
    } else if same(w[0].as_str(), "logout") {
        Some(("logout", body))
    } else {
        None
    }
}

/// Whether an `exit` at the top level has a command behind it.
pub open spec fn has_exit_before_command(command: Seq<char>) -> bool {
    exists|i: int, j: int|
        0 <= i < j < segments_of(command).len() && is_exit(#[trigger] segment_text(command, i))
            && !is_blank(#[trigger] segment_text(command, j))
}

fn segment<'a>(command: &'a str, segs: &Vec<(usize, usize)>, k: usize) -> (r: &'a str)
    requires
        ranges(segs@) == segments_of(command@),
        k < segs@.len(),
    ensures
        r@ == segment_text(command@, k as int),
{
    proof {
        lemma_segment_boundaries(command@, k as int);
        assert(ranges(segs@)[k as int] == (segs@[k as int].0 as int, segs@[k as int].1 as int));
    }
    slice(command, segs[k].0, segs[k].1)
}

fn exit_command(command: &str) -> (r: bool)
    ensures
        r == is_exit(command@),
{
    match normalized_session_ender(command) {
        Some((head, _)) => same(head, "exit"),
        None => false,
    }
}

fn logout_command(command: &str) -> (r: bool)
    ensures
        r == is_logout(command@),
{
    match normalized_session_ender(command) {
        Some((head, _)) => same(head, "logout"),
        None => false,
    }
}

fn blank(s: &str) -> (r: bool)
    ensures
        r == is_blank(s@),
{
    trim(s).is_empty()
}

/// Decides whether an `exit` at the top level has a command behind it. Comments and an empty last
/// segment are no commands.
pub fn exit_followed_by_command(command: &str) -> (r: bool)
    ensures
        r == has_exit_before_command(command@),
{
    let segs = top_level_command_segments(command);
    assert(ranges(segs@).len() == segs@.len());
    let mut seen: bool = false;
    let mut k: usize = 0;
    let ghost n = segments_of(command@).len();
    while k < segs.len()
        invariant
            k <= segs@.len(),
            n == segs@.len(),
            n == segments_of(command@).len(),
            ranges(segs@) == segments_of(command@),
            seen == (exists|i: int| 0 <= i < k && is_exit(#[trigger] segment_text(command@, i))),
            forall|i: int, j: int|
                0 <= i < j < k && is_exit(#[trigger] segment_text(command@, i)) ==> is_blank(
                    #[trigger] segment_text(command@, j),
                ),
        decreases segs@.len() - k,
    {
        let text = segment(command, &segs, k);
        if seen && !blank(text) {
            assert(exists|i: int|
                0 <= i < k && is_exit(#[trigger] segment_text(command@, i)) && !is_blank(
                    segment_text(command@, k as int),
                ));
            return true;
        }
        if exit_command(text) {
            assert(is_exit(segment_text(command@, k as int)));
            seen = true;
        }
        k = k + 1;
    }
    false
}

pub const EMPTY_COMMAND: &'static str = "command 为空：空命令只会让 shell 打一个新提示符，不会执行任何东西（\
                    shell 集成下还会误报成上一条命令的退出码）。要单纯看屏幕请用 read_screen";

pub const MULTI_LINE_COMMAND: &'static str = "command 含换行：命令是当作按键打进真实终端的，换行会被 shell 当成回车、\
                    拆成多条命令依次执行，完成检测只认得第一条——请改写成单行（用 `;` 或 \
                    `&&` 连接），或先用 write_file 写一个脚本再执行它";

pub const LOGOUT_COMMAND: &'static str = "command 里含有 logout：run_command 用来执行命令，不用来关会话——关掉你\
                        自己开的会话请用 close_session；只是想拿一个退出码请用 `exit N`（会在\
                        子 shell 里执行，会话不受影响）";

pub const EXIT_BEFORE_COMMAND: &'static str = "command 里的 exit 后面还有命令：在 run_command 里 exit 会被改写进子 shell \
                    执行（为了不杀掉会话），它**无法终止**后面的命令——`cond || exit 1; rm …` \
                    这类守卫会失效、rm 照跑。请把后续命令改成条件分支（`cond && rm …`），或把 \
                    exit 放到命令最后";

/// Whether a `logout` stands at the top level of a command line.
pub open spec fn has_logout(command: Seq<char>) -> bool {
    exists|i: int|
        0 <= i < segments_of(command).len() && is_logout(#[trigger] segment_text(command, i))
}

/// Why a command line may not be typed into a session's shell, `None` where it may: it must be one
/// non-empty line, it must not log out, and no command may stand behind an `exit`.
pub open spec fn command_refusal(command: Seq<char>) -> Option<Seq<char>> {
    if is_blank(command) {
        Some(EMPTY_COMMAND@)
    } else if command.contains('\n') || command.contains('\r') {
        Some(MULTI_LINE_COMMAND@)
    } else if has_logout(command) {
        Some(LOGOUT_COMMAND@)
    } else if has_exit_before_command(command) {
        Some(EXIT_BEFORE_COMMAND@)
    } else {
        None
    }
}

/// Checks a command line before it is typed into a session's shell.
pub fn validate_run_command(command: &str) -> (r: Result<(), String>)
    ensures
        match r {
            Ok(()) => command_refusal(command@) is None,
            Err(msg) => command_refusal(command@) == Some(msg@),
        },
{
    if blank(command) {
        return Err(EMPTY_COMMAND.to_owned());
    }
    if has_char(command, '\n') || has_char(command, '\r') {
        return Err(MULTI_LINE_COMMAND.to_owned());
    }
    let segs = top_level_command_segments(command);
    assert(ranges(segs@).len() == segs@.len());
    let mut k: usize = 0;
    while k < segs.len()
        invariant
            k <= segs@.len(),
            segs@.len() == segments_of(command@).len(),
            ranges(segs@) == segments_of(command@),
            !is_blank(command@),
            !command@.contains('\n'),
            !command@.contains('\r'),
            forall|i: int| 0 <= i < k ==> !is_logout(#[trigger] segment_text(command@, i)),
        decreases segs@.len() - k,
    {
        if logout_command(segment(command, &segs, k)) {
            assert(is_logout(segment_text(command@, k as int)));
            return Err(LOGOUT_COMMAND.to_owned());
        }
        k = k + 1;
    }
    if exit_followed_by_command(command) {
        return Err(EXIT_BEFORE_COMMAND.to_owned());
    }
    Ok(())
}

/// The last of the first `n` segments that holds a command.
pub open spec fn last_command(command: Seq<char>, n: int) -> Option<int>
    decreases n,
{
    if n <= 0 {
        None
    } else if !is_blank(segment_text(command, n - 1)) {
        Some(n - 1)
    } else {
        last_command(command, n - 1)
    }
}

/// A command line whose last command is an `exit`, with that command moved into a subshell; any
/// other line unchanged. The white space around the command, the separators and the comment stay
/// as they are.
pub open spec fn wrapped(command: Seq<char>) -> Seq<char> {
    match last_command(command, segments_of(command).len() as int) {
        Some(k) => if is_exit(segment_text(command, k)) {
            let (s, e) = segments_of(command)[k];
            let text = segment_text(command, k);
            byte_slice(command, 0, s) + leading_white(text) + "("@ + (session_ender(text)->0).1 + ")"@
                + trailing_white(text) + byte_slice(command, e, encode_utf8(command).len() as int)
        } else {
            command
        },
        None => command,
    }
}

/// The white space that a string starts with.
pub open spec fn leading_white(s: Seq<char>) -> Seq<char> {
    s.take(s.len() - trim_start_of(s, CharClass::White).len())
}

/// The white space that a string ends with.
pub open spec fn trailing_white(s: Seq<char>) -> Seq<char> {
    s.skip(trim_end_of(s, CharClass::White).len() as int)
}

pub(crate) proof fn lemma_trim_start_suffix(s: Seq<char>, k: CharClass)
    ensures
        trim_start_of(s, k).len() <= s.len(),
        trim_start_of(s, k) == s.skip(s.len() - trim_start_of(s, k).len()),
    decreases s.len(),
{
    if s.len() > 0 && k.holds(s[0]) {
        lemma_trim_start_suffix(s.drop_first(), k);
        let t = trim_start_of(s, k);
        assert(s.drop_first().skip(s.len() - 1 - t.len()) =~= s.skip(s.len() - t.len()));
    } else {
        assert(s.skip(0) =~= s);
    }
}

pub(crate) proof fn lemma_trim_end_prefix(s: Seq<char>, k: CharClass)
    ensures
        trim_end_of(s, k).len() <= s.len(),
        trim_end_of(s, k) == s.take(trim_end_of(s, k).len() as int),
    decreases s.len(),
{
    if s.len() > 0 && k.holds(s.last()) {
        lemma_trim_end_prefix(s.drop_last(), k);
        let t = trim_end_of(s, k);
        assert(s.drop_last().take(t.len() as int) =~= s.take(t.len() as int));
    } else {
        assert(s.take(s.len() as int) =~= s);
    }
}

/// Moves an `exit` that ends a command line into a subshell, where it yields its exit code without
/// ending the session.
pub fn wrap_session_ender<'a>(command: &'a str) -> (r: Cow<'a, str>)
    ensures
        r@ == wrapped(command@),
{
    let segs = top_level_command_segments(command);
    assert(ranges(segs@).len() == segs@.len());
    let mut n: usize = segs.len();
    while n > 0
        invariant
            n <= segs@.len(),
            segs@.len() == segments_of(command@).len(),
            ranges(segs@) == segments_of(command@),
            last_command(command@, segments_of(command@).len() as int) == last_command(
                command@,
                n as int,
            ),
        decreases n,
    {
        let k: usize = n - 1;
        let text = segment(command, &segs, k);
        if !blank(text) {
            if !exit_command(text) {
                return Cow::Borrowed(command);
            }
            let (s, e) = segs[k];
            proof {
                lemma_segment_boundaries(command@, k as int);
                assert(ranges(segs@)[k as int] == (s as int, e as int));
                encode_utf8_valid_utf8(command@);
                is_char_boundary_start_end_of_seq(encode_utf8(command@));
            }
            let len: usize = command.as_bytes().len();
            let before = slice(command, 0, s);
            let after = slice(command, e, len);
            let total: usize = text.unicode_len();
            let lead: usize = total - leading(text);
            let kept: usize = trim_end(text, CharClass::White).unicode_len();
            proof {
                lemma_trim_end_prefix(text@, CharClass::White);
                lemma_trim_start_suffix(text@, CharClass::White);
            }
            let mut out = before.to_owned();
            out.append(text.substring_char(0, lead));
            out.append("(");
            match normalized_session_ender(text) {
                Some((_, body)) => {
                    out.append(body);
                },
                None => {},
            }
            out.append(")");
            out.append(text.substring_char(kept, total));
            out.append(after);
            assert(text@.subrange(0, lead as int) =~= leading_white(text@));
            assert(text@.subrange(kept as int, total as int) =~= trailing_white(text@));
            return Cow::Owned(out);
        }
        n = k;
    }
    Cow::Borrowed(command)
}

fn leading(s: &str) -> (r: usize)
    ensures
        r == trim_start_of(s@, CharClass::White).len(),
        r <= s@.len(),
{
    proof {
        lemma_trim_start_suffix(s@, CharClass::White);
    }
    trim_start(s, CharClass::White).unicode_len()
}

/// The output of a command without the echo of the command itself: where it starts with the
/// command's text, that text and the line breaks right after it are cut off.
pub open spec fn without_echo(output: Seq<char>, command: Seq<char>) -> Seq<char> {
    match without_prefix(output, trim_of(command)) {
        Some(rest) => trim_start_of(rest, CharClass::LineEnd),
        None => output,
    }
}

/// Cuts the echo of a command off its output.
pub fn trim_leading_echo(output: &str, command: &str) -> (r: String)
    ensures
        r@ == without_echo(output@, command@),
{
    match strip_prefix(output, trim(command)) {
        Some(rest) => trim_start(rest, CharClass::LineEnd).to_owned(),
        None => output.to_owned(),
    }
}

} // verus!
