//! What holds of every command line that may be typed into a session's shell: once its `exit` is in
//! a subshell, nothing at its top level ends the session, and nothing else of it changed. And what
//! holds of every command line: to move its `exit` once is enough, and a command taken out of it is
//! one command.
use vstd::prelude::*;
use vstd::string::*;
use vstd::utf8::*;

use crate::shell::{
    after_byte, byte_slice, command_refusal, depth_after, has_exit_before_command, has_logout,
    is_blank, is_exit, is_integer, is_logout, is_separator, is_separator_byte, last_command, leading_white,
    lemma_boundary_in_prefix, lemma_segment_boundaries, lemma_segments_from_ok, lemma_three_slices,
    lemma_trim_end_prefix, lemma_trim_start_suffix, lex_init, quote_after, segment_text,
    segments_from, segments_of, segments_ok, segments_partition_the_line, separator_len,
    session_ender, trailing_white, word_start, wrapped, Lex, Quote, AMPERSAND, APOSTROPHE,
    BACKSLASH, BACKTICK, CLOSE, GREATER, HASH, LESS, OPEN, PIPE, QUOTE, SEMICOLON,
};
use crate::text::{
    is_white, trim_end_of, trim_of, trim_start_of, word_len, words_of, CharClass,
};

verus! {

/// Whether a byte means something to the scanner.
spec fn special(b: u8) -> bool {
    ||| b == APOSTROPHE || b == QUOTE || b == BACKTICK || b == BACKSLASH
    ||| b == OPEN || b == CLOSE || b == HASH
    ||| b == SEMICOLON || b == AMPERSAND || b == PIPE || b == LESS || b == GREATER
}

/// Whether a character means nothing to the scanner.
spec fn plain(c: char) -> bool {
    c as u32 >= 0x80 || !special((c as u32) as u8)
}

proof fn lemma_encode_concat(a: Seq<char>, b: Seq<char>)
    ensures
        encode_utf8(a + b) == encode_utf8(a) + encode_utf8(b),
    decreases a.len(),
{
    if a.len() == 0 {
        assert(a + b =~= b);
        assert(encode_utf8(a) + encode_utf8(b) =~= encode_utf8(b));
    } else {
        assert((a + b).drop_first() =~= a.drop_first() + b);
        lemma_encode_concat(a.drop_first(), b);
        assert(encode_utf8(a + b) =~= encode_utf8(a) + encode_utf8(b));
    }
}

proof fn lemma_scalar_bytes(c: u32)
    requires
        is_scalar(c),
    ensures
        c < 0x80 ==> encode_scalar(c) == seq![c as u8],
        c >= 0x80 ==> forall|i: int|
            0 <= i < encode_scalar(c).len() ==> #[trigger] encode_scalar(c)[i] >= 0x80,
{
    if has_width_1_encoding(c) {
        assert(c as u8 == leading_byte_width_1(c)) by (bit_vector)
            requires
                has_width_1_encoding(c),
        ;
    } else if has_width_2_encoding(c) {
        assert(leading_byte_width_2(c) >= 0x80 && last_continuation_byte(c) >= 0x80) by (bit_vector)
            requires
                has_width_2_encoding(c),
        ;
    } else if has_width_3_encoding(c) {
        assert(leading_byte_width_3(c) >= 0x80 && second_last_continuation_byte(c) >= 0x80
            && last_continuation_byte(c) >= 0x80) by (bit_vector)
            requires
                has_width_3_encoding(c),
        ;
    } else {
        assert(leading_byte_width_4(c) >= 0x80 && third_last_continuation_byte(c) >= 0x80
            && second_last_continuation_byte(c) >= 0x80 && last_continuation_byte(c) >= 0x80)
            by (bit_vector)
            requires
                has_width_4_encoding(c),
        ;
    }
}

/// Every byte of a string with only plain characters and those that may trail a command is one of
/// these, or means nothing.
proof fn lemma_tame_bytes(s: Seq<char>)
    requires
        forall|i: int| 0 <= i < s.len() ==> plain(#[trigger] s[i]) || s[i] == ';' || s[i] == '&',
    ensures
        forall|i: int|
            0 <= i < encode_utf8(s).len() ==> !special(#[trigger] encode_utf8(s)[i]) || encode_utf8(
                s,
            )[i] == SEMICOLON || encode_utf8(s)[i] == AMPERSAND,
    decreases s.len(),
{
    if s.len() > 0 {
        let rest = s.drop_first();
        let first = encode_scalar(s[0] as u32);
        char_is_scalar(s[0]);
        lemma_scalar_bytes(s[0] as u32);
        assert forall|i: int| 0 <= i < rest.len() implies plain(#[trigger] rest[i]) || rest[i] == ';'
            || rest[i] == '&' by {
            assert(rest[i] == s[i + 1]);
        }
        lemma_tame_bytes(rest);
        assert forall|i: int| 0 <= i < encode_utf8(s).len() implies !special(
            #[trigger] encode_utf8(s)[i],
        ) || encode_utf8(s)[i] == SEMICOLON || encode_utf8(s)[i] == AMPERSAND by {
            if i < first.len() {
                assert(encode_utf8(s)[i] == first[i]);
            } else {
                assert(encode_utf8(s)[i] == encode_utf8(rest)[i - first.len()]);
            }
        }
    }
}

/// No byte of a string with only plain characters means anything.
proof fn lemma_plain_bytes(s: Seq<char>)
    requires
        forall|i: int| 0 <= i < s.len() ==> plain(#[trigger] s[i]),
    ensures
        forall|i: int| 0 <= i < encode_utf8(s).len() ==> !special(#[trigger] encode_utf8(s)[i]),
    decreases s.len(),
{
    if s.len() > 0 {
        let rest = s.drop_first();
        let first = encode_scalar(s[0] as u32);
        char_is_scalar(s[0]);
        lemma_scalar_bytes(s[0] as u32);
        assert forall|i: int| 0 <= i < rest.len() implies plain(#[trigger] rest[i]) by {
            assert(rest[i] == s[i + 1]);
        }
        lemma_plain_bytes(rest);
        assert forall|i: int| 0 <= i < encode_utf8(s).len() implies !special(
            #[trigger] encode_utf8(s)[i],
        ) by {
            if i < first.len() {
                assert(encode_utf8(s)[i] == first[i]);
            } else {
                assert(encode_utf8(s)[i] == encode_utf8(rest)[i - first.len()]);
            }
        }
    }
}

/// The scanner outside of quotes passes over bytes that mean nothing.
proof fn lemma_plain_scan(bytes: Seq<u8>, i: int, j: int, lex: Lex)
    requires
        0 <= i <= j <= bytes.len(),
        lex.quote == Quote::Bare,
        forall|x: int| i <= x < j ==> !special(#[trigger] bytes[x]),
    ensures
        segments_from(bytes, i, lex) == segments_from(
            bytes,
            j,
            Lex {
                prev: if i < j {
                    bytes[j - 1]
                } else {
                    lex.prev
                },
                ..lex
            },
        ),
    decreases j - i,
{
    if i < j {
        assert(!special(bytes[i]));
        lemma_plain_scan(bytes, i + 1, j, Lex { prev: bytes[i], ..lex });
    }
}

/// Ranges that lie `d` bytes further.
spec fn shifted(segs: Seq<(int, int)>, d: int) -> Seq<(int, int)> {
    Seq::new(segs.len(), |k: int| (segs[k].0 + d, segs[k].1 + d))
}

/// What the scanner finds depends only on the bytes that are left.
proof fn lemma_shift(a: Seq<u8>, i: int, x: Lex, b: Seq<u8>, j: int, y: Lex)
    requires
        0 <= i <= a.len(),
        0 <= j <= b.len(),
        a.len() - i == b.len() - j,
        forall|k: int| 0 <= k < a.len() - i ==> #[trigger] a[i + k] == b[j + k],
        y == (Lex { start: x.start + (j - i), ..x }),
    ensures
        segments_from(b, j, y) == shifted(segments_from(a, i, x), j - i),
    decreases a.len() - i,
{
    let d = j - i;
    if i >= a.len() {
        assert(segments_from(b, j, y) =~= shifted(segments_from(a, i, x), d));
    } else {
        let c = a[i];
        assert(a[i + 0] == b[j + 0]);
        assert(i + 1 < a.len() ==> a[i + 1] == b[j + 1]);
        let top = x.quote == Quote::Bare && x.depth == 0;
        let cut = separator_len(a, i, x.prev);
        assert(cut == separator_len(b, j, y.prev));
        if top && c == HASH && word_start(x.prev) {
            assert(segments_from(b, j, y) =~= shifted(segments_from(a, i, x), d));
        } else if top && cut > 0 {
            let x2 = Lex { start: i + cut, prev: c, ..x };
            let y2 = Lex { start: j + cut, prev: c, ..y };
            assert forall|k: int| 0 <= k < a.len() - (i + cut) implies #[trigger] a[i + cut + k]
                == b[j + cut + k] by {
                assert(a[i + (cut + k)] == b[j + (cut + k)]);
            }
            lemma_shift(a, i + cut, x2, b, j + cut, y2);
            assert(segments_from(b, j, y) =~= shifted(segments_from(a, i, x), d));
        } else {
            let n = after_byte(a, i, x.quote);
            assert(after_byte(b, j, y.quote) == n + d);
            let x2 = Lex {
                quote: quote_after(x.quote, c),
                depth: depth_after(x.quote, x.depth, c),
                prev: c,
                ..x
            };
            let y2 = Lex { start: y.start, ..x2 };
            assert forall|k: int| 0 <= k < a.len() - n implies #[trigger] a[n + k] == b[n + d + k]
                by {
                assert(a[i + (n - i + k)] == b[j + (n - i + k)]);
            }
            lemma_shift(a, n, x2, b, n + d, y2);
        }
    }
}

/// Where the scanner takes one step that ends no segment.
proof fn lemma_step(bytes: Seq<u8>, i: int, lex: Lex)
    requires
        0 <= i < bytes.len(),
        !(lex.quote == Quote::Bare && lex.depth == 0 && (bytes[i] == HASH && word_start(lex.prev)
            || separator_len(bytes, i, lex.prev) > 0)),
    ensures
        segments_from(bytes, i, lex) == segments_from(
            bytes,
            after_byte(bytes, i, lex.quote),
            Lex {
                quote: quote_after(lex.quote, bytes[i]),
                depth: depth_after(lex.quote, lex.depth, bytes[i]),
                prev: bytes[i],
                ..lex
            },
        ),
{
}

/// Where the scanner ends a segment at a separator.
proof fn lemma_cut(bytes: Seq<u8>, i: int, lex: Lex)
    requires
        0 <= i < bytes.len(),
        lex.quote == Quote::Bare,
        lex.depth == 0,
        separator_len(bytes, i, lex.prev) > 0,
    ensures
        segments_from(bytes, i, lex) == seq![(lex.start, i)] + segments_from(
            bytes,
            i + separator_len(bytes, i, lex.prev),
            Lex { start: i + separator_len(bytes, i, lex.prev), prev: bytes[i], ..lex },
        ),
{
}

/// The same bytes up to `s`.
#[verifier::opaque]
spec fn agree(a: Seq<u8>, b: Seq<u8>, s: int) -> bool {
    forall|x: int| 0 <= x < s ==> #[trigger] a[x] == b[x]
}

proof fn lemma_agree(a: Seq<u8>, b: Seq<u8>, s: int, x: int)
    requires
        agree(a, b, s),
        0 <= x < s,
    ensures
        a[x] == b[x],
{
    reveal(agree);
}

/// A byte that no separator goes on with.
spec fn no_separator_goes_on(a: Seq<u8>, s: int) -> bool {
    s < a.len() ==> a[s] != GREATER && a[s] != AMPERSAND && a[s] != PIPE
}

/// The scanner at the start of a segment.
spec fn fresh(s: int, prev: u8) -> Lex {
    Lex { quote: Quote::Bare, depth: 0, start: s, prev }
}

/// Both lines have the same segments before the one that starts at `s`.
spec fn alike(a: Seq<u8>, b: Seq<u8>, i: int, lex: Lex, k: int, prev: u8) -> bool {
    let segs = segments_from(a, i, lex);
    let s = segs[k].0;
    &&& is_separator_byte(prev)
    &&& segs == segs.take(k) + segments_from(a, s, fresh(s, prev))
    &&& segments_from(b, i, lex) == segs.take(k) + segments_from(b, s, fresh(s, prev))
}

proof fn lemma_later_start(a: Seq<u8>, i: int, lex: Lex, k: int)
    requires
        0 <= lex.start <= i <= a.len(),
        0 < k < segments_from(a, i, lex).len(),
    ensures
        i < segments_from(a, i, lex)[k].0 <= a.len(),
        i < a.len(),
{
    lemma_segments_from_ok(a, i, lex);
    let segs = segments_from(a, i, lex);
    assert(segs[k - 1].1 >= i);
    assert(segs[k].0 > segs[k - 1].1);
}

proof fn lemma_alike_at_cut(a: Seq<u8>, b: Seq<u8>, i: int, lex: Lex)
    requires
        0 <= lex.start <= i < a.len(),
        i < b.len(),
        lex.quote == Quote::Bare && lex.depth == 0,
        separator_len(a, i, lex.prev) > 0,
        separator_len(b, i, lex.prev) == separator_len(a, i, lex.prev),
        a[i] == b[i],
    ensures
        alike(a, b, i, lex, 1, a[i]),
{
    let cut = separator_len(a, i, lex.prev);
    lemma_cut(a, i, lex);
    lemma_cut(b, i, lex);
    let segs = segments_from(a, i, lex);
    let at = fresh(i + cut, a[i]);
    let rest = segments_from(a, i + cut, at);
    lemma_segments_from_ok(a, i + cut, at);
    assert(segs == seq![(lex.start, i)] + rest);
    assert(segs[1] == rest[0]);
    assert(segs.take(1) =~= seq![(lex.start, i)]);
}

proof fn lemma_alike_after_cut(a: Seq<u8>, b: Seq<u8>, i: int, lex: Lex, k: int, prev: u8)
    requires
        0 <= i < a.len(),
        i < b.len(),
        k > 1,
        lex.quote == Quote::Bare && lex.depth == 0,
        separator_len(a, i, lex.prev) > 0,
        separator_len(b, i, lex.prev) == separator_len(a, i, lex.prev),
        a[i] == b[i],
        k - 1 < segments_from(
            a,
            i + separator_len(a, i, lex.prev),
            fresh(i + separator_len(a, i, lex.prev), a[i]),
        ).len(),
        alike(
            a,
            b,
            i + separator_len(a, i, lex.prev),
            fresh(i + separator_len(a, i, lex.prev), a[i]),
            k - 1,
            prev,
        ),
    ensures
        alike(a, b, i, lex, k, prev),
{
    let cut = separator_len(a, i, lex.prev);
    lemma_cut(a, i, lex);
    lemma_cut(b, i, lex);
    let segs = segments_from(a, i, lex);
    let at = fresh(i + cut, a[i]);
    let rest = segments_from(a, i + cut, at);
    assert(segs == seq![(lex.start, i)] + rest);
    assert(segs[k] == rest[k - 1]);
    let s = segs[k].0;
    let last = segments_from(a, s, fresh(s, prev));
    let last_b = segments_from(b, s, fresh(s, prev));
    assert(segs.take(k) =~= seq![(lex.start, i)] + rest.take(k - 1));
    assert(segs =~= segs.take(k) + last);
    assert(segments_from(b, i, lex) =~= segs.take(k) + last_b);
}

/// Two command lines with the same bytes up to the start of a segment of the first are scanned
/// alike up to there. Gives the byte scanned last.
proof fn lemma_same_prefix(a: Seq<u8>, b: Seq<u8>, i: int, lex: Lex, k: int) -> (prev: u8)
    requires
        0 <= lex.start <= i <= a.len(),
        0 < k < segments_from(a, i, lex).len(),
        segments_from(a, i, lex)[k].0 <= b.len(),
        agree(a, b, segments_from(a, i, lex)[k].0),
        no_separator_goes_on(a, segments_from(a, i, lex)[k].0),
        no_separator_goes_on(b, segments_from(a, i, lex)[k].0),
    ensures
        alike(a, b, i, lex, k, prev),
    decreases a.len() - i,
{
    let segs = segments_from(a, i, lex);
    let s = segs[k].0;
    lemma_later_start(a, i, lex, k);
    lemma_agree(a, b, s, i);
    let cut = separator_len(a, i, lex.prev);
    if i + 1 < s {
        lemma_agree(a, b, s, i + 1);
    }
    if lex.quote == Quote::Bare && lex.depth == 0 && a[i] == HASH && word_start(lex.prev) {
        assert(segs.len() == 1);
        arbitrary()
    } else if lex.quote == Quote::Bare && lex.depth == 0 && cut > 0 {
        lemma_cut(a, i, lex);
        let at = fresh(i + cut, a[i]);
        let rest = segments_from(a, i + cut, at);
        assert(segs == seq![(lex.start, i)] + rest);
        assert(segs[k] == rest[k - 1]);
        lemma_segments_from_ok(a, i + cut, at);
        if k == 1 {
            assert(s == i + cut);
            assert(separator_len(b, i, lex.prev) == cut);
            lemma_alike_at_cut(a, b, i, lex);
            a[i]
        } else {
            lemma_later_start(a, i + cut, at, k - 1);
            assert(separator_len(b, i, lex.prev) == cut);
            let prev = lemma_same_prefix(a, b, i + cut, at, k - 1);
            lemma_alike_after_cut(a, b, i, lex, k, prev);
            prev
        }
    } else {
        let n = after_byte(a, i, lex.quote);
        let lex2 = Lex {
            quote: quote_after(lex.quote, a[i]),
            depth: depth_after(lex.quote, lex.depth, a[i]),
            prev: a[i],
            ..lex
        };
        lemma_step(a, i, lex);
        assert(segs == segments_from(a, n, lex2));
        lemma_later_start(a, n, lex2, k);
        assert(i + 1 < s);
        assert(after_byte(b, i, lex.quote) == n);
        assert(separator_len(b, i, lex.prev) == cut);
        lemma_step(b, i, lex);
        lemma_same_prefix(a, b, n, lex2, k)
    }
}

/// A segment without anything but separators that means something has none of them either.
proof fn lemma_no_separator_inside(bytes: Seq<u8>, i: int, e: int, lex: Lex)
    requires
        0 <= lex.start <= i <= e <= bytes.len(),
        lex.quote == Quote::Bare,
        lex.depth == 0,
        lex.prev != GREATER && lex.prev != LESS,
        segments_from(bytes, i, lex)[0] == (lex.start, e),
        forall|x: int|
            i <= x < e ==> !special(#[trigger] bytes[x]) || bytes[x] == SEMICOLON || bytes[x]
                == AMPERSAND,
        e < bytes.len() ==> bytes[e] != GREATER,
    ensures
        forall|x: int| i <= x < e ==> !special(#[trigger] bytes[x]),
    decreases e - i,
{
    if i < e {
        let c = bytes[i];
        assert(!special(c) || c == SEMICOLON || c == AMPERSAND);
        let cut = separator_len(bytes, i, lex.prev);
        if special(c) {
            assert(i + 1 < bytes.len() ==> bytes[i + 1] != GREATER) by {
                if i + 1 < e {
                    assert(!special(bytes[i + 1]) || bytes[i + 1] == SEMICOLON || bytes[i + 1]
                        == AMPERSAND);
                }
            }
            assert(cut > 0);
            assert(segments_from(bytes, i, lex)[0] == (lex.start, i));
            assert(false);
        }
        assert(cut == 0);
        let lex2 = Lex { prev: c, ..lex };
        assert(segments_from(bytes, i, lex) == segments_from(bytes, i + 1, lex2));
        lemma_no_separator_inside(bytes, i + 1, e, lex2);
    }
}

proof fn lemma_trimmed_start(s: Seq<char>, k: CharClass)
    ensures
        forall|i: int|
            0 <= i < s.len() - trim_start_of(s, k).len() ==> k.holds(#[trigger] s[i]),
        trim_start_of(s, k).len() > 0 ==> !k.holds(trim_start_of(s, k)[0]),
        trim_start_of(s, k).len() <= s.len(),
    decreases s.len(),
{
    if s.len() > 0 && k.holds(s[0]) {
        let r = s.drop_first();
        lemma_trimmed_start(r, k);
        assert forall|i: int| 0 <= i < s.len() - trim_start_of(s, k).len() implies k.holds(
            #[trigger] s[i],
        ) by {
            if i > 0 {
                assert(r[i - 1] == s[i]);
            }
        }
    }
}

proof fn lemma_trimmed_end(s: Seq<char>, k: CharClass)
    ensures
        forall|i: int| trim_end_of(s, k).len() <= i < s.len() ==> k.holds(#[trigger] s[i]),
        trim_end_of(s, k).len() > 0 ==> !k.holds(trim_end_of(s, k).last()),
        trim_end_of(s, k).len() <= s.len(),
    decreases s.len(),
{
    if s.len() > 0 && k.holds(s.last()) {
        let r = s.drop_last();
        lemma_trimmed_end(r, k);
        assert forall|i: int| trim_end_of(s, k).len() <= i < s.len() implies k.holds(
            #[trigger] s[i],
        ) by {
            if i < r.len() {
                assert(r[i] == s[i]);
            }
        }
    }
}

/// A string that is not blank is its leading white space, its middle, and its trailing white space.
proof fn lemma_three_parts(s: Seq<char>)
    requires
        !is_blank(s),
    ensures
        s == leading_white(s) + trim_of(s) + trailing_white(s),
        forall|i: int| 0 <= i < leading_white(s).len() ==> is_white(#[trigger] leading_white(s)[i]),
        forall|i: int|
            0 <= i < trailing_white(s).len() ==> is_white(#[trigger] trailing_white(s)[i]),
        !is_white(trim_of(s)[0]),
        !is_white(trim_of(s).last()),
{
    let k = CharClass::White;
    let a = trim_start_of(s, k);
    let m = trim_of(s);
    let lead = s.len() - a.len();
    lemma_trim_start_suffix(s, k);
    lemma_trimmed_start(s, k);
    lemma_trim_end_prefix(a, k);
    lemma_trimmed_end(a, k);
    lemma_trim_end_skip(s, lead);
    let e = trim_end_of(s, k);
    lemma_trim_end_prefix(s, k);
    lemma_trimmed_end(s, k);
    assert(a[0] == m[0]);
    assert(e.len() == lead + m.len());
    assert(s =~= leading_white(s) + m + trailing_white(s)) by {
        assert(m =~= s.subrange(lead, lead + m.len()));
    }
    assert forall|i: int| 0 <= i < trailing_white(s).len() implies is_white(
        #[trigger] trailing_white(s)[i],
    ) by {
        assert(trailing_white(s)[i] == s[e.len() + i]);
        assert(k.holds(s[e.len() + i]));
    }
    assert forall|i: int| 0 <= i < leading_white(s).len() implies is_white(
        #[trigger] leading_white(s)[i],
    ) by {
        assert(k.holds(s[i]));
    }
}

/// Trimming the end does not look at what lies before the last character that is kept.
proof fn lemma_trim_end_skip(s: Seq<char>, n: int)
    requires
        0 <= n <= s.len(),
        trim_end_of(s.skip(n), CharClass::White).len() > 0,
    ensures
        trim_end_of(s, CharClass::White).len() == n + trim_end_of(s.skip(n), CharClass::White).len(),
    decreases s.len(),
{
    let k = CharClass::White;
    let r = s.skip(n);
    lemma_trimmed_end(r, k);
    if r.len() > 0 && k.holds(r.last()) {
        assert(s.last() == r.last());
        assert(s.drop_last().skip(n) =~= r.drop_last());
        lemma_trim_end_skip(s.drop_last(), n);
    } else {
        assert(s.last() == r.last());
    }
}

/// White space around something that has none at its ends is all that trimming takes away.
proof fn lemma_trim_back(lead: Seq<char>, m: Seq<char>, trail: Seq<char>)
    requires
        m.len() > 0,
        !is_white(m[0]),
        !is_white(m.last()),
        forall|i: int| 0 <= i < lead.len() ==> is_white(#[trigger] lead[i]),
        forall|i: int| 0 <= i < trail.len() ==> is_white(#[trigger] trail[i]),
    ensures
        trim_of(lead + m + trail) == m,
    decreases lead.len() + trail.len(),
{
    let k = CharClass::White;
    let s = lead + m + trail;
    if lead.len() > 0 {
        assert(s[0] == lead[0]);
        assert(s.drop_first() =~= lead.drop_first() + m + trail);
        assert forall|i: int| 0 <= i < lead.drop_first().len() implies is_white(
            #[trigger] lead.drop_first()[i],
        ) by {
            assert(lead.drop_first()[i] == lead[i + 1]);
        }
        lemma_trim_back(lead.drop_first(), m, trail);
    } else {
        assert(s[0] == m[0]);
        assert(trim_start_of(s, k) == s);
        if trail.len() > 0 {
            assert(s.last() == trail.last());
            assert(is_white(trail[trail.len() - 1]));
            assert(s.drop_last() =~= lead + m + trail.drop_last());
            assert forall|i: int| 0 <= i < trail.drop_last().len() implies is_white(
                #[trigger] trail.drop_last()[i],
            ) by {
                assert(trail.drop_last()[i] == trail[i]);
            }
            lemma_trim_back(lead, m, trail.drop_last());
            assert(s.drop_last()[0] == m[0]);
            assert(trim_start_of(s.drop_last(), k) == s.drop_last());
        } else {
            assert(s =~= m);
        }
    }
}

/// A string is plain where its words are.
proof fn lemma_plain_words(s: Seq<char>)
    requires
        forall|w: int, i: int|
            0 <= w < words_of(s).len() && 0 <= i < words_of(s)[w].len() ==> plain(
                #[trigger] words_of(s)[w][i],
            ),
    ensures
        forall|i: int| 0 <= i < s.len() ==> plain(#[trigger] s[i]),
    decreases s.len(),
{
    if s.len() == 0 {
    } else if is_white(s[0]) {
        let r = s.drop_first();
        assert(words_of(s) == words_of(r));
        lemma_plain_words(r);
        assert(plain(s[0]));
        assert forall|i: int| 0 <= i < s.len() implies plain(#[trigger] s[i]) by {
            if i > 0 {
                assert(r[i - 1] == s[i]);
            }
        }
    } else {
        let n = word_len(s);
        lemma_word_len(s);
        let r = s.skip(n as int);
        assert(words_of(s) == seq![s.take(n as int)] + words_of(r));
        assert forall|w: int, i: int|
            0 <= w < words_of(r).len() && 0 <= i < words_of(r)[w].len() implies plain(
            #[trigger] words_of(r)[w][i],
        ) by {
            assert(words_of(r)[w] == words_of(s)[w + 1]);
            assert(plain(words_of(s)[w + 1][i]));
        }
        lemma_plain_words(r);
        assert forall|i: int| 0 <= i < s.len() implies plain(#[trigger] s[i]) by {
            if i < n {
                assert(words_of(s)[0] == s.take(n as int));
                assert(plain(words_of(s)[0][i]));
                assert(words_of(s)[0][i] == s[i]);
            } else {
                assert(r[i - n] == s[i]);
            }
        }
    }
}

proof fn lemma_word_len(s: Seq<char>)
    ensures
        word_len(s) <= s.len(),
        s.len() > 0 && !is_white(s[0]) ==> word_len(s) > 0,
    decreases s.len(),
{
    if s.len() > 0 && !is_white(s[0]) {
        lemma_word_len(s.drop_first());
    }
}

/// The body of an `exit` is plain.
proof fn lemma_exit_is_plain(text: Seq<char>)
    requires
        is_exit(text),
    ensures
        ({
            let body = (session_ender(text)->0).1;
            &&& body.len() > 0
            &&& forall|i: int| 0 <= i < body.len() ==> plain(#[trigger] body[i])
        }),
{
    let body = (session_ender(text)->0).1;
    let w = words_of(body);
    reveal_strlit("exit");
    assert(w[0] == "exit"@);
    assert forall|a: int, i: int| 0 <= a < w.len() && 0 <= i < w[a].len() implies plain(
        #[trigger] w[a][i],
    ) by {
        if a == 1 {
            assert(is_integer(w[1]));
            if w[1][0] == '-' {
                if i > 0 {
                    assert(w[1].skip(1)[i - 1] == w[1][i]);
                }
            }
        }
    }
    lemma_plain_words(body);
}

/// A command in parentheses is a command, and not one that ends the session.
proof fn lemma_subshell_ends_nothing(lead: Seq<char>, body: Seq<char>, trail: Seq<char>)
    requires
        forall|i: int| 0 <= i < lead.len() ==> is_white(#[trigger] lead[i]),
        forall|i: int| 0 <= i < trail.len() ==> is_white(#[trigger] trail[i]),
    ensures
        session_ender(lead + (seq!['('] + body + seq![')']) + trail) is None,
        !is_blank(lead + (seq!['('] + body + seq![')']) + trail),
{
    let m = seq!['('] + body + seq![')'];
    lemma_trim_back(lead, m, trail);
    let s = lead + m + trail;
    assert(trim_of(s) == m);
    assert(m.last() == ')');
    assert(trim_end_of(m, CharClass::CommandTail) == m);
    lemma_word_len(m);
    let w = words_of(m);
    assert(w[0] == m.take(word_len(m) as int));
    assert(w[0][0] == '(');
    reveal_strlit("exit");
    reveal_strlit("logout");
}

proof fn lemma_blank_ends_nothing(text: Seq<char>)
    requires
        is_blank(text),
    ensures
        session_ender(text) is None,
{
    assert(trim_of(text) =~= Seq::empty());
    assert(trim_end_of(trim_of(text), CharClass::CommandTail) =~= Seq::empty());
    assert(words_of(trim_end_of(trim_of(text), CharClass::CommandTail)).len() == 0);
}

/// The last command of a line, and that only blank segments lie behind it.
proof fn lemma_last_command(command: Seq<char>, n: int)
    requires
        0 <= n <= segments_of(command).len(),
    ensures
        match last_command(command, n) {
            Some(k) => {
                &&& 0 <= k < n
                &&& !is_blank(segment_text(command, k))
                &&& forall|j: int| k < j < n ==> is_blank(#[trigger] segment_text(command, j))
            },
            None => forall|j: int| 0 <= j < n ==> is_blank(#[trigger] segment_text(command, j)),
        },
    decreases n,
{
    if n > 0 && is_blank(segment_text(command, n - 1)) {
        lemma_last_command(command, n - 1);
    }
}

proof fn lemma_slice_bytes(s: Seq<char>, a: int, b: int)
    requires
        0 <= a <= b <= encode_utf8(s).len(),
        is_char_boundary(encode_utf8(s), a),
        is_char_boundary(encode_utf8(s), b),
    ensures
        encode_utf8(byte_slice(s, a, b)) == encode_utf8(s).subrange(a, b),
{
    encode_utf8_valid_utf8(s);
    lemma_boundary_in_prefix(encode_utf8(s), a, b);
    decode_utf8_encode_utf8(encode_utf8(s).subrange(a, b));
}

/// Both scanners end their segment, at `e` and at `f`, and find the same from there on.
proof fn lemma_ends_alike(a: Seq<u8>, e: int, x: Lex, b: Seq<u8>, f: int, prev: u8)
    requires
        0 <= x.start <= e <= a.len(),
        x.start <= f <= b.len(),
        a.len() - e == b.len() - f,
        forall|k: int| 0 <= k < a.len() - e ==> #[trigger] a[e + k] == b[f + k],
        x.quote == Quote::Bare && x.depth == 0,
        x.prev != GREATER && x.prev != LESS,
        prev != GREATER && prev != LESS,
        word_start(x.prev) ==> word_start(prev),
        segments_from(a, e, x)[0] == (x.start, e),
    ensures
        segments_from(b, f, Lex { prev, ..x }) == seq![(x.start, f)] + shifted(
            segments_from(a, e, x).skip(1),
            f - e,
        ),
{
    let y = Lex { prev, ..x };
    let d = f - e;
    let segs = segments_from(a, e, x);
    if e == a.len() {
        assert(segments_from(b, f, y) =~= seq![(x.start, f)] + shifted(segs.skip(1), d));
    } else {
        assert(a[e + 0] == b[f + 0]);
        assert(e + 1 < a.len() ==> a[e + 1] == b[f + 1]);
        let cut = separator_len(a, e, x.prev);
        assert(separator_len(b, f, prev) == cut);
        if a[e] == HASH && word_start(x.prev) {
            assert(segments_from(b, f, y) =~= seq![(x.start, f)] + shifted(segs.skip(1), d));
        } else if cut > 0 {
            lemma_cut(a, e, x);
            lemma_cut(b, f, y);
            let x2 = Lex { start: e + cut, prev: a[e], ..x };
            let y2 = Lex { start: f + cut, prev: a[e], ..x };
            assert forall|k: int| 0 <= k < a.len() - (e + cut) implies #[trigger] a[e + cut + k]
                == b[f + cut + k] by {
                assert(a[e + (cut + k)] == b[f + (cut + k)]);
            }
            lemma_shift(a, e + cut, x2, b, f + cut, y2);
            assert(segs.skip(1) =~= segments_from(a, e + cut, x2));
        } else {
            lemma_step(a, e, x);
            let n = after_byte(a, e, x.quote);
            let x2 = Lex {
                quote: quote_after(x.quote, a[e]),
                depth: depth_after(x.quote, x.depth, a[e]),
                prev: a[e],
                ..x
            };
            lemma_segments_from_ok(a, n, x2);
            assert(segments_from(a, n, x2)[0].1 >= n);
            assert(false);
        }
    }
}

/// A command in parentheses: the scanner passes over it.
proof fn lemma_scan_subshell(
    bytes: Seq<u8>,
    s: int,
    lead: Seq<u8>,
    body: Seq<u8>,
    trail: Seq<u8>,
    lex: Lex,
)
    requires
        0 <= s,
        s + lead.len() + body.len() + trail.len() + 2 <= bytes.len(),
        lex.quote == Quote::Bare && lex.depth == 0,
        bytes.subrange(s, s + lead.len() + body.len() + trail.len() + 2) == lead + seq![OPEN] + body
            + seq![CLOSE] + trail,
        forall|i: int| 0 <= i < lead.len() ==> !special(#[trigger] lead[i]),
        forall|i: int| 0 <= i < body.len() ==> !special(#[trigger] body[i]),
        forall|i: int| 0 <= i < trail.len() ==> !special(#[trigger] trail[i]),
    ensures
        segments_from(bytes, s, lex) == segments_from(
            bytes,
            s + lead.len() + body.len() + trail.len() + 2,
            Lex {
                prev: if trail.len() > 0 {
                    trail.last()
                } else {
                    CLOSE
                },
                ..lex
            },
        ),
{
    let part = bytes.subrange(s, s + lead.len() + body.len() + trail.len() + 2);
    let p = s + lead.len();
    let q = p + 1 + body.len();
    let e = q + 1 + trail.len();
    assert forall|x: int| s <= x < p implies !special(#[trigger] bytes[x]) by {
        assert(bytes[x] == part[x - s]);
        assert(part[x - s] == lead[x - s]);
    }
    assert(bytes[p] == OPEN) by {
        assert(bytes[p] == part[p - s]);
    }
    assert forall|x: int| p + 1 <= x < q implies !special(#[trigger] bytes[x]) by {
        assert(bytes[x] == part[x - s]);
        assert(part[x - s] == body[x - p - 1]);
    }
    assert(bytes[q] == CLOSE) by {
        assert(bytes[q] == part[q - s]);
    }
    assert forall|x: int| q + 1 <= x < e implies !special(#[trigger] bytes[x]) && bytes[x] == trail[x
        - q - 1] by {
        assert(bytes[x] == part[x - s]);
        assert(part[x - s] == trail[x - q - 1]);
    }
    lemma_plain_scan(bytes, s, p, lex);
    let at_open = Lex {
        prev: if s < p {
            bytes[p - 1]
        } else {
            lex.prev
        },
        ..lex
    };
    lemma_step(bytes, p, at_open);
    let inside = Lex { depth: 1, prev: OPEN, ..lex };
    lemma_plain_scan(bytes, p + 1, q, inside);
    let at_close = Lex {
        prev: if p + 1 < q {
            bytes[q - 1]
        } else {
            OPEN
        },
        ..inside
    };
    lemma_step(bytes, q, at_close);
    let outside = Lex { prev: CLOSE, ..lex };
    lemma_plain_scan(bytes, q + 1, e, outside);
}

/// The characters of a segment that is an `exit`: white space, its body, what may trail a command,
/// and white space.
proof fn lemma_exit_text(text: Seq<char>)
    requires
        is_exit(text),
    ensures
        ({
            let body = (session_ender(text)->0).1;
            let m = trim_of(text);
            &&& text == leading_white(text) + m + trailing_white(text)
            &&& body == m.take(body.len() as int)
            &&& 0 < body.len() <= m.len()
            &&& !is_white(m.last())
            &&& forall|i: int| body.len() <= i < m.len() ==> CharClass::CommandTail.holds(
                #[trigger] m[i],
            )
            &&& forall|i: int| 0 <= i < body.len() ==> plain(#[trigger] body[i])
            &&& forall|i: int|
                0 <= i < leading_white(text).len() ==> is_white(#[trigger] leading_white(text)[i])
            &&& forall|i: int|
                0 <= i < trailing_white(text).len() ==> is_white(
                    #[trigger] trailing_white(text)[i],
                )
            &&& plain(text[0])
            &&& forall|i: int|
                0 <= i < text.len() ==> plain(#[trigger] text[i]) || text[i] == ';' || text[i] == '&'
        }),
{
    let body = (session_ender(text)->0).1;
    let m = trim_of(text);
    let lead = leading_white(text);
    let trail = trailing_white(text);
    if is_blank(text) {
        lemma_blank_ends_nothing(text);
    }
    lemma_three_parts(text);
    lemma_exit_is_plain(text);
    lemma_trim_end_prefix(m, CharClass::CommandTail);
    lemma_trimmed_end(m, CharClass::CommandTail);
    assert forall|i: int| 0 <= i < text.len() implies plain(#[trigger] text[i]) || text[i] == ';'
        || text[i] == '&' by {
        if i < lead.len() {
            assert(text[i] == lead[i]);
        } else if i < lead.len() + m.len() {
            assert(text[i] == m[i - lead.len()]);
            if i - lead.len() < body.len() {
                assert(m[i - lead.len()] == body[i - lead.len()]);
            }
        } else {
            assert(text[i] == trail[i - lead.len() - m.len()]);
        }
    }
    assert(plain(text[0])) by {
        if lead.len() > 0 {
            assert(text[0] == lead[0]);
        } else {
            assert(text[0] == m[0]);
            assert(m[0] == body[0]);
        }
    }
}

proof fn lemma_white_is_plain(s: Seq<char>)
    requires
        forall|i: int| 0 <= i < s.len() ==> is_white(#[trigger] s[i]),
    ensures
        forall|i: int| 0 <= i < s.len() ==> plain(#[trigger] s[i]),
{
}

proof fn lemma_first_byte(s: Seq<char>)
    requires
        s.len() > 0,
        plain(s[0]),
    ensures
        encode_utf8(s).len() > 0,
        !special(encode_utf8(s)[0]),
{
    char_is_scalar(s[0]);
    lemma_scalar_bytes(s[0] as u32);
    let first = encode_scalar(s[0] as u32);
    assert(first.len() > 0);
    assert(encode_utf8(s)[0] == first[0]);
}

proof fn lemma_one_char(c: char)
    requires
        (c as u32) < 0x80,
    ensures
        encode_utf8(seq![c]) == seq![(c as u32) as u8],
{
    char_is_scalar(c);
    lemma_scalar_bytes(c as u32);
    let s = seq![c];
    assert(s.drop_first() =~= Seq::<char>::empty());
    assert(encode_utf8(s.drop_first()) =~= Seq::<u8>::empty());
    assert(encode_utf8(s) =~= encode_scalar(c as u32));
}

/// The command in its subshell, with the white space around it.
spec fn in_subshell(text: Seq<char>) -> Seq<char> {
    leading_white(text) + (seq!['('] + (session_ender(text)->0).1 + seq![')']) + trailing_white(text)
}

/// The bytes of a line whose `exit` is in a subshell.
proof fn lemma_wrapped_bytes(command: Seq<char>, k: int)
    requires
        last_command(command, segments_of(command).len() as int) == Some(k),
        0 <= k < segments_of(command).len(),
        is_exit(segment_text(command, k)),
    ensures
        ({
            let text = segment_text(command, k);
            let bytes = encode_utf8(command);
            let (s, e) = segments_of(command)[k];
            &&& 0 <= s <= e <= bytes.len()
            &&& bytes.subrange(s, e) == encode_utf8(text)
            &&& encode_utf8(wrapped(command)) == bytes.subrange(0, s) + encode_utf8(
                in_subshell(text),
            ) + bytes.subrange(e, bytes.len() as int)
            &&& encode_utf8(in_subshell(text)) == encode_utf8(leading_white(text)) + seq![OPEN]
                + encode_utf8((session_ender(text)->0).1) + seq![CLOSE] + encode_utf8(
                trailing_white(text),
            )
        }),
{
    let text = segment_text(command, k);
    let bytes = encode_utf8(command);
    let (s, e) = segments_of(command)[k];
    let n = bytes.len() as int;
    let lead = leading_white(text);
    let body = (session_ender(text)->0).1;
    let trail = trailing_white(text);
    lemma_segment_boundaries(command, k);
    encode_utf8_valid_utf8(command);
    is_char_boundary_start_end_of_seq(bytes);
    lemma_slice_bytes(command, 0, s);
    lemma_slice_bytes(command, s, e);
    lemma_slice_bytes(command, e, n);
    let before = byte_slice(command, 0, s);
    let after = byte_slice(command, e, n);
    reveal_strlit("(");
    reveal_strlit(")");
    assert("("@ =~= seq!['(']);
    assert(")"@ =~= seq![')']);
    assert(wrapped(command) =~= before + in_subshell(text) + after);
    lemma_encode_concat(before + in_subshell(text), after);
    lemma_encode_concat(before, in_subshell(text));
    let inner = seq!['('] + body + seq![')'];
    lemma_encode_concat(lead + inner, trail);
    lemma_encode_concat(lead, inner);
    lemma_encode_concat(seq!['('] + body, seq![')']);
    lemma_encode_concat(seq!['('], body);
    lemma_one_char('(');
    lemma_one_char(')');
    assert(encode_utf8(in_subshell(text)) =~= encode_utf8(lead) + seq![OPEN] + encode_utf8(body)
        + seq![CLOSE] + encode_utf8(trail));
}

/// How both lines are scanned up to the segment that is put in a subshell. Gives the byte scanned
/// last.
proof fn lemma_scanned_to(command: Seq<char>, k: int) -> (prev: u8)
    requires
        last_command(command, segments_of(command).len() as int) == Some(k),
        0 <= k < segments_of(command).len(),
        is_exit(segment_text(command, k)),
    ensures
        ({
            let segs = segments_of(command);
            let s = segs[k].0;
            &&& prev != GREATER && prev != LESS
            &&& segs == segs.take(k) + segments_from(encode_utf8(command), s, fresh(s, prev))
            &&& segments_of(wrapped(command)) == segs.take(k) + segments_from(
                encode_utf8(wrapped(command)),
                s,
                fresh(s, prev),
            )
        }),
{
    let a = encode_utf8(command);
    let b = encode_utf8(wrapped(command));
    let segs = segments_of(command);
    let (s, e) = segs[k];
    let text = segment_text(command, k);
    segments_partition_the_line(command);
    if k == 0 {
        assert(s == 0);
        assert(segs.take(0) =~= Seq::empty());
        assert(segs =~= segs.take(0) + segments_from(a, 0, lex_init()));
        assert(segments_of(wrapped(command)) =~= segs.take(0) + segments_from(b, 0, lex_init()));
        0
    } else {
        lemma_wrapped_bytes(command, k);
        lemma_exit_text(text);
        lemma_first_byte(text);
        assert(a.subrange(s, e)[0] == a[s]);
        assert(no_separator_goes_on(a, s));
        assert(agree(a, b, s)) by {
            reveal(agree);
            assert forall|x: int| 0 <= x < s implies #[trigger] a[x] == b[x] by {
                assert(a.subrange(0, s)[x] == a[x]);
            }
        }
        let lead = leading_white(text);
        let enc = encode_utf8(in_subshell(text));
        assert(b[s] == enc[0]);
        lemma_white_is_plain(lead);
        if lead.len() > 0 {
            lemma_first_byte(lead);
            assert(enc[0] == encode_utf8(lead)[0]);
        } else {
            assert(encode_utf8(lead) =~= Seq::<u8>::empty());
            assert(enc[0] == OPEN);
        }
        assert(no_separator_goes_on(b, s));
        lemma_same_prefix(a, b, 0, lex_init(), k)
    }
}

/// The bytes of an `exit` that is a segment.
proof fn lemma_exit_bytes(command: Seq<char>, k: int)
    requires
        last_command(command, segments_of(command).len() as int) == Some(k),
        0 <= k < segments_of(command).len(),
        is_exit(segment_text(command, k)),
    ensures
        ({
            let a = encode_utf8(command);
            let (s, e) = segments_of(command)[k];
            &&& 0 <= s < e <= a.len()
            &&& forall|x: int|
                s <= x < e ==> !special(#[trigger] a[x]) || a[x] == SEMICOLON || a[x] == AMPERSAND
        }),
{
    let a = encode_utf8(command);
    let (s, e) = segments_of(command)[k];
    let text = segment_text(command, k);
    lemma_wrapped_bytes(command, k);
    lemma_exit_text(text);
    lemma_first_byte(text);
    lemma_tame_bytes(text);
    assert(a.subrange(s, e).len() > 0);
    assert forall|x: int| s <= x < e implies !special(#[trigger] a[x]) || a[x] == SEMICOLON || a[x]
        == AMPERSAND by {
        assert(a[x] == a.subrange(s, e)[x - s]);
    }
}

/// What lies behind a segment is no redirection.
proof fn lemma_behind(command: Seq<char>, k: int)
    requires
        0 <= k < segments_of(command).len(),
    ensures
        segments_of(command)[k].1 < encode_utf8(command).len()
            ==> encode_utf8(command)[segments_of(command)[k].1] != GREATER,
{
    let a = encode_utf8(command);
    let segs = segments_of(command);
    segments_partition_the_line(command);
    if k + 1 < segs.len() {
        assert(segs[k + 1].0 > segs[k + 1 - 1].1);
    } else {
        assert(segs.last() == segs[k]);
    }
}

/// The scanner passes over an `exit` that is a segment.
proof fn lemma_exit_scanned(command: Seq<char>, k: int, prev: u8)
    requires
        last_command(command, segments_of(command).len() as int) == Some(k),
        0 <= k < segments_of(command).len(),
        is_exit(segment_text(command, k)),
        prev != GREATER && prev != LESS,
        segments_from(
            encode_utf8(command),
            segments_of(command)[k].0,
            fresh(segments_of(command)[k].0, prev),
        )[0] == segments_of(command)[k],
    ensures
        ({
            let a = encode_utf8(command);
            let (s, e) = segments_of(command)[k];
            &&& s < e
            &&& forall|x: int| s <= x < e ==> !special(#[trigger] a[x])
            &&& segments_from(a, s, fresh(s, prev)) == segments_from(a, e, fresh(s, a[e - 1]))
        }),
{
    let a = encode_utf8(command);
    let (s, e) = segments_of(command)[k];
    lemma_exit_bytes(command, k);
    lemma_behind(command, k);
    lemma_no_separator_inside(a, s, e, fresh(s, prev));
    lemma_plain_scan(a, s, e, fresh(s, prev));
}

/// The byte scanned last in a segment that was put in a subshell.
spec fn last_byte(text: Seq<char>) -> u8 {
    let trail = encode_utf8(trailing_white(text));
    if trail.len() > 0 {
        trail.last()
    } else {
        CLOSE
    }
}

/// The scanner passes over the `exit` in its subshell.
proof fn lemma_subshell_scanned(command: Seq<char>, k: int, prev: u8)
    requires
        last_command(command, segments_of(command).len() as int) == Some(k),
        0 <= k < segments_of(command).len(),
        is_exit(segment_text(command, k)),
    ensures
        ({
            let a = encode_utf8(command);
            let b = encode_utf8(wrapped(command));
            let text = segment_text(command, k);
            let (s, e) = segments_of(command)[k];
            let f = s + encode_utf8(in_subshell(text)).len();
            let last = last_byte(text);
            &&& f <= b.len()
            &&& segments_from(b, s, fresh(s, prev)) == segments_from(b, f, fresh(s, last))
            &&& last != GREATER && last != LESS
            &&& last == CLOSE || (s < e && last == a[e - 1])
        }),
{
    let a = encode_utf8(command);
    let b = encode_utf8(wrapped(command));
    let text = segment_text(command, k);
    let (s, e) = segments_of(command)[k];
    let lead = encode_utf8(leading_white(text));
    let body = encode_utf8((session_ender(text)->0).1);
    let trail = encode_utf8(trailing_white(text));
    let enc = encode_utf8(in_subshell(text));
    let f = s + enc.len();
    lemma_wrapped_bytes(command, k);
    lemma_exit_text(text);
    lemma_white_is_plain(leading_white(text));
    lemma_white_is_plain(trailing_white(text));
    lemma_plain_bytes(leading_white(text));
    lemma_plain_bytes(trailing_white(text));
    lemma_plain_bytes((session_ender(text)->0).1);
    assert(b.subrange(s, f) =~= enc);
    lemma_scan_subshell(b, s, lead, body, trail, fresh(s, prev));
    if trail.len() > 0 {
        assert(!special(trail[trail.len() - 1]));
        let m = leading_white(text) + trim_of(text);
        lemma_encode_concat(m, trailing_white(text));
        assert(encode_utf8(text) == encode_utf8(m) + trail);
        assert(a.subrange(s, e).last() == a[e - 1]);
    }
}

/// The segments of a line whose `exit` is in a subshell: the same before it, the same after it.
proof fn lemma_wrapped_ranges(command: Seq<char>, k: int)
    requires
        last_command(command, segments_of(command).len() as int) == Some(k),
        0 <= k < segments_of(command).len(),
        is_exit(segment_text(command, k)),
    ensures
        ({
            let segs = segments_of(command);
            let (s, e) = segs[k];
            let f = s + encode_utf8(in_subshell(segment_text(command, k))).len();
            &&& segments_of(wrapped(command)) == segs.take(k) + seq![(s, f)] + shifted(
                segs.skip(k + 1),
                f - e,
            )
            &&& forall|x: int| s <= x < e ==> !special(#[trigger] encode_utf8(command)[x])
        }),
{
    let a = encode_utf8(command);
    let b = encode_utf8(wrapped(command));
    let segs = segments_of(command);
    let (s, e) = segs[k];
    let text = segment_text(command, k);
    let f = s + encode_utf8(in_subshell(text)).len();
    let prev = lemma_scanned_to(command, k);
    let rest = segments_from(a, s, fresh(s, prev));
    lemma_segment_boundaries(command, k);
    lemma_segments_from_ok(a, s, fresh(s, prev));
    assert(segs[k] == rest[0]);
    lemma_exit_scanned(command, k, prev);
    lemma_subshell_scanned(command, k, prev);
    lemma_rest_alike(command, k);
    let x = fresh(s, a[e - 1]);
    lemma_ends_alike(a, e, x, b, f, last_byte(text));
    assert(rest =~= segs.skip(k));
    assert(segs.skip(k).skip(1) =~= segs.skip(k + 1));
    assert(segments_of(wrapped(command)) =~= segs.take(k) + seq![(s, f)] + shifted(
        segs.skip(k + 1),
        f - e,
    ));
}

proof fn lemma_rest_alike(command: Seq<char>, k: int)
    requires
        last_command(command, segments_of(command).len() as int) == Some(k),
        0 <= k < segments_of(command).len(),
        is_exit(segment_text(command, k)),
    ensures
        ({
            let a = encode_utf8(command);
            let b = encode_utf8(wrapped(command));
            let (s, e) = segments_of(command)[k];
            let f = s + encode_utf8(in_subshell(segment_text(command, k))).len();
            &&& a.len() - e == b.len() - f
            &&& forall|j: int| 0 <= j < a.len() - e ==> #[trigger] a[e + j] == b[f + j]
        }),
{
    let a = encode_utf8(command);
    let b = encode_utf8(wrapped(command));
    let (s, e) = segments_of(command)[k];
    let f = s + encode_utf8(in_subshell(segment_text(command, k))).len();
    lemma_wrapped_bytes(command, k);
    assert forall|j: int| 0 <= j < a.len() - e implies #[trigger] a[e + j] == b[f + j] by {
        assert(b[f + j] == a.subrange(e, a.len() as int)[j]);
    }
}

/// A command beside the `exit` that is put in a subshell stays as it is.
proof fn lemma_wrapped_other(command: Seq<char>, k: int, j: int)
    requires
        last_command(command, segments_of(command).len() as int) == Some(k),
        0 <= k < segments_of(command).len(),
        0 <= j < segments_of(command).len(),
        j != k,
        is_exit(segment_text(command, k)),
    ensures
        segment_text(wrapped(command), j) == segment_text(command, j),
{
    let a = encode_utf8(command);
    let b = encode_utf8(wrapped(command));
    let segs = segments_of(command);
    let now = segments_of(wrapped(command));
    let (s, e) = segs[k];
    let (p, q) = segs[j];
    let f = s + encode_utf8(in_subshell(segment_text(command, k))).len();
    lemma_wrapped_ranges(command, k);
    segments_partition_the_line(command);
    lemma_segment_order(a, segs, j, k);
    if j < k {
        assert(now[j] == segs[j]);
        assert(b.subrange(p, q) =~= a.subrange(p, q)) by {
            lemma_wrapped_bytes(command, k);
            assert forall|x: int| p <= x < q implies a[x] == b[x] by {
                assert(a.subrange(0, s)[x] == a[x]);
            }
        }
    } else {
        let d = f - e;
        assert(segs.skip(k + 1)[j - k - 1] == segs[j]);
        assert(now[j] == (p + d, q + d));
        assert(b.subrange(p + d, q + d) =~= a.subrange(p, q)) by {
            lemma_rest_alike(command, k);
            assert forall|x: int| p <= x < q implies a[x] == b[x + d] by {
                assert(a[e + (x - e)] == b[f + (x - e)]);
            }
        }
    }
}

/// The commands of a line whose `exit` is in a subshell.
proof fn lemma_wrapped_texts(command: Seq<char>, k: int)
    requires
        last_command(command, segments_of(command).len() as int) == Some(k),
        0 <= k < segments_of(command).len(),
        is_exit(segment_text(command, k)),
    ensures
        segments_of(wrapped(command)).len() == segments_of(command).len(),
        segment_text(wrapped(command), k) == in_subshell(segment_text(command, k)),
        forall|j: int|
            0 <= j < segments_of(command).len() && j != k ==> #[trigger] segment_text(
                wrapped(command),
                j,
            ) == segment_text(command, j),
{
    let b = encode_utf8(wrapped(command));
    let now = segments_of(wrapped(command));
    let s = segments_of(command)[k].0;
    let text = segment_text(command, k);
    let enc = encode_utf8(in_subshell(text));
    lemma_wrapped_ranges(command, k);
    assert(now[k] == (s, s + enc.len()));
    assert(b.subrange(s, s + enc.len()) =~= enc) by {
        lemma_wrapped_bytes(command, k);
        lemma_segment_boundaries(command, k);
    }
    encode_utf8_decode_utf8(in_subshell(text));
    assert forall|j: int| 0 <= j < segments_of(command).len() && j != k implies #[trigger]
        segment_text(wrapped(command), j) == segment_text(command, j) by {
        lemma_wrapped_other(command, k, j);
    }
}

proof fn lemma_segment_order(bytes: Seq<u8>, segs: Seq<(int, int)>, j: int, k: int)
    requires
        segments_ok(bytes, 0, segs),
        0 <= j < segs.len(),
        0 <= k < segs.len(),
    ensures
        j < k ==> segs[j].1 <= segs[k].0,
        k < j ==> segs[k].1 <= segs[j].0,
        0 <= segs[j].0 <= segs[j].1 <= bytes.len(),
    decreases (if j < k {
        k - j
    } else {
        j - k
    }),
{
    if j < k {
        assert(segs[k].0 > segs[k - 1].1);
        lemma_segment_order(bytes, segs, j, k - 1);
        assert(segs[k - 1].0 <= segs[k - 1].1);
    } else if k < j {
        assert(segs[j].0 > segs[j - 1].1);
        lemma_segment_order(bytes, segs, j - 1, k);
        assert(segs[j - 1].0 <= segs[j - 1].1);
    }
}

/// A command line that may be typed into a session's shell ends the session nowhere at its top
/// level once its `exit` is in a subshell: none of its commands is an `exit` or a `logout`.
pub proof fn accepted_command_keeps_the_session(command: Seq<char>, j: int)
    requires
        command_refusal(command) is None,
        0 <= j < segments_of(wrapped(command)).len(),
    ensures
        session_ender(segment_text(wrapped(command), j)) is None,
{
    let n = segments_of(command).len() as int;
    lemma_last_command(command, n);
    match last_command(command, n) {
        Some(k) => {
            if is_exit(segment_text(command, k)) {
                lemma_wrapped_texts(command, k);
                if j == k {
                    let text = segment_text(command, k);
                    lemma_exit_text(text);
                    lemma_subshell_ends_nothing(
                        leading_white(text),
                        (session_ender(text)->0).1,
                        trailing_white(text),
                    );
                } else if j > k {
                    lemma_blank_ends_nothing(segment_text(command, j));
                } else {
                    assert(segment_text(wrapped(command), j) == segment_text(command, j));
                    lemma_not_before(command, j, k);
                }
            } else {
                lemma_only_last(command, j, k);
            }
        },
        None => {
            lemma_blank_ends_nothing(segment_text(command, j));
        },
    }
}

/// Moving the `exit` that ends a command line into a subshell leaves nothing to be moved: to do it
/// again changes nothing, whatever the line.
pub proof fn wrapping_twice_changes_nothing(command: Seq<char>)
    ensures
        wrapped(wrapped(command)) == wrapped(command),
{
    let n = segments_of(command).len() as int;
    lemma_last_command(command, n);
    match last_command(command, n) {
        Some(k) => {
            let text = segment_text(command, k);
            if is_exit(text) {
                let now = wrapped(command);
                lemma_wrapped_texts(command, k);
                lemma_exit_text(text);
                lemma_subshell_ends_nothing(
                    leading_white(text),
                    (session_ender(text)->0).1,
                    trailing_white(text),
                );
                lemma_last_command(now, n);
                assert(!is_blank(segment_text(now, k)));
                assert forall|j: int| k < j < n implies is_blank(#[trigger] segment_text(now, j)) by {
                    assert(segment_text(now, j) == segment_text(command, j));
                }
                assert(last_command(now, n) == Some(k));
            }
        },
        None => {},
    }
}

/// The scanner at the start of a segment finds that segment. Gives the byte scanned last.
proof fn lemma_reaches_segment(a: Seq<u8>, i: int, lex: Lex, k: int) -> (prev: u8)
    requires
        0 <= lex.start <= i <= a.len(),
        0 < k < segments_from(a, i, lex).len(),
    ensures
        is_separator_byte(prev),
        segments_from(
            a,
            segments_from(a, i, lex)[k].0,
            fresh(segments_from(a, i, lex)[k].0, prev),
        )[0] == segments_from(a, i, lex)[k],
    decreases a.len() - i,
{
    let segs = segments_from(a, i, lex);
    lemma_later_start(a, i, lex, k);
    let cut = separator_len(a, i, lex.prev);
    if lex.quote == Quote::Bare && lex.depth == 0 && a[i] == HASH && word_start(lex.prev) {
        assert(segs.len() == 1);
        arbitrary()
    } else if lex.quote == Quote::Bare && lex.depth == 0 && cut > 0 {
        lemma_cut(a, i, lex);
        let at = fresh(i + cut, a[i]);
        let rest = segments_from(a, i + cut, at);
        assert(segs == seq![(lex.start, i)] + rest);
        assert(segs[k] == rest[k - 1]);
        lemma_segments_from_ok(a, i + cut, at);
        if k == 1 {
            assert(rest[0].0 == i + cut);
            a[i]
        } else {
            lemma_reaches_segment(a, i + cut, at, k - 1)
        }
    } else {
        let lex2 = Lex {
            quote: quote_after(lex.quote, a[i]),
            depth: depth_after(lex.quote, lex.depth, a[i]),
            prev: a[i],
            ..lex
        };
        lemma_step(a, i, lex);
        lemma_reaches_segment(a, after_byte(a, i, lex.quote), lex2, k)
    }
}

/// Whether the scanner cannot tell two bytes apart as those scanned last.
spec fn same_before(p: u8, q: u8) -> bool {
    &&& word_start(p) == word_start(q)
    &&& (p == GREATER) == (q == GREATER)
    &&& (p == LESS) == (q == LESS)
}

/// The same `n` bytes from `i` and from `j` on.
#[verifier::opaque]
spec fn same_run(a: Seq<u8>, i: int, b: Seq<u8>, j: int, n: int) -> bool {
    forall|k: int| 0 <= k < n ==> #[trigger] a[i + k] == b[j + k]
}

proof fn lemma_same_run(a: Seq<u8>, i: int, b: Seq<u8>, j: int, n: int, d: int)
    requires
        same_run(a, i, b, j, n),
        0 <= d <= n,
    ensures
        same_run(a, i + d, b, j + d, n - d),
        d < n ==> a[i + d] == b[j + d],
{
    reveal(same_run);
    assert forall|k: int| 0 <= k < n - d implies #[trigger] a[i + d + k] == b[j + d + k] by {
        assert(a[i + (d + k)] == b[j + (d + k)]);
    }
    assert(d < n ==> a[i + d] == b[j + d]);
}

/// What lies right behind a segment is no redirection.
proof fn lemma_no_redirection_behind(a: Seq<u8>, i: int, x: Lex)
    requires
        0 <= x.start <= i <= a.len(),
    ensures
        segments_from(a, i, x).len() > 0,
        segments_from(a, i, x)[0].1 < a.len() ==> a[segments_from(a, i, x)[0].1] != GREATER,
{
    lemma_segments_from_ok(a, i, x);
    let segs = segments_from(a, i, x);
    if segs.len() > 1 {
        assert(is_separator(a, segs[1 - 1].1, segs[1].0));
    } else {
        assert(segs.last() == segs[0]);
    }
}

/// Inside of a segment the scanner takes the same step, whether the segment stands in its line or
/// alone.
proof fn lemma_step_alone(a: Seq<u8>, i: int, x: Lex, e: int, b: Seq<u8>, j: int, y: Lex)
    requires
        0 <= x.start <= i < e <= a.len(),
        0 <= j < b.len(),
        e - i == b.len() - j,
        a[i] == b[j],
        i + 1 < e ==> a[i + 1] == b[j + 1],
        x.quote == y.quote,
        x.depth == y.depth,
        same_before(x.prev, y.prev),
        segments_from(a, i, x)[0] == (x.start, e),
    ensures
        ({
            let n = after_byte(a, i, x.quote);
            let x2 = Lex {
                quote: quote_after(x.quote, a[i]),
                depth: depth_after(x.quote, x.depth, a[i]),
                prev: a[i],
                ..x
            };
            &&& i < n <= e
            &&& segments_from(a, i, x) == segments_from(a, n, x2)
            &&& segments_from(b, j, y) == segments_from(b, j + (n - i), Lex { start: y.start, ..x2 })
        }),
{
    let c = a[i];
    let top = x.quote == Quote::Bare && x.depth == 0;
    if top && c == HASH && word_start(x.prev) {
        assert(segments_from(a, i, x)[0].1 == i);
    }
    if top && separator_len(a, i, x.prev) > 0 {
        lemma_cut(a, i, x);
        assert(segments_from(a, i, x)[0].1 == i);
    }
    lemma_no_redirection_behind(a, i, x);
    assert(top ==> separator_len(b, j, y.prev) == 0);
    lemma_step(a, i, x);
    lemma_step(b, j, y);
    let n = after_byte(a, i, x.quote);
    let x2 = Lex {
        quote: quote_after(x.quote, c),
        depth: depth_after(x.quote, x.depth, c),
        prev: c,
        ..x
    };
    lemma_segments_from_ok(a, n, x2);
    assert(segments_from(a, n, x2)[0].1 >= n);
    assert(after_byte(b, j, y.quote) == j + (n - i));
}

/// The rest of a segment, taken out of its line, is scanned to its end without a cut.
proof fn lemma_scanned_alone(a: Seq<u8>, i: int, x: Lex, e: int, b: Seq<u8>, j: int, y: Lex)
    requires
        0 <= x.start <= i <= e <= a.len(),
        0 <= j <= b.len(),
        e - i == b.len() - j,
        same_run(a, i, b, j, e - i),
        x.quote == y.quote,
        x.depth == y.depth,
        same_before(x.prev, y.prev),
        segments_from(a, i, x)[0] == (x.start, e),
    ensures
        segments_from(b, j, y) == seq![(y.start, b.len() as int)],
    decreases e - i,
{
    if i < e {
        lemma_same_run(a, i, b, j, e - i, 0);
        lemma_same_run(a, i, b, j, e - i, 1);
        lemma_step_alone(a, i, x, e, b, j, y);
        let d = after_byte(a, i, x.quote) - i;
        let x2 = Lex {
            quote: quote_after(x.quote, a[i]),
            depth: depth_after(x.quote, x.depth, a[i]),
            prev: a[i],
            ..x
        };
        lemma_same_run(a, i, b, j, e - i, d);
        lemma_scanned_alone(a, i + d, x2, e, b, j + d, Lex { start: y.start, ..x2 });
    }
}

/// A command taken out of its line is one command: splitting its text again gives it back whole.
pub proof fn a_segment_is_one_command(command: Seq<char>, k: int)
    requires
        0 <= k < segments_of(command).len(),
    ensures
        segments_of(segment_text(command, k)) == seq![
            (0int, segments_of(command)[k].1 - segments_of(command)[k].0),
        ],
{
    let a = encode_utf8(command);
    let (s, e) = segments_of(command)[k];
    let b = a.subrange(s, e);
    lemma_segment_boundaries(command, k);
    lemma_slice_bytes(command, s, e);
    segments_partition_the_line(command);
    assert(encode_utf8(segment_text(command, k)) == b);
    assert(same_run(a, s, b, 0, e - s)) by {
        reveal(same_run);
    }
    if k == 0 {
        lemma_scanned_alone(a, s, lex_init(), e, b, 0, lex_init());
    } else {
        let prev = lemma_reaches_segment(a, 0, lex_init(), k);
        lemma_scanned_alone(a, s, fresh(s, prev), e, b, 0, lex_init());
    }
}

/// In an accepted line no command that ends the session has a command behind it.
proof fn lemma_not_before(command: Seq<char>, j: int, k: int)
    requires
        command_refusal(command) is None,
        0 <= j < k < segments_of(command).len(),
        !is_blank(segment_text(command, k)),
    ensures
        session_ender(segment_text(command, j)) is None,
{
    let text = segment_text(command, j);
    if session_ender(text) is Some {
        if is_exit(text) {
            assert(has_exit_before_command(command));
        } else {
            assert(is_logout(text));
            assert(has_logout(command));
        }
    }
}

proof fn lemma_only_last(command: Seq<char>, j: int, k: int)
    requires
        command_refusal(command) is None,
        last_command(command, segments_of(command).len() as int) == Some(k),
        0 <= j < segments_of(command).len(),
        !is_exit(segment_text(command, k)),
    ensures
        session_ender(segment_text(command, j)) is None,
{
    lemma_last_command(command, segments_of(command).len() as int);
    let text = segment_text(command, j);
    if j < k {
        lemma_not_before(command, j, k);
    } else if j > k {
        lemma_blank_ends_nothing(text);
    } else if session_ender(text) is Some {
        assert(is_logout(text));
        assert(has_logout(command));
    }
}

/// Moving an `exit` into a subshell puts one pair of parentheses into the line and changes nothing
/// else of it.
pub proof fn wrapping_only_adds_parentheses(command: Seq<char>)
    ensures
        wrapped(command) == command || exists|a: Seq<char>, m: Seq<char>, b: Seq<char>|
            command == a + m + b && wrapped(command) == #[trigger] parenthesized(a, m, b),
{
    let n = segments_of(command).len() as int;
    lemma_last_command(command, n);
    match last_command(command, n) {
        Some(k) => {
            let text = segment_text(command, k);
            if is_exit(text) {
                let bytes = encode_utf8(command);
                let (s, e) = segments_of(command)[k];
                let body = (session_ender(text)->0).1;
                let m = trim_of(text);
                lemma_exit_text(text);
                lemma_wrapped_ranges(command, k);
                lemma_wrapped_bytes(command, k);
                lemma_segment_boundaries(command, k);
                lemma_three_slices(command, s, e);
                let before = byte_slice(command, 0, s);
                let after = byte_slice(command, e, bytes.len() as int);
                assert(body == m) by {
                    if body.len() < m.len() {
                        let i = leading_white(text).len() + m.len() - 1;
                        assert(text[i] == m.last());
                        assert(CharClass::CommandTail.holds(m[m.len() - 1]));
                        assert(m.last() == ';' || m.last() == '&');
                        lemma_char_bytes(text, i);
                        let x = choose|x: int|
                            0 <= x < encode_utf8(text).len() && special(
                                #[trigger] encode_utf8(text)[x],
                            );
                        assert(bytes.subrange(s, e)[x] == bytes[s + x]);
                    }
                    assert(m.take(m.len() as int) =~= m);
                }
                let a = before + leading_white(text);
                let b = trailing_white(text) + after;
                reveal_strlit("(");
                reveal_strlit(")");
                assert(command =~= a + m + b);
                assert(wrapped(command) =~= parenthesized(a, m, b));
            }
        },
        None => {},
    }
}

/// Something with a pair of parentheses in it.
pub open spec fn parenthesized(a: Seq<char>, m: Seq<char>, b: Seq<char>) -> Seq<char> {
    a + "("@ + m + ")"@ + b
}

/// A separator among the characters is one among the bytes.
proof fn lemma_char_bytes(s: Seq<char>, i: int)
    requires
        0 <= i < s.len(),
        s[i] == ';' || s[i] == '&',
    ensures
        exists|x: int| 0 <= x < encode_utf8(s).len() && special(#[trigger] encode_utf8(s)[x]),
{
    let a = s.take(i);
    let b = s.skip(i + 1);
    assert(s =~= a + seq![s[i]] + b);
    lemma_encode_concat(a + seq![s[i]], b);
    lemma_encode_concat(a, seq![s[i]]);
    lemma_one_char(s[i]);
    let x = encode_utf8(a).len() as int;
    assert(encode_utf8(s)[x] == (s[i] as u32) as u8);
}

} // verus!
