//! Characters, words and decimal numbers: the string primitives that the rest of the library
//! states its contracts over. A string is its sequence of characters.
use vstd::prelude::*;
use vstd::string::*;
use vstd::utf8::*;

verus! {

/// The characters with the Unicode property `White_Space`.
pub open spec fn is_white(c: char) -> bool {
    let u = c as u32;
    ||| 0x9 <= u <= 0xD
    ||| u == 0x20
    ||| u == 0x85
    ||| u == 0xA0
    ||| u == 0x1680
    ||| 0x2000 <= u <= 0x200A
    ||| u == 0x2028
    ||| u == 0x2029
    ||| u == 0x202F
    ||| u == 0x205F
    ||| u == 0x3000
}

/// Decides [`is_white`].
pub fn white(c: char) -> (r: bool)
    ensures
        r == is_white(c),
{
    let u: u32 = c as u32;
    (0x9 <= u && u <= 0xD) || u == 0x20 || u == 0x85 || u == 0xA0 || u == 0x1680 || (0x2000 <= u && u
        <= 0x200A) || u == 0x2028 || u == 0x2029 || u == 0x202F || u == 0x205F || u == 0x3000
}

/// A class of characters that can be trimmed off the end of a string.
#[derive(Clone, Copy)]
pub enum CharClass {
    /// White space.
    White,
    /// What may trail a command without changing it: `;`, `&` and white space.
    CommandTail,
    /// The path separator `/`.
    Slash,
    /// `\r` and `\n`.
    LineEnd,
}

impl CharClass {
    pub open spec fn holds(self, c: char) -> bool {
        match self {
            CharClass::White => is_white(c),
            CharClass::CommandTail => c == ';' || c == '&' || is_white(c),
            CharClass::Slash => c == '/',
            CharClass::LineEnd => c == '\r' || c == '\n',
        }
    }

    /// Decides [`CharClass::holds`].
    pub fn has(self, c: char) -> (r: bool)
        ensures
            r == self.holds(c),
    {
        match self {
            CharClass::White => white(c),
            CharClass::CommandTail => c == ';' || c == '&' || white(c),
            CharClass::Slash => c == '/',
            CharClass::LineEnd => c == '\r' || c == '\n',
        }
    }
}

/// `s` without its longest prefix of characters of class `k`.
pub open spec fn trim_start_of(s: Seq<char>, k: CharClass) -> Seq<char>
    decreases s.len(),
{
    if s.len() > 0 && k.holds(s[0]) {
        trim_start_of(s.drop_first(), k)
    } else {
        s
    }
}

/// `s` without its longest suffix of characters of class `k`.
pub open spec fn trim_end_of(s: Seq<char>, k: CharClass) -> Seq<char>
    decreases s.len(),
{
    if s.len() > 0 && k.holds(s.last()) {
        trim_end_of(s.drop_last(), k)
    } else {
        s
    }
}

/// `s` without white space at either end.
pub open spec fn trim_of(s: Seq<char>) -> Seq<char> {
    trim_end_of(trim_start_of(s, CharClass::White), CharClass::White)
}

/// The characters of a string.
pub fn chars_of(s: &str) -> (v: Vec<char>)
    ensures
        v@ == s@,
{
    let mut v: Vec<char> = Vec::new();
    for c in it: s.chars()
        invariant
            it.seq() == s@,
            v@ == s@.take(it.index() as int),
    {
        assert(s@.take(it.index() + 1) =~= s@.take(it.index() as int).push(s@[it.index() as int]));
        v.push(c);
    }
    assert(s@.take(s@.len() as int) =~= s@);
    v
}

/// Trims the start of a string.
pub fn trim_start<'a>(s: &'a str, k: CharClass) -> (r: &'a str)
    ensures
        r@ == trim_start_of(s@, k),
{
    let v = chars_of(s);
    let n: usize = v.len();
    let mut i: usize = 0;
    assert(s@.skip(0) =~= s@);
    while i < n && k.has(v[i])
        invariant
            i <= n,
            n == v@.len(),
            v@ == s@,
            trim_start_of(s@, k) == trim_start_of(s@.skip(i as int), k),
        decreases n - i,
    {
        assert(s@.skip(i as int).drop_first() =~= s@.skip(i + 1));
        i = i + 1;
    }
    assert(s@.skip(i as int) =~= s@.subrange(i as int, n as int));
    s.substring_char(i, n)
}

/// Trims the end of a string.
pub fn trim_end<'a>(s: &'a str, k: CharClass) -> (r: &'a str)
    ensures
        r@ == trim_end_of(s@, k),
{
    let v = chars_of(s);
    let mut n: usize = v.len();
    assert(s@.take(n as int) =~= s@);
    while n > 0 && k.has(v[n - 1])
        invariant
            n <= v@.len(),
            v@ == s@,
            trim_end_of(s@, k) == trim_end_of(s@.take(n as int), k),
        decreases n,
    {
        assert(s@.take(n as int).drop_last() =~= s@.take(n - 1));
        n = n - 1;
    }
    assert(s@.take(n as int) =~= s@.subrange(0, n as int));
    s.substring_char(0, n)
}

/// Trims white space at both ends.
pub fn trim<'a>(s: &'a str) -> (r: &'a str)
    ensures
        r@ == trim_of(s@),
{
    trim_end(trim_start(s, CharClass::White), CharClass::White)
}

/// `String::push` appends one character.
pub assume_specification[ String::push ](s: &mut String, c: char)
    ensures
        final(s)@ == old(s)@.push(c),
;

/// The strings that a vector holds, each as its characters.
pub open spec fn views(v: Seq<String>) -> Seq<Seq<char>> {
    Seq::new(v.len(), |i: int| v[i]@)
}

/// Whether two strings hold the same characters.
pub fn same(a: &str, b: &str) -> (r: bool)
    ensures
        r == (a@ == b@),
{
    broadcast use encode_utf8_decode_utf8;

    let x = a.as_bytes();
    let y = b.as_bytes();
    let ghost ea = encode_utf8(a@);
    let ghost eb = encode_utf8(b@);
    assert(decode_utf8(ea) == a@ && decode_utf8(eb) == b@);
    if x.len() != y.len() {
        return false;
    }
    let mut i: usize = 0;
    while i < x.len()
        invariant
            i <= x@.len(),
            x@.len() == y@.len(),
            x@ == ea,
            y@ == eb,
            ea == encode_utf8(a@),
            eb == encode_utf8(b@),
            forall|j: int| 0 <= j < i ==> ea[j] == eb[j],
        decreases x@.len() - i,
    {
        if x[i] != y[i] {
            assert(ea[i as int] != eb[i as int]);
            return false;
        }
        i = i + 1;
    }
    assert(ea =~= eb);
    true
}

/// Whether an optional string is present and holds the characters of another one.
pub fn same_opt(a: &Option<String>, b: &Option<String>) -> (r: bool)
    ensures
        r == (opt_view(*a) == opt_view(*b)),
{
    match a {
        Some(x) => match b {
            Some(y) => same(x.as_str(), y.as_str()),
            None => false,
        },
        None => b.is_none(),
    }
}

/// An optional string as its characters.
pub open spec fn opt_view(s: Option<String>) -> Option<Seq<char>> {
    match s {
        Some(x) => Some(x@),
        None => None,
    }
}

/// A copy of an optional string.
pub fn clone_opt(s: &Option<String>) -> (r: Option<String>)
    ensures
        r == *s,
{
    match s {
        Some(x) => Some(x.clone()),
        None => None,
    }
}

/// Whether a character occurs in a string.
pub fn has_char(s: &str, c: char) -> (r: bool)
    ensures
        r == s@.contains(c),
{
    let v = chars_of(s);
    let mut i: usize = 0;
    while i < v.len()
        invariant
            i <= v@.len(),
            v@ == s@,
            forall|j: int| 0 <= j < i ==> s@[j] != c,
        decreases v@.len() - i,
    {
        if v[i] == c {
            assert(s@[i as int] == c);
            return true;
        }
        i = i + 1;
    }
    false
}

/// Whether the first character of a string is `c`.
pub fn starts_with_char(s: &str, c: char) -> (r: bool)
    ensures
        r == (s@.len() > 0 && s@[0] == c),
{
    s.unicode_len() > 0 && s.get_char(0) == c
}

/// What follows `prefix` in `s`, where `s` starts with it.
pub open spec fn without_prefix(s: Seq<char>, prefix: Seq<char>) -> Option<Seq<char>> {
    if prefix.is_prefix_of(s) {
        Some(s.skip(prefix.len() as int))
    } else {
        None
    }
}

/// Computes [`without_prefix`].
pub fn strip_prefix<'a>(s: &'a str, prefix: &str) -> (r: Option<&'a str>)
    ensures
        match r {
            Some(rest) => without_prefix(s@, prefix@) == Some(rest@),
            None => without_prefix(s@, prefix@) is None,
        },
{
    let n: usize = s.unicode_len();
    let k: usize = prefix.unicode_len();
    if k > n {
        return None;
    }
    let head = s.substring_char(0, k);
    assert(s@.subrange(0, k as int) =~= s@.take(k as int));
    if same(head, prefix) {
        assert(prefix@.is_prefix_of(s@));
        assert(s@.skip(k as int) =~= s@.subrange(k as int, n as int));
        Some(s.substring_char(k, n))
    } else {
        assert(!prefix@.is_prefix_of(s@)) by {
            if prefix@.is_prefix_of(s@) {
                assert(s@.take(k as int) =~= prefix@);
            }
        }
        None
    }
}

/// The length of the longest prefix without white space.
pub open spec fn word_len(s: Seq<char>) -> nat
    decreases s.len(),
{
    if s.len() > 0 && !is_white(s[0]) {
        1 + word_len(s.drop_first())
    } else {
        0
    }
}

proof fn lemma_word_len_bound(s: Seq<char>)
    ensures
        word_len(s) <= s.len(),
    decreases s.len(),
{
    if s.len() > 0 && !is_white(s[0]) {
        lemma_word_len_bound(s.drop_first());
    }
}

/// The words of a string: its maximal runs without white space.
pub open spec fn words_of(s: Seq<char>) -> Seq<Seq<char>>
    decreases s.len(),
{
    if s.len() == 0 {
        Seq::empty()
    } else if is_white(s[0]) {
        words_of(s.drop_first())
    } else {
        let n = word_len(s);
        if 0 < n <= s.len() {
            seq![s.take(n as int)] + words_of(s.skip(n as int))
        } else {
            Seq::empty()
        }
    }
}

/// Splits a string into its words.
pub fn words(s: &str) -> (r: Vec<String>)
    ensures
        views(r@) == words_of(s@),
{
    let v = chars_of(s);
    let n: usize = v.len();
    let mut out: Vec<String> = Vec::new();
    let mut i: usize = 0;
    assert(s@.skip(0) =~= s@);
    assert(views(out@) + words_of(s@) =~= words_of(s@));
    while i < n
        invariant
            i <= n,
            n == v@.len(),
            v@ == s@,
            views(out@) + words_of(s@.skip(i as int)) == words_of(s@),
        decreases n - i,
    {
        let ghost rest = s@.skip(i as int);
        if white(v[i]) {
            assert(rest.drop_first() =~= s@.skip(i + 1));
            i = i + 1;
        } else {
            let start: usize = i;
            let mut word = String::new();
            while i < n && !white(v[i])
                invariant
                    start <= i <= n,
                    n == v@.len(),
                    v@ == s@,
                    rest == s@.skip(start as int),
                    word@ == s@.subrange(start as int, i as int),
                    word_len(rest) == (i - start) + word_len(s@.skip(i as int)),
                decreases n - i,
            {
                assert(s@.skip(i as int).drop_first() =~= s@.skip(i + 1));
                assert(s@.subrange(start as int, i + 1) =~= s@.subrange(start as int, i as int).push(
                    s@[i as int],
                ));
                word.push(v[i]);
                i = i + 1;
            }
            let ghost k = (i - start) as int;
            assert(word_len(s@.skip(i as int)) == 0);
            assert(word_len(rest) == k);
            assert(k > 0) by {
                assert(rest[0] == s@[start as int]);
            }
            assert(rest.take(k) =~= word@);
            assert(rest.skip(k) =~= s@.skip(i as int));
            let ghost before = views(out@);
            out.push(word);
            assert(views(out@) =~= before.push(rest.take(k)));
            assert(before + (seq![rest.take(k)] + words_of(s@.skip(i as int))) =~= before.push(
                rest.take(k),
            ) + words_of(s@.skip(i as int)));
        }
    }
    assert(s@.skip(n as int) =~= Seq::empty());
    assert(views(out@) + words_of(s@.skip(n as int)) =~= views(out@));
    out
}

/// The length of the part of `s` before the first `sep` (all of it, where there is none).
pub open spec fn field_len(s: Seq<char>, sep: char) -> nat
    decreases s.len(),
{
    if s.len() > 0 && s[0] != sep {
        1 + field_len(s.drop_first(), sep)
    } else {
        0
    }
}

/// The fields of a string that `sep` separates: one more than it has separators.
pub open spec fn fields_of(s: Seq<char>, sep: char) -> Seq<Seq<char>>
    decreases s.len(),
{
    let n = field_len(s, sep);
    if n >= s.len() {
        seq![s]
    } else {
        seq![s.take(n as int)] + fields_of(s.skip(n as int + 1), sep)
    }
}

/// Splits a string at every `sep`.
pub fn fields(s: &str, sep: char) -> (r: Vec<String>)
    ensures
        views(r@) == fields_of(s@, sep),
{
    let v = chars_of(s);
    let n: usize = v.len();
    let mut out: Vec<String> = Vec::new();
    let mut start: usize = 0;
    let mut i: usize = 0;
    let mut word = String::new();
    assert(s@.skip(0) =~= s@);
    assert(views(out@) + fields_of(s@, sep) =~= fields_of(s@, sep));
    while i < n
        invariant
            start <= i <= n,
            n == v@.len(),
            v@ == s@,
            word@ == s@.subrange(start as int, i as int),
            views(out@) + fields_of(s@.skip(start as int), sep) == fields_of(s@, sep),
            field_len(s@.skip(start as int), sep) == (i - start) + field_len(s@.skip(i as int), sep),
        decreases n - i,
    {
        let ghost rest = s@.skip(start as int);
        assert(s@.skip(i as int)[0] == s@[i as int]);
        if v[i] == sep {
            let ghost k = (i - start) as int;
            assert(field_len(s@.skip(i as int), sep) == 0);
            assert(rest.take(k) =~= word@);
            assert(rest.skip(k + 1) =~= s@.skip(i + 1));
            let ghost before = views(out@);
            out.push(word);
            assert(views(out@) =~= before.push(rest.take(k)));
            assert(before + (seq![rest.take(k)] + fields_of(s@.skip(i + 1), sep)) =~= before.push(
                rest.take(k),
            ) + fields_of(s@.skip(i + 1), sep));
            word = String::new();
            start = i + 1;
            i = i + 1;
        } else {
            assert(s@.skip(i as int).drop_first() =~= s@.skip(i + 1));
            assert(s@.subrange(start as int, i + 1) =~= s@.subrange(start as int, i as int).push(
                s@[i as int],
            ));
            word.push(v[i]);
            i = i + 1;
        }
    }
    let ghost rest = s@.skip(start as int);
    assert(word@ =~= rest);
    let ghost before = views(out@);
    out.push(word);
    assert(views(out@) =~= before + seq![rest]);
    out
}

/// The position of the last `c` in a string.
pub open spec fn last_index_of(s: Seq<char>, c: char) -> Option<int>
    decreases s.len(),
{
    if s.len() == 0 {
        None
    } else if s.last() == c {
        Some(s.len() - 1)
    } else {
        last_index_of(s.drop_last(), c)
    }
}

/// Finds the last `c` in a string.
pub fn last_index(v: &Vec<char>, c: char) -> (r: Option<usize>)
    ensures
        match r {
            Some(i) => last_index_of(v@, c) == Some(i as int) && i < v@.len() && v@[i as int] == c,
            None => last_index_of(v@, c) is None,
        },
{
    let mut n: usize = v.len();
    assert(v@.take(n as int) =~= v@);
    while n > 0
        invariant
            n <= v@.len(),
            last_index_of(v@, c) == last_index_of(v@.take(n as int), c),
        decreases n,
    {
        if v[n - 1] == c {
            return Some(n - 1);
        }
        assert(v@.take(n as int).drop_last() =~= v@.take(n - 1));
        n = n - 1;
    }
    None
}

/// The decimal digit of a number below ten.
pub open spec fn digit(n: nat) -> char {
    ((48 + n) as u8) as char
}

/// A number in decimal, without leading zeros.
pub open spec fn decimal(n: nat) -> Seq<char>
    decreases n,
{
    if n < 10 {
        seq![digit(n)]
    } else {
        decimal(n / 10).push(digit(n % 10))
    }
}

/// Appends a number in decimal.
pub fn push_decimal(s: &mut String, n: u64)
    ensures
        final(s)@ == old(s)@ + decimal(n as nat),
    decreases n,
{
    if n >= 10 {
        push_decimal(s, n / 10);
    }
    let d: u8 = (n % 10) as u8;
    s.push((48 + d) as char);
}

/// A number in decimal.
pub fn decimal_string(n: u64) -> (r: String)
    ensures
        r@ == decimal(n as nat),
{
    let mut s = String::new();
    push_decimal(&mut s, n);
    s
}

/// The hexadecimal digit of a number below sixteen.
pub open spec fn hex_digit(n: nat, upper: bool) -> char {
    if n < 10 {
        ((48 + n) as u8) as char
    } else if upper {
        ((55 + n) as u8) as char
    } else {
        ((87 + n) as u8) as char
    }
}

/// A byte as two hexadecimal digits.
pub open spec fn hex2(b: u8, upper: bool) -> Seq<char> {
    seq![hex_digit((b / 16) as nat, upper), hex_digit((b % 16) as nat, upper)]
}

fn hex_char(n: u8, upper: bool) -> (r: char)
    requires
        n < 16,
    ensures
        r == hex_digit(n as nat, upper),
{
    if n < 10 {
        (48 + n) as char
    } else if upper {
        (55 + n) as char
    } else {
        (87 + n) as char
    }
}

/// Appends a byte as two hexadecimal digits.
pub fn push_hex(s: &mut String, b: u8, upper: bool)
    ensures
        final(s)@ == old(s)@ + hex2(b, upper),
{
    s.push(hex_char(b / 16, upper));
    s.push(hex_char(b % 16, upper));
}

/// Bytes in lower-case hexadecimal.
pub open spec fn hex_of(b: Seq<u8>) -> Seq<char>
    decreases b.len(),
{
    if b.len() == 0 {
        Seq::empty()
    } else {
        hex_of(b.drop_last()) + hex2(b.last(), false)
    }
}

/// Writes bytes in lower-case hexadecimal.
pub fn hex_string(b: &[u8]) -> (r: String)
    ensures
        r@ == hex_of(b@),
{
    let mut s = String::new();
    let mut i: usize = 0;
    while i < b.len()
        invariant
            i <= b@.len(),
            s@ == hex_of(b@.take(i as int)),
        decreases b@.len() - i,
    {
        assert(b@.take(i + 1).drop_last() =~= b@.take(i as int));
        push_hex(&mut s, b[i], false);
        i = i + 1;
    }
    assert(b@.take(b@.len() as int) =~= b@);
    s
}

/// Strings joined by a separator.
pub open spec fn join_of(parts: Seq<Seq<char>>, sep: Seq<char>) -> Seq<char>
    decreases parts.len(),
{
    if parts.len() == 0 {
        Seq::empty()
    } else if parts.len() == 1 {
        parts[0]
    } else {
        join_of(parts.drop_last(), sep) + sep + parts.last()
    }
}

/// Joins strings with a separator.
pub fn join(parts: &Vec<String>, sep: &str) -> (r: String)
    ensures
        r@ == join_of(views(parts@), sep@),
{
    let mut s = String::new();
    let mut i: usize = 0;
    let ghost all = views(parts@);
    while i < parts.len()
        invariant
            i <= parts@.len(),
            all == views(parts@),
            s@ == join_of(all.take(i as int), sep@),
        decreases parts@.len() - i,
    {
        assert(all.take(i + 1).drop_last() =~= all.take(i as int));
        if i > 0 {
            s.append(sep);
        }
        s.append(parts[i].as_str());
        i = i + 1;
    }
    assert(all.take(parts@.len() as int) =~= all);
    s
}

/// Whether a character is a decimal digit.
pub open spec fn is_digit(c: char) -> bool {
    '0' <= c <= '9'
}

/// The number that some decimal digits write.
pub open spec fn number_of(s: Seq<char>) -> nat
    decreases s.len(),
{
    if s.len() == 0 {
        0
    } else {
        10 * number_of(s.drop_last()) + (s.last() as nat - 48) as nat
    }
}

/// A text without the plus sign that it may begin with.
pub open spec fn without_plus(s: Seq<char>) -> Seq<char> {
    if s.len() > 0 && s[0] == '+' {
        s.skip(1)
    } else {
        s
    }
}

/// The number up to `max` that a text writes: decimal digits, after a plus sign or none.
pub open spec fn unsigned_of(s: Seq<char>, max: nat) -> Option<nat> {
    let d = without_plus(s);
    if d.len() > 0 && (forall|i: int| 0 <= i < d.len() ==> is_digit(#[trigger] d[i]))
        && number_of(d) <= max {
        Some(number_of(d))
    } else {
        None
    }
}

/// The 16-bit number that a text writes.
pub open spec fn u16_of(s: Seq<char>) -> Option<u16> {
    match unsigned_of(s, u16::MAX as nat) {
        Some(n) => Some(n as u16),
        None => None,
    }
}

proof fn lemma_number_grows(s: Seq<char>, n: int)
    requires
        0 <= n <= s.len(),
        forall|i: int| 0 <= i < s.len() ==> is_digit(#[trigger] s[i]),
    ensures
        number_of(s.take(n)) <= number_of(s),
    decreases s.len() - n,
{
    if n == s.len() {
        assert(s.take(n) =~= s);
    } else {
        assert(s.take(n + 1).drop_last() =~= s.take(n));
        lemma_number_grows(s, n + 1);
    }
}

/// Reads a number up to `max`.
pub fn parse_unsigned(s: &str, max: u64) -> (r: Option<u64>)
    ensures
        match r {
            Some(n) => unsigned_of(s@, max as nat) == Some(n as nat),
            None => unsigned_of(s@, max as nat) is None,
        },
{
    let v = chars_of(s);
    let n: usize = v.len();
    let from: usize = if n > 0 && v[0] == '+' {
        1
    } else {
        0
    };
    let ghost d = without_plus(s@);
    assert(d =~= s@.skip(from as int));
    if from == n {
        return None;
    }
    let mut value: u128 = 0;
    let mut i: usize = from;
    assert(d.take(0) =~= Seq::empty());
    while i < n
        invariant
            v@ == s@,
            n == v@.len(),
            from <= i <= n,
            d == s@.skip(from as int),
            d == without_plus(s@),
            forall|k: int| 0 <= k < i - from ==> is_digit(#[trigger] d[k]),
            value == number_of(d.take(i - from)),
            value <= max,
        decreases n - i,
    {
        let c = v[i];
        assert(d[i - from] == c);
        if c < '0' || c > '9' {
            assert(!is_digit(d[i - from]));
            return None;
        }
        let x: u128 = c as u128 - 48;
        proof {
            assert(d.take(i + 1 - from).drop_last() =~= d.take(i - from));
            assert(d.take(i + 1 - from).last() == c);
        }
        value = value * 10 + x;
        i = i + 1;
        if value > max as u128 {
            proof {
                if forall|k: int| 0 <= k < d.len() ==> is_digit(#[trigger] d[k]) {
                    lemma_number_grows(d, i - from);
                }
            }
            return None;
        }
    }
    assert(d.take(n - from) =~= d);
    Some(value as u64)
}

/// Reads a 16-bit number.
pub fn parse_u16(s: &str) -> (r: Option<u16>)
    ensures
        r == u16_of(s@),
{
    match parse_unsigned(s, 65535) {
        Some(n) => Some(n as u16),
        None => None,
    }
}

} // verus!
