//! Turning a path into one word of a shell command line.
use vstd::prelude::*;
use vstd::string::*;

use crate::text::{chars_of, has_char};

verus! {

/// What `char::is_alphanumeric` says of a character.
pub uninterp spec fn char_alphanumeric(c: char) -> bool;

/// `char::is_alphanumeric` follows Unicode's tables; of the ASCII characters it holds of the
/// letters and the digits.
pub assume_specification[ char::is_alphanumeric ](c: char) -> (r: bool)
    ensures
        r == char_alphanumeric(c),
        (c as u32) < 0x80 ==> r == ('0' <= c <= '9' || 'A' <= c <= 'Z' || 'a' <= c <= 'z'),
;

/// The punctuation that is typed without quotes.
pub const BARE_PUNCTUATION: &'static str = "/._-:\\~+=,@";

/// A character that is typed without quotes. A POSIX shell takes a bare backslash for its own; on
/// Windows it parts the names of a path.
pub open spec fn is_bare(c: char, windows_style: bool) -> bool {
    &&& char_alphanumeric(c) || BARE_PUNCTUATION@.contains(c)
    &&& windows_style || c != '\\'
}

/// Whether a path has to be quoted: it is empty, one of its characters is not typed bare, or a
/// POSIX shell would take the tilde that it starts with for a home directory.
pub open spec fn needs_quotes(path: Seq<char>, windows_style: bool) -> bool {
    ||| path.len() == 0
    ||| exists|i: int| 0 <= i < path.len() && !is_bare(#[trigger] path[i], windows_style)
    ||| !windows_style && path[0] == '~'
}

/// A path between single quotes: each single quote in it closes the quotes, stands escaped, and
/// opens them again.
pub open spec fn single_quote_body(path: Seq<char>) -> Seq<char>
    decreases path.len(),
{
    if path.len() == 0 {
        Seq::empty()
    } else {
        single_quote_body(path.drop_last()) + (if path.last() == '\'' {
            "'\\''"@
        } else {
            seq![path.last()]
        })
    }
}

/// A path without its double quotes.
pub open spec fn without_double_quotes(path: Seq<char>) -> Seq<char>
    decreases path.len(),
{
    if path.len() == 0 {
        Seq::empty()
    } else if path.last() == '"' {
        without_double_quotes(path.drop_last())
    } else {
        without_double_quotes(path.drop_last()).push(path.last())
    }
}

/// A path as one shell word.
pub open spec fn shell_word(path: Seq<char>, windows_style: bool) -> Seq<char> {
    if !needs_quotes(path, windows_style) {
        path
    } else if windows_style {
        "\""@ + without_double_quotes(path) + "\""@
    } else {
        in_single_quotes(path)
    }
}

/// Writes a path as one shell word, unquoted where it can be. A POSIX shell reads the word back as
/// the path, whatever the path holds.
pub fn quote_shell_arg(path: &str, windows_style: bool) -> (r: String)
    ensures
        r@ == shell_word(path@, windows_style),
        !windows_style ==> posix_word(r@, false) == Some(path@),
{
    let v = chars_of(path);
    let mut needs: bool = v.len() == 0 || (!windows_style && v[0] == '~');
    let mut i: usize = 0;
    while i < v.len()
        invariant
            i <= v@.len(),
            v@ == path@,
            needs == (v@.len() == 0 || (!windows_style && path@[0] == '~') || exists|j: int|
                0 <= j < i && !is_bare(#[trigger] path@[j], windows_style)),
            forall|j: int|
                0 <= j < i && char_alphanumeric(#[trigger] path@[j]) ==> !is_shell_special(path@[j]),
        decreases v@.len() - i,
    {
        let c: char = v[i];
        if !(c.is_alphanumeric() || has_char(BARE_PUNCTUATION, c)) || (!windows_style && c == '\\') {
            assert(!is_bare(path@[i as int], windows_style));
            needs = true;
        }
        i = i + 1;
    }
    if !needs {
        proof {
            if !windows_style {
                lemma_bare_path(path@);
            }
        }
        return path.to_owned();
    }
    assert(needs_quotes(path@, windows_style));
    proof {
        quoted_path_reads_back(path@);
    }
    if windows_style {
        double_quoted(path)
    } else {
        single_quoted(path)
    }
}

/// A text between single quotes.
pub open spec fn in_single_quotes(text: Seq<char>) -> Seq<char> {
    "'"@ + single_quote_body(text) + "'"@
}

/// Puts a text between single quotes.
pub fn single_quoted(text: &str) -> (r: String)
    ensures
        r@ == in_single_quotes(text@),
{
    let v = chars_of(text);
    let mut s = "'".to_owned();
    let mut k: usize = 0;
    assert("'"@ + single_quote_body(v@.take(0)) =~= "'"@);
    while k < v.len()
        invariant
            k <= v@.len(),
            v@ == text@,
            s@ == "'"@ + single_quote_body(v@.take(k as int)),
        decreases v@.len() - k,
    {
        let c: char = v[k];
        assert(v@.take(k + 1).drop_last() =~= v@.take(k as int));
        if c == '\'' {
            s.append("'\\''");
            assert(s@ =~= "'"@ + (single_quote_body(v@.take(k as int)) + "'\\''"@));
        } else {
            s.push(c);
            assert(s@ =~= "'"@ + (single_quote_body(v@.take(k as int)) + seq![c]));
        }
        k = k + 1;
    }
    assert(v@.take(v@.len() as int) =~= text@);
    s.append("'");
    s
}

fn double_quoted(text: &str) -> (r: String)
    ensures
        r@ == "\""@ + without_double_quotes(text@) + "\""@,
{
    let v = chars_of(text);
    let mut s = "\"".to_owned();
    let mut k: usize = 0;
    assert("\""@ + without_double_quotes(v@.take(0)) =~= "\""@);
    while k < v.len()
        invariant
            k <= v@.len(),
            v@ == text@,
            s@ == "\""@ + without_double_quotes(v@.take(k as int)),
        decreases v@.len() - k,
    {
        let c: char = v[k];
        assert(v@.take(k + 1).drop_last() =~= v@.take(k as int));
        if c != '"' {
            s.push(c);
            assert(s@ =~= "\""@ + without_double_quotes(v@.take(k as int)).push(c));
        }
        k = k + 1;
    }
    assert(v@.take(v@.len() as int) =~= text@);
    s.append("\"");
    s
}

/// The characters that a POSIX shell does not take for themselves outside of quotes, wherever in a
/// word they stand.
pub open spec fn is_shell_special(c: char) -> bool {
    ||| c == ' ' || c == '\t' || c == '\n'
    ||| c == '|' || c == '&' || c == ';' || c == '<' || c == '>' || c == '(' || c == ')'
    ||| c == '$' || c == '`' || c == '\\' || c == '"' || c == '\''
    ||| c == '*' || c == '?' || c == '[' || c == '#' || c == '!' || c == '{' || c == '}'
}

/// The text that a POSIX shell reads from one word made of bare characters, single quotes and
/// backslashes; `None` where it would read something else than one word, or put a home directory
/// in place of a bare tilde at the start of it.
pub open spec fn posix_word(s: Seq<char>, quoted: bool) -> Option<Seq<char>> {
    if !quoted && s.len() > 0 && s[0] == '~' {
        None
    } else {
        posix_rest(s, quoted)
    }
}

/// The text that a POSIX shell reads from the rest of a word.
pub open spec fn posix_rest(s: Seq<char>, quoted: bool) -> Option<Seq<char>>
    decreases s.len(),
{
    if s.len() == 0 {
        if quoted {
            None
        } else {
            Some(Seq::empty())
        }
    } else if s[0] == '\'' {
        posix_rest(s.skip(1), !quoted)
    } else if !quoted && s[0] == '\\' && s.len() > 1 {
        prepend(s[1], posix_rest(s.skip(2), false))
    } else if !quoted && is_shell_special(s[0]) {
        None
    } else {
        prepend(s[0], posix_rest(s.skip(1), quoted))
    }
}

/// A character in front of a word.
pub open spec fn prepend(c: char, rest: Option<Seq<char>>) -> Option<Seq<char>> {
    match rest {
        Some(r) => Some(seq![c] + r),
        None => None,
    }
}

/// A path between single quotes, from the front.
spec fn body_from_front(path: Seq<char>) -> Seq<char>
    decreases path.len(),
{
    if path.len() == 0 {
        Seq::empty()
    } else {
        (if path[0] == '\'' {
            "'\\''"@
        } else {
            seq![path[0]]
        }) + body_from_front(path.skip(1))
    }
}

proof fn lemma_body_push(path: Seq<char>, c: char)
    ensures
        body_from_front(path.push(c)) == body_from_front(path) + (if c == '\'' {
            "'\\''"@
        } else {
            seq![c]
        }),
    decreases path.len(),
{
    let last = if c == '\'' {
        "'\\''"@
    } else {
        seq![c]
    };
    if path.len() == 0 {
        reveal_with_fuel(body_from_front, 2);
        assert(path.push(c)[0] == c);
        assert(path.push(c).skip(1) =~= Seq::empty());
        assert(body_from_front(path.push(c)) =~= last);
        assert(body_from_front(path) + last =~= last);
    } else {
        assert(path.push(c).skip(1) =~= path.skip(1).push(c));
        lemma_body_push(path.skip(1), c);
        let first = if path[0] == '\'' {
            "'\\''"@
        } else {
            seq![path[0]]
        };
        assert(first + (body_from_front(path.skip(1)) + last) =~= first + body_from_front(
            path.skip(1),
        ) + last);
    }
}

proof fn lemma_body_both_ways(path: Seq<char>)
    ensures
        single_quote_body(path) == body_from_front(path),
    decreases path.len(),
{
    if path.len() > 0 {
        lemma_body_both_ways(path.drop_last());
        lemma_body_push(path.drop_last(), path.last());
        assert(path.drop_last().push(path.last()) =~= path);
    }
}

proof fn lemma_quoted_body(path: Seq<char>)
    ensures
        posix_rest(body_from_front(path) + seq!['\''], true) == Some(path),
    decreases path.len(),
{
    let s = body_from_front(path) + seq!['\''];
    if path.len() == 0 {
        assert(s =~= seq!['\'']);
        assert(s.skip(1) =~= Seq::empty());
        assert(posix_rest(s.skip(1), false) == Some(Seq::<char>::empty()));
    } else {
        let tail = body_from_front(path.skip(1)) + seq!['\''];
        lemma_quoted_body(path.skip(1));
        if path[0] == '\'' {
            reveal_strlit("'\\''");
            assert(s.len() == 4 + tail.len());
            assert(s[0] == '\'' && s[1] == '\\' && s[2] == '\'' && s[3] == '\'');
            let s1 = s.skip(1);
            let s3 = s1.skip(2);
            assert(s3[0] == '\'');
            assert(s3.skip(1) =~= tail);
            assert(posix_rest(s3, false) == posix_rest(tail, true));
            assert(s1[0] == '\\' && s1[1] == '\'');
            assert(posix_rest(s1, false) == prepend('\'', posix_rest(s3, false)));
            assert(posix_rest(s, true) == posix_rest(s1, false));
        } else {
            assert(s[0] == path[0]);
            assert(s.skip(1) =~= tail);
            assert(posix_rest(s, true) == prepend(path[0], posix_rest(tail, true)));
        }
        assert(seq![path[0]] + path.skip(1) =~= path);
    }
}

proof fn lemma_bare_word(path: Seq<char>)
    requires
        forall|i: int|
            0 <= i < path.len() ==> !is_shell_special(#[trigger] path[i]),
    ensures
        posix_rest(path, false) == Some(path),
    decreases path.len(),
{
    if path.len() == 0 {
        assert(path =~= Seq::empty());
    } else {
        assert(!is_shell_special(path[0]));
        assert forall|i: int| 0 <= i < path.skip(1).len() implies !is_shell_special(
            #[trigger] path.skip(1)[i],
        ) by {
            assert(path.skip(1)[i] == path[i + 1]);
        }
        lemma_bare_word(path.skip(1));
        assert(seq![path[0]] + path.skip(1) =~= path);
    }
}

/// A quoted path cannot break out of its quotes: a POSIX shell reads the word back as the path,
/// whatever the path holds.
pub proof fn quoted_path_reads_back(path: Seq<char>)
    ensures
        posix_word(in_single_quotes(path), false) == Some(path),
{
    lemma_body_both_ways(path);
    lemma_quoted_body(path);
    reveal_strlit("'");
    assert("'"@ =~= seq!['\'']);
    let s = in_single_quotes(path);
    assert(s[0] == '\'');
    assert(s.skip(1) =~= body_from_front(path) + seq!['\'']);
}

proof fn lemma_bare_path(path: Seq<char>)
    requires
        !needs_quotes(path, false),
        forall|i: int|
            0 <= i < path.len() && char_alphanumeric(#[trigger] path[i]) ==> !is_shell_special(path[i]),
    ensures
        posix_word(path, false) == Some(path),
{
    reveal_strlit("/._-:\\~+=,@");
    assert forall|i: int| 0 <= i < path.len() implies !is_shell_special(#[trigger] path[i]) by {
        assert(is_bare(path[i], false));
        if !char_alphanumeric(path[i]) {
            let k = choose|k: int|
                0 <= k < BARE_PUNCTUATION@.len() && BARE_PUNCTUATION@[k] == path[i];
            assert(BARE_PUNCTUATION@[k] == path[i]);
        }
    }
    lemma_bare_word(path);
}

} // verus!
