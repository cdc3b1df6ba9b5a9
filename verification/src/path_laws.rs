//! What holds of the texts that say where something is: paths, addresses, written connections, keys.
use vstd::prelude::*;
use vstd::string::*;
use vstd::utf8::*;

use crate::keys::{keypair_of, openssh_private_key, openssh_public_key};
use crate::paste::{is_relay_tmp, PasteEnv};
use crate::paths::{
    basename_of, file_uri_decodes_to_the_path, is_loopback, local_path_refusal, remote_path_refusal,
    reveal_args_of, uri_bytes, uri_decoded, Platform,
};
use crate::quoting::{
    char_alphanumeric, is_bare, shell_word, without_double_quotes, BARE_PUNCTUATION,
};
use crate::saved::{ConnectConfig, Transport};
use crate::startup::autoconnect_of;
use crate::text::{
    decimal, field_len, fields_of, hex_of, last_index_of, trim_end_of, trim_of, u16_of, CharClass,
};
use crate::text_laws::{decimal_is_digits, lemma_decimal_differs};

verus! {

proof fn lemma_field(a: Seq<char>, sep: char, rest: Seq<char>)
    requires
        !a.contains(sep),
    ensures
        field_len(a, sep) == a.len(),
        field_len(a + seq![sep] + rest, sep) == a.len(),
    decreases a.len(),
{
    let s = a + seq![sep] + rest;
    if a.len() == 0 {
        assert(s[0] == sep);
    } else {
        assert(a[0] != sep) by {
            assert(a.contains(a[0]));
        }
        assert(s[0] == a[0]);
        assert forall|c: char| #[trigger] a.drop_first().contains(c) implies a.contains(c) by {
            let i = choose|i: int| 0 <= i < a.drop_first().len() && a.drop_first()[i] == c;
            assert(a[i + 1] == c);
        }
        lemma_field(a.drop_first(), sep, rest);
        assert(s.drop_first() =~= a.drop_first() + seq![sep] + rest);
    }
}

proof fn lemma_fields(a: Seq<char>, sep: char, rest: Seq<char>)
    requires
        !a.contains(sep),
    ensures
        fields_of(a, sep) == seq![a],
        fields_of(a + seq![sep] + rest, sep) == seq![a] + fields_of(rest, sep),
{
    let s = a + seq![sep] + rest;
    lemma_field(a, sep, rest);
    assert(s.take(a.len() as int) =~= a);
    assert(s.skip(a.len() as int + 1) =~= rest);
}

/// A connection as it is written down: its parts with bars between them.
pub open spec fn written(host: Seq<char>, port: u16, user: Seq<char>, key: Seq<char>) -> Seq<char> {
    host + seq!['|'] + (decimal(port as nat) + seq!['|'] + (user + seq!['|'] + key))
}

proof fn lemma_written(host: Seq<char>, port: u16, user: Seq<char>, key: Seq<char>)
    requires
        !host.contains('|') && !user.contains('|') && !key.contains('|'),
    ensures
        fields_of(written(host, port, user, key), '|') == seq![
            host,
            decimal(port as nat),
            user,
            key,
        ],
        u16_of(decimal(port as nat)) == Some(port),
{
    let d = decimal(port as nat);
    decimal_is_digits(port as nat);
    crate::window_laws::a_port_reads_back(port);
    crate::window_laws::lemma_trim_nothing(d);
    assert(!d.contains('|')) by {
        if d.contains('|') {
            let i = choose|i: int| 0 <= i < d.len() && d[i] == '|';
            assert('0' <= d[i] <= '9');
        }
    }
    lemma_fields(user, '|', key);
    lemma_fields(key, '|', key);
    lemma_fields(d, '|', user + seq!['|'] + key);
    lemma_fields(host, '|', d + seq!['|'] + (user + seq!['|'] + key));
    assert(fields_of(written(host, port, user, key), '|') =~= seq![host, d, user, key]);
}

/// A connection that is written down is opened as it is written: to that host and port, as that user,
/// with that key file, or with the agent where its name stands there; through the host that is
/// written beside it, if any.
pub proof fn a_written_connection_is_opened(
    host: Seq<char>,
    port: u16,
    user: Seq<char>,
    key: Seq<char>,
    hop: Option<(Seq<char>, u16, Seq<char>, Seq<char>)>,
    c: ConnectConfig,
)
    requires
        !host.contains('|') && !user.contains('|') && !key.contains('|'),
        hop is Some ==> !(hop->0).0.contains('|') && !(hop->0).2.contains('|') && !(hop->0).3.contains('|'),
        autoconnect_of(
            written(host, port, user, key),
            match hop {
                Some((h, p, u, k)) => Some(written(h, p, u, k)),
                None => None,
            },
        ) == Some(c@),
    ensures
        c.host@ == host && c.port == port && c.username@ == user,
        c.transport == Transport::Ssh && !c.forward_agent,
        key == "agent"@ ==> c.auth is Agent,
        key != "agent"@ ==> c.auth is KeyFile && c.auth->KeyFile_path@ == key
            && c.auth->KeyFile_passphrase is None,
        hop is None ==> c.jump is None,
        hop is Some ==> {
            &&& c.jump is Some
            &&& c.jump->0.host@ == (hop->0).0 && c.jump->0.port == (hop->0).1
            &&& c.jump->0.username@ == (hop->0).2
            &&& c.jump->0.auth is KeyFile && c.jump->0.auth->KeyFile_path@ == (hop->0).3
        },
{
    lemma_written(host, port, user, key);
    if hop is Some {
        lemma_written((hop->0).0, (hop->0).1, (hop->0).2, (hop->0).3);
    }
}

/// What is written as a connection is read as one, and what has more or fewer parts is not.
pub proof fn a_written_connection_is_read(
    host: Seq<char>,
    port: u16,
    user: Seq<char>,
    key: Seq<char>,
    s: Seq<char>,
)
    requires
        !host.contains('|') && !user.contains('|') && !key.contains('|'),
    ensures
        autoconnect_of(written(host, port, user, key), None) is Some,
        !s.contains('|') ==> autoconnect_of(s, None) is None,
{
    lemma_written(host, port, user, key);
    if !s.contains('|') {
        lemma_fields(s, '|', s);
    }
}

/// `name` is one of the components of a path.
pub open spec fn has_component(path: Seq<char>, name: Seq<char>) -> bool {
    exists|i: int| 0 <= i < fields_of(path, '/').len() && #[trigger] fields_of(path, '/')[i] == name
}

proof fn lemma_component(a: Seq<char>, name: Seq<char>, b: Seq<char>)
    requires
        !name.contains('/'),
    ensures
        has_component(a + seq!['/'] + (name + seq!['/'] + b), name),
        has_component(a + seq!['/'] + name, name),
    decreases a.len(),
{
    let long = name + seq!['/'] + b;
    let x = a + seq!['/'] + long;
    let y = a + seq!['/'] + name;
    lemma_fields(name, '/', b);
    if !a.contains('/') {
        lemma_fields(a, '/', long);
        lemma_fields(a, '/', name);
        assert(fields_of(x, '/')[1] == name);
        assert(fields_of(y, '/')[1] == name);
    } else {
        let n = field_len(a, '/') as int;
        lemma_first_field(a, '/');
        let head = a.take(n);
        let rest = a.skip(n + 1);
        assert(a =~= head + seq!['/'] + rest);
        lemma_component(rest, name, b);
        let p = rest + seq!['/'] + long;
        let q = rest + seq!['/'] + name;
        assert(x =~= head + seq!['/'] + p);
        assert(y =~= head + seq!['/'] + q);
        lemma_fields(head, '/', p);
        lemma_fields(head, '/', q);
        let i = choose|i: int|
            0 <= i < fields_of(p, '/').len() && #[trigger] fields_of(p, '/')[i] == name;
        let j = choose|j: int|
            0 <= j < fields_of(q, '/').len() && #[trigger] fields_of(q, '/')[j] == name;
        assert(fields_of(x, '/')[i + 1] == name);
        assert(fields_of(y, '/')[j + 1] == name);
    }
}

proof fn lemma_first_field(a: Seq<char>, sep: char)
    requires
        a.contains(sep),
    ensures
        field_len(a, sep) < a.len(),
        a[field_len(a, sep) as int] == sep,
        !a.take(field_len(a, sep) as int).contains(sep),
    decreases a.len(),
{
    if a[0] != sep {
        let d = a.drop_first();
        let k = choose|k: int| 0 <= k < a.len() && a[k] == sep;
        assert(d[k - 1] == sep);
        lemma_first_field(d, sep);
        let n = field_len(a, sep) as int;
        let t = a.take(n);
        if t.contains(sep) {
            let i = choose|i: int| 0 <= i < t.len() && t[i] == sep;
            assert(i > 0);
            assert(d.take(n - 1)[i - 1] == sep);
        }
    }
}

/// A path that climbs, with a component `..` in the middle or at the end, is refused here and there,
/// and so is one with a component `.`.
pub proof fn a_path_that_climbs_is_refused(a: Seq<char>, b: Seq<char>)
    ensures
        remote_path_refusal(a + "/../"@ + b) is Some,
        remote_path_refusal(a + "/.."@) is Some,
        remote_path_refusal(a + "/./"@ + b) is Some,
        remote_path_refusal(a + "/."@) is Some,
        local_path_refusal(a + "/../"@ + b) is Some,
        local_path_refusal(a + "/.."@) is Some,
        local_path_refusal(a + "/./"@ + b) is Some,
        local_path_refusal(a + "/."@) is Some,
{
    reveal_strlit("/../");
    reveal_strlit("/..");
    reveal_strlit("/./");
    reveal_strlit("/.");
    reveal_strlit("..");
    reveal_strlit(".");
    let two = ".."@;
    let one = "."@;
    assert(!two.contains('/'));
    assert(!one.contains('/'));
    lemma_component(a, two, b);
    lemma_component(a, one, b);
    assert(a + "/../"@ + b =~= a + seq!['/'] + (two + seq!['/'] + b));
    assert(a + "/.."@ =~= a + seq!['/'] + two);
    assert(a + "/./"@ + b =~= a + seq!['/'] + (one + seq!['/'] + b));
    assert(a + "/."@ =~= a + seq!['/'] + one);
    lemma_dots(a + "/../"@ + b);
    lemma_dots(a + "/.."@);
    lemma_dots(a + "/./"@ + b);
    lemma_dots(a + "/."@);
}

proof fn lemma_dots(path: Seq<char>)
    requires
        has_component(path, "."@) || has_component(path, ".."@),
    ensures
        crate::paths::has_dot_component(path),
{
    if has_component(path, "."@) {
        let i = choose|i: int|
            0 <= i < fields_of(path, '/').len() && #[trigger] fields_of(path, '/')[i] == "."@;
        assert(fields_of(path, '/')[i] == "."@);
    } else {
        let i = choose|i: int|
            0 <= i < fields_of(path, '/').len() && #[trigger] fields_of(path, '/')[i] == ".."@;
        assert(fields_of(path, '/')[i] == ".."@);
    }
}

proof fn lemma_has_name(path: Seq<char>)
    requires
        path.len() > 0,
        path.last() != '/',
    ensures
        basename_of(path).len() > 0,
{
    let t = trim_end_of(path, CharClass::Slash);
    assert(t == path);
    lemma_last_index(path, '/');
}

proof fn lemma_last_index(s: Seq<char>, c: char)
    ensures
        last_index_of(s, c) is Some ==> 0 <= last_index_of(s, c)->0 < s.len() && s[last_index_of(
            s,
            c,
        )->0] == c,
    decreases s.len(),
{
    if s.len() > 0 && s.last() != c {
        lemma_last_index(s.drop_last(), c);
    }
}

/// A path that does not start at the root is refused; one that does, ends in a name and never climbs
/// is accepted.
pub proof fn a_plain_path_is_accepted(path: Seq<char>)
    ensures
        path.len() == 0 || path[0] != '/' ==> remote_path_refusal(path) is Some
            && local_path_refusal(path) is Some,
        path.len() > 0 && path[0] == '/' && path.last() != '/' && !has_component(path, "."@)
            && !has_component(path, ".."@) ==> remote_path_refusal(path) is None
            && local_path_refusal(path) is None,
{
    if path.len() > 0 && path.last() != '/' {
        lemma_has_name(path);
    }
    if crate::paths::has_dot_component(path) {
        let i = choose|i: int|
            0 <= i < fields_of(path, '/').len() && (#[trigger] fields_of(path, '/')[i] == "."@
                || fields_of(path, '/')[i] == ".."@);
        assert(fields_of(path, '/')[i] == "."@ || fields_of(path, '/')[i] == ".."@);
    }
}

/// The file manager is asked for the file itself: its path stands last, or in the address that decodes
/// to its bytes.
pub proof fn the_file_manager_shows_the_file(file: Seq<char>)
    ensures
        reveal_args_of(file, Platform::Windows).len() == 1,
        file.is_suffix_of(reveal_args_of(file, Platform::Windows)[0]),
        reveal_args_of(file, Platform::MacOs).last() == file,
        ({
            let arg = reveal_args_of(file, Platform::Linux)[4];
            &&& arg.take(20) == "array:string:"@ + "file://"@
            &&& uri_decoded(arg.skip(20)) == encode_utf8(file)
        }),
{
    reveal_strlit("array:string:");
    reveal_strlit("file://");
    file_uri_decodes_to_the_path(encode_utf8(file));
    let arg = reveal_args_of(file, Platform::Linux)[4];
    assert(arg.skip(20) =~= uri_bytes(encode_utf8(file)));
    assert(arg.take(20) =~= "array:string:"@ + "file://"@);
    let w = reveal_args_of(file, Platform::Windows)[0];
    assert(w == "/select,"@ + file);
    assert(w.skip(w.len() - file.len()) =~= file);
}

/// An address in numbers that only this machine reaches starts with 127.
pub proof fn only_127_is_reached_from_here_alone(host: Seq<char>)
    requires
        is_loopback(host),
        trim_of(host).contains('.'),
    ensures
        trim_of(host)[0] == '1' && trim_of(host)[1] == '2' && trim_of(host)[2] == '7',
{
    reveal_strlit("127.0.0.1");
    reveal_strlit("localhost");
    reveal_strlit("::1");
    let h = trim_of(host);
    let i = choose|i: int| 0 <= i < h.len() && h[i] == '.';
    assert(h[i] == '.');
}

/// Two copies through this machine never meet in one temporary file, whatever they are called, and
/// each temporary file lies below the directory for them and is called like the file that it holds.
pub proof fn relayed_files_stay_apart(
    a: Seq<char>,
    b: Seq<char>,
    env: PasteEnv,
    m: u64,
    n: u64,
    x: Seq<char>,
    y: Seq<char>,
)
    requires
        is_relay_tmp(a, env, m, x),
        is_relay_tmp(b, env, n, y),
    ensures
        m != n ==> a != b,
        env.relay_root@.is_prefix_of(a),
        x.is_suffix_of(a),
{
    let sep = if env.windows {
        "\\"@
    } else {
        "/"@
    };
    let p = choose|p: Seq<u8>|
        p.len() == 8 && a == env.relay_root@ + sep + decimal(env.pid as nat) + "-"@ + decimal(
            m as nat,
        ) + "-"@ + #[trigger] hex_of(p) + sep + x;
    let q = choose|q: Seq<u8>|
        q.len() == 8 && b == env.relay_root@ + sep + decimal(env.pid as nat) + "-"@ + decimal(
            n as nat,
        ) + "-"@ + #[trigger] hex_of(q) + sep + y;
    reveal_strlit("-");
    let head = env.relay_root@ + sep + decimal(env.pid as nat) + "-"@;
    let dm = decimal(m as nat);
    let dn = decimal(n as nat);
    decimal_is_digits(m as nat);
    decimal_is_digits(n as nat);
    assert(a.take(env.relay_root@.len() as int) =~= env.relay_root@);
    assert(a.skip(a.len() - x.len()) =~= x);
    assert(a.subrange(head.len() as int, (head.len() + dm.len()) as int) =~= dm);
    assert(a[(head.len() + dm.len()) as int] == '-');
    assert(b.subrange(head.len() as int, (head.len() + dn.len()) as int) =~= dn);
    assert(b[(head.len() + dn.len()) as int] == '-');
    if m != n && a == b {
        lemma_decimal_differs(m as nat, n as nat);
        if dm.len() < dn.len() {
            assert(b[(head.len() + dm.len()) as int] == dn[dm.len() as int]);
        } else if dn.len() < dm.len() {
            assert(a[(head.len() + dn.len()) as int] == dm[dn.len() as int]);
        }
    }
}

/// A one-time key pair is one: both halves come from the same seed and carry the same marker, and the
/// line for the target is the public half, restricted to moving files.
pub proof fn both_halves_of_a_key_belong_together(
    seed: Seq<u8>,
    marker: Seq<char>,
    pem: Seq<u8>,
    line: Seq<char>,
)
    requires
        keypair_of(seed, marker) == Ok::<(Seq<u8>, Seq<char>), Seq<char>>((pem, line)),
    ensures
        openssh_private_key(seed, marker) == Ok::<Seq<u8>, Seq<char>>(pem),
        line.len() >= 9 && line.take(9) == "restrict "@,
        openssh_public_key(seed, marker) == Ok::<Seq<char>, Seq<char>>(line.skip(9)),
{
    reveal_strlit("restrict ");
    let pubkey = openssh_public_key(seed, marker)->Ok_0;
    assert(line == "restrict "@ + pubkey);
    assert(line.skip(9) =~= pubkey);
    assert(line.take(9) =~= "restrict "@);
}

proof fn lemma_no_quotes(path: Seq<char>)
    ensures
        !without_double_quotes(path).contains('"'),
        !path.contains('"') ==> without_double_quotes(path) == path,
    decreases path.len(),
{
    if path.len() > 0 {
        let d = path.drop_last();
        let rest = without_double_quotes(d);
        let all = without_double_quotes(path);
        lemma_no_quotes(d);
        if all.contains('"') {
            let i = choose|i: int| 0 <= i < all.len() && all[i] == '"';
            if i < rest.len() {
                assert(rest[i] == '"');
            }
        }
        if !path.contains('"') {
            assert(path[path.len() - 1] != '"');
            if d.contains('"') {
                let i = choose|i: int| 0 <= i < d.len() && d[i] == '"';
                assert(path[i] == '"');
            }
            assert(d.push(path.last()) =~= path);
        }
    }
}

/// A word between two double quotes, with none inside it.
pub open spec fn between_quotes(w: Seq<char>) -> bool {
    &&& w.len() >= 2 && w[0] == '"' && w.last() == '"'
    &&& !w.subrange(1, w.len() - 1).contains('"')
}

/// On Windows a path is typed as it is, or as it is between two double quotes, and always so where it
/// holds something that would part it or end it: no quote inside it can end the word.
pub proof fn a_windows_path_is_one_word(path: Seq<char>, c: char)
    requires
        c == ' ' || c == '&' || c == '"',
        !char_alphanumeric(c),
    ensures
        ({
            let w = shell_word(path, true);
            &&& w == path || between_quotes(w)
            &&& path.contains(c) ==> between_quotes(w)
            &&& w != path && !path.contains('"') ==> w.subrange(1, w.len() - 1) == path
        }),
{
    reveal_strlit("\"");
    reveal_strlit("/._-:\\~+=,@");
    lemma_no_quotes(path);
    let w = shell_word(path, true);
    let quoted = "\""@ + without_double_quotes(path) + "\""@;
    assert(quoted.subrange(1, quoted.len() - 1) =~= without_double_quotes(path));
    assert(between_quotes(quoted));
    if path.contains(c) {
        let i = choose|i: int| 0 <= i < path.len() && path[i] == c;
        assert(!BARE_PUNCTUATION@.contains(c));
        assert(!is_bare(path[i], true));
    }
}

} // verus!
