//! Remote and local paths: splitting them, checking them before a copy, and naming a file to the
//! desktop.
use vstd::prelude::*;
use vstd::string::*;
use vstd::utf8::*;

use crate::text::{
    chars_of, decimal, fields, fields_of, hex2, hex_digit, last_index, last_index_of, push_decimal,
    push_hex, same, starts_with_char, strip_prefix, trim, trim_end, trim_end_of, trim_of, views,
    CharClass,
};

verus! {

/// A path without the slashes at its end.
pub open spec fn without_trailing_slashes(path: Seq<char>) -> Seq<char> {
    trim_end_of(path, CharClass::Slash)
}

/// The last component of a path.
pub open spec fn basename_of(path: Seq<char>) -> Seq<char> {
    let t = without_trailing_slashes(path);
    match last_index_of(t, '/') {
        Some(i) => t.skip(i + 1),
        None => t,
    }
}

/// The directory that a path lies in: `/` for what lies in the root and for a bare name.
pub open spec fn parent_of(path: Seq<char>) -> Seq<char> {
    let t = without_trailing_slashes(path);
    match last_index_of(t, '/') {
        Some(i) => if i == 0 {
            "/"@
        } else {
            t.take(i)
        },
        None => "/"@,
    }
}

/// The last component of a remote path.
pub fn remote_basename(path: &str) -> (r: String)
    ensures
        r@ == basename_of(path@),
{
    let t = trim_end(path, CharClass::Slash);
    let v = chars_of(t);
    let n: usize = v.len();
    match last_index(&v, '/') {
        Some(i) => {
            assert(t@.subrange(i + 1, t@.len() as int) =~= t@.skip(i + 1));
            t.substring_char(i + 1, n).to_owned()
        },
        None => t.to_owned(),
    }
}

/// The directory that a remote path lies in.
pub fn remote_parent(path: &str) -> (r: String)
    ensures
        r@ == parent_of(path@),
{
    let t = trim_end(path, CharClass::Slash);
    let v = chars_of(t);
    match last_index(&v, '/') {
        Some(i) => if i == 0 {
            "/".to_owned()
        } else {
            assert(t@.subrange(0, i as int) =~= t@.take(i as int));
            t.substring_char(0, i).to_owned()
        },
        None => "/".to_owned(),
    }
}

/// The directory that a listed file lies in.
pub fn parent_dir(path: &str) -> (r: String)
    ensures
        r@ == parent_of(path@),
{
    remote_parent(path)
}

proof fn lemma_last_index(s: Seq<char>, c: char)
    ensures
        match last_index_of(s, c) {
            Some(i) => 0 <= i < s.len() && s[i] == c && forall|j: int|
                i < j < s.len() ==> s[j] != c,
            None => forall|j: int| 0 <= j < s.len() ==> s[j] != c,
        },
    decreases s.len(),
{
    if s.len() > 0 && s.last() != c {
        lemma_last_index(s.drop_last(), c);
        assert(forall|j: int| 0 <= j < s.len() - 1 ==> s.drop_last()[j] == s[j]);
    }
}

/// An absolute path is its directory, a slash and its last component, and that component holds no
/// slash.
pub proof fn parent_and_basename_make_the_path(path: Seq<char>)
    requires
        path.len() > 0,
        path[0] == '/',
        basename_of(path).len() > 0,
    ensures
        !basename_of(path).contains('/'),
        without_trailing_slashes(path) == parent_of(path) + "/"@ + basename_of(path) || (parent_of(
            path,
        ) == "/"@ && without_trailing_slashes(path) == "/"@ + basename_of(path)),
{
    let t = without_trailing_slashes(path);
    reveal_strlit("/");
    lemma_last_index(t, '/');
    assert("/"@ =~= seq!['/']);
    lemma_trim_end(path);
    match last_index_of(t, '/') {
        Some(i) => {
            if i == 0 {
                assert(t =~= "/"@ + t.skip(1));
            } else {
                assert(t =~= t.take(i) + "/"@ + t.skip(i + 1));
            }
        },
        None => {
            assert(t.len() > 0);
            assert(t[0] == '/');
        },
    }
}

/// An absolute path that does not end in a slash is its directory and its last component, with one
/// slash between them.
pub proof fn path_is_directory_and_name(path: Seq<char>)
    requires
        remote_path_refusal(path) is None,
        path.last() != '/',
    ensures
        basename_of(path).len() > 0,
        !basename_of(path).contains('/'),
        parent_of(path).len() > 0 && parent_of(path)[0] == '/',
        path == parent_of(path) + seq!['/'] + basename_of(path) || (parent_of(path) == seq!['/']
            && path == parent_of(path) + basename_of(path)),
{
    parent_and_basename_make_the_path(path);
    reveal_strlit("/");
    assert("/"@ =~= seq!['/']);
    assert(without_trailing_slashes(path) == path);
    let t = path;
    lemma_last_index(t, '/');
    let i = last_index_of(t, '/')->0;
    if i == 0 {
        assert(seq!['/'] + t.skip(1) =~= t);
    } else {
        assert(t.take(i)[0] == '/');
        assert(t.take(i) + seq!['/'] + t.skip(i + 1) =~= t);
    }
}

proof fn lemma_trim_end(path: Seq<char>)
    ensures
        without_trailing_slashes(path).len() <= path.len(),
        without_trailing_slashes(path) == path.take(without_trailing_slashes(path).len() as int),
    decreases path.len(),
{
    if path.len() > 0 && path.last() == '/' {
        lemma_trim_end(path.drop_last());
        let t = without_trailing_slashes(path);
        assert(path.drop_last().take(t.len() as int) =~= path.take(t.len() as int));
    } else {
        assert(path.take(path.len() as int) =~= path);
    }
}

/// Whether a path starts at the root.
pub open spec fn is_absolute(path: Seq<char>) -> bool {
    path.len() > 0 && path[0] == '/'
}

/// Whether one of the components of a path is `.` or `..`.
pub open spec fn has_dot_component(path: Seq<char>) -> bool {
    exists|i: int|
        0 <= i < fields_of(path, '/').len() && (#[trigger] fields_of(path, '/')[i] == "."@
            || fields_of(path, '/')[i] == ".."@)
}

fn dot_component(path: &str) -> (r: bool)
    ensures
        r == has_dot_component(path@),
{
    let f = fields(path, '/');
    assert(f@.len() == fields_of(path@, '/').len());
    let mut i: usize = 0;
    while i < f.len()
        invariant
            i <= f@.len(),
            views(f@) == fields_of(path@, '/'),
            f@.len() == fields_of(path@, '/').len(),
            forall|j: int|
                0 <= j < i ==> #[trigger] fields_of(path@, '/')[j] != "."@ && fields_of(
                    path@,
                    '/',
                )[j] != ".."@,
        decreases f@.len() - i,
    {
        assert(views(f@)[i as int] == f@[i as int]@);
        if same(f[i].as_str(), ".") || same(f[i].as_str(), "..") {
            return true;
        }
        i = i + 1;
    }
    false
}

pub const REMOTE_NOT_ABSOLUTE: &'static str = "remote_path 必须是绝对路径：";

pub const REMOTE_HAS_DOTS: &'static str = "remote_path 不能包含 \".\" 或 \"..\" 路径段：";

pub const REMOTE_NO_NAME: &'static str = "remote_path 缺少有效的文件名：";

pub const LOCAL_NOT_ABSOLUTE: &'static str = "local_path 必须是绝对路径：";

pub const LOCAL_HAS_DOTS: &'static str = "local_path 不能包含 \".\" 或 \"..\" 路径段：";

pub const LOCAL_NO_NAME: &'static str = "local_path 缺少有效的文件名：";

/// Why a remote path is refused, `None` where it is accepted: it must be absolute, without `.`
/// and `..` components, and name a file.
pub open spec fn remote_path_refusal(path: Seq<char>) -> Option<Seq<char>> {
    if !is_absolute(path) {
        Some(REMOTE_NOT_ABSOLUTE@ + path)
    } else if has_dot_component(path) {
        Some(REMOTE_HAS_DOTS@ + path)
    } else if basename_of(path).len() == 0 {
        Some(REMOTE_NO_NAME@ + path)
    } else {
        None
    }
}

/// Why a local path is refused, `None` where it is accepted: the rules for remote paths.
pub open spec fn local_path_refusal(path: Seq<char>) -> Option<Seq<char>> {
    if !is_absolute(path) {
        Some(LOCAL_NOT_ABSOLUTE@ + path)
    } else if has_dot_component(path) {
        Some(LOCAL_HAS_DOTS@ + path)
    } else if basename_of(path).len() == 0 {
        Some(LOCAL_NO_NAME@ + path)
    } else {
        None
    }
}

fn refuse(reason: &str, path: &str) -> (r: Result<(), String>)
    ensures
        r is Err,
        r->Err_0@ == reason@ + path@,
{
    let mut msg = reason.to_owned();
    msg.append(path);
    Err(msg)
}

/// Checks a remote path before a copy.
pub fn validate_remote_path(path: &str) -> (r: Result<(), String>)
    ensures
        match r {
            Ok(()) => remote_path_refusal(path@) is None,
            Err(msg) => remote_path_refusal(path@) == Some(msg@),
        },
{
    if !starts_with_char(path, '/') {
        return refuse(REMOTE_NOT_ABSOLUTE, path);
    }
    if dot_component(path) {
        return refuse(REMOTE_HAS_DOTS, path);
    }
    if remote_basename(path).as_str().is_empty() {
        return refuse(REMOTE_NO_NAME, path);
    }
    Ok(())
}

/// Checks a local path before a copy, as POSIX writes it: agents reach the program only where the
/// control channel runs, on a local socket of a Unix system.
pub fn validate_local_path(path: &str) -> (r: Result<(), String>)
    ensures
        match r {
            Ok(()) => local_path_refusal(path@) is None,
            Err(msg) => local_path_refusal(path@) == Some(msg@),
        },
{
    if !starts_with_char(path, '/') {
        return refuse(LOCAL_NOT_ABSOLUTE, path);
    }
    if dot_component(path) {
        return refuse(LOCAL_HAS_DOTS, path);
    }
    if remote_basename(path).as_str().is_empty() {
        return refuse(LOCAL_NO_NAME, path);
    }
    Ok(())
}

/// Whether a forward that binds to this host can only be reached from this machine. An empty host
/// stands for the loopback address.
pub open spec fn is_loopback(host: Seq<char>) -> bool {
    let h = trim_of(host);
    h.len() == 0 || h == "127.0.0.1"@ || h == "localhost"@ || h == "::1"@
}

/// Decides [`is_loopback`].
pub fn is_loopback_bind(host: &str) -> (r: bool)
    ensures
        r == is_loopback(host@),
{
    let h = trim(host);
    h.is_empty() || same(h, "127.0.0.1") || same(h, "localhost") || same(h, "::1")
}

/// A duration in words: `45s`, `3m20s` or `1h2m`.
pub open spec fn duration_text(secs: nat) -> Seq<char> {
    if secs >= 3600 {
        decimal(secs / 3600) + "h"@ + decimal((secs % 3600) / 60) + "m"@
    } else if secs >= 60 {
        decimal(secs / 60) + "m"@ + decimal(secs % 60) + "s"@
    } else {
        decimal(secs) + "s"@
    }
}

/// Writes a duration in words.
pub fn fmt_dur(secs: u64) -> (r: String)
    ensures
        r@ == duration_text(secs as nat),
{
    let mut s = String::new();
    assert(s@ + decimal(secs as nat) =~= decimal(secs as nat));
    assert(s@ + decimal(secs as nat / 60) =~= decimal(secs as nat / 60));
    assert(s@ + decimal(secs as nat / 3600) =~= decimal(secs as nat / 3600));
    if secs >= 3600 {
        push_decimal(&mut s, secs / 3600);
        s.append("h");
        push_decimal(&mut s, (secs % 3600) / 60);
        s.append("m");
    } else if secs >= 60 {
        push_decimal(&mut s, secs / 60);
        s.append("m");
        push_decimal(&mut s, secs % 60);
        s.append("s");
    } else {
        push_decimal(&mut s, secs);
        s.append("s");
    }
    s
}

/// The bytes that stand for themselves in a file URI: letters, digits and `/-_.~`.
pub open spec fn is_uri_plain(b: u8) -> bool {
    ||| 0x30 <= b <= 0x39
    ||| 0x41 <= b <= 0x5A
    ||| 0x61 <= b <= 0x7A
    ||| b == 0x2F || b == 0x2D || b == 0x5F || b == 0x2E || b == 0x7E
}

/// One byte of a path in a file URI.
pub open spec fn uri_byte(b: u8) -> Seq<char> {
    if is_uri_plain(b) {
        seq![b as char]
    } else {
        seq!['%'] + hex2(b, true)
    }
}

/// Bytes of a path in a file URI.
pub open spec fn uri_bytes(bytes: Seq<u8>) -> Seq<char>
    decreases bytes.len(),
{
    if bytes.len() == 0 {
        Seq::empty()
    } else {
        uri_bytes(bytes.drop_last()) + uri_byte(bytes.last())
    }
}

/// The `file://` URI of an absolute local path, percent-encoded byte by byte.
pub fn file_uri(p: &str) -> (r: String)
    ensures
        r@ == "file://"@ + uri_bytes(encode_utf8(p@)),
{
    let mut s = "file://".to_owned();
    let bytes = p.as_bytes();
    let mut i: usize = 0;
    assert("file://"@ + uri_bytes(bytes@.take(0)) =~= "file://"@);
    while i < bytes.len()
        invariant
            i <= bytes@.len(),
            bytes@ == encode_utf8(p@),
            s@ == "file://"@ + uri_bytes(bytes@.take(i as int)),
        decreases bytes@.len() - i,
    {
        let b: u8 = bytes[i];
        assert(bytes@.take(i + 1).drop_last() =~= bytes@.take(i as int));
        let ghost before = uri_bytes(bytes@.take(i as int));
        if (0x30 <= b && b <= 0x39) || (0x41 <= b && b <= 0x5A) || (0x61 <= b && b <= 0x7A) || b
            == 0x2F || b == 0x2D || b == 0x5F || b == 0x2E || b == 0x7E {
            s.push(b as char);
            assert(s@ =~= "file://"@ + (before + uri_byte(b)));
        } else {
            s.push('%');
            push_hex(&mut s, b, true);
            assert(s@ =~= "file://"@ + (before + uri_byte(b)));
        }
        i = i + 1;
    }
    assert(bytes@.take(bytes@.len() as int) =~= bytes@);
    s
}

/// The value of a hexadecimal digit.
pub open spec fn hex_value(c: char) -> int {
    if '0' <= c <= '9' {
        c as u32 - 48
    } else {
        c as u32 - 55
    }
}

/// The bytes that the path of a file URI stands for.
pub open spec fn uri_decoded(s: Seq<char>) -> Seq<u8>
    decreases s.len(),
{
    if s.len() >= 3 && s[s.len() - 3] == '%' {
        uri_decoded(s.take(s.len() - 3)).push(
            (hex_value(s[s.len() - 2]) * 16 + hex_value(s[s.len() - 1])) as u8,
        )
    } else if s.len() >= 1 {
        uri_decoded(s.drop_last()).push(s.last() as u8)
    } else {
        Seq::empty()
    }
}

proof fn lemma_percent_has_digits(bytes: Seq<u8>)
    ensures
        forall|j: int|
            0 <= j < uri_bytes(bytes).len() && #[trigger] uri_bytes(bytes)[j] == '%' ==> j + 2
                < uri_bytes(bytes).len(),
    decreases bytes.len(),
{
    if bytes.len() > 0 {
        lemma_percent_has_digits(bytes.drop_last());
        let before = uri_bytes(bytes.drop_last());
        let b = bytes.last();
        let all = uri_bytes(bytes);
        assert(all == before + uri_byte(b));
        assert forall|j: int| 0 <= j < all.len() && #[trigger] all[j] == '%' implies j + 2
            < all.len() by {
            if j < before.len() {
                assert(before[j] == '%');
            } else {
                assert(all[j] == uri_byte(b)[j - before.len()]);
            }
        }
    }
}

/// A file URI loses nothing: decoding its path gives back the path's bytes.
pub proof fn file_uri_decodes_to_the_path(bytes: Seq<u8>)
    ensures
        uri_decoded(uri_bytes(bytes)) == bytes,
    decreases bytes.len(),
{
    if bytes.len() > 0 {
        let before = uri_bytes(bytes.drop_last());
        let b = bytes.last();
        let s = uri_bytes(bytes);
        file_uri_decodes_to_the_path(bytes.drop_last());
        lemma_percent_has_digits(bytes.drop_last());
        assert(s == before + uri_byte(b));
        if is_uri_plain(b) {
            assert(s.drop_last() =~= before);
            assert(s.last() == b as char);
            if s.len() >= 3 {
                assert(s[s.len() - 3] == before[before.len() - 2]);
                assert(s[s.len() - 3] != '%');
            }
        } else {
            assert(s.take(s.len() - 3) =~= before);
            assert(s[s.len() - 3] == '%');
            assert(s[s.len() - 2] == hex_digit((b / 16) as nat, true));
            assert(s[s.len() - 1] == hex_digit((b % 16) as nat, true));
            assert(hex_value(hex_digit((b / 16) as nat, true)) == b / 16);
            assert(hex_value(hex_digit((b % 16) as nat, true)) == b % 16);
        }
        assert(bytes.drop_last().push(b) =~= bytes);
    }
}

/// The system that the program runs on.
#[derive(Clone, Copy, PartialEq, Eq, Structural)]
pub enum Platform {
    Windows,
    MacOs,
    Linux,
}

/// The arguments of the program that shows a file in the file manager.
pub open spec fn reveal_args_of(file: Seq<char>, p: Platform) -> Seq<Seq<char>> {
    match p {
        Platform::Windows => seq!["/select,"@ + file],
        Platform::MacOs => seq!["-R"@, file],
        Platform::Linux => seq![
            "--type=method_call"@,
            "--dest=org.freedesktop.FileManager1"@,
            "/org/freedesktop/FileManager1"@,
            "org.freedesktop.FileManager1.ShowItems"@,
            "array:string:"@ + "file://"@ + uri_bytes(encode_utf8(file)),
            "string:"@,
        ],
    }
}

/// The program that shows a file in the file manager, and its arguments.
pub fn reveal_command(file: &str, p: Platform) -> (r: (&'static str, Vec<String>))
    ensures
        r.0@ == (match p {
            Platform::Windows => "explorer"@,
            Platform::MacOs => "open"@,
            Platform::Linux => "dbus-send"@,
        }),
        views(r.1@) == reveal_args_of(file@, p),
{
    let mut args: Vec<String> = Vec::new();
    match p {
        Platform::Windows => {
            let mut a = "/select,".to_owned();
            a.append(file);
            args.push(a);
            assert(views(args@) =~= reveal_args_of(file@, p));
            ("explorer", args)
        },
        Platform::MacOs => {
            args.push("-R".to_owned());
            args.push(file.to_owned());
            assert(views(args@) =~= reveal_args_of(file@, p));
            ("open", args)
        },
        Platform::Linux => {
            let mut a = "array:string:".to_owned();
            let uri = file_uri(file);
            a.append(uri.as_str());
            args.push("--type=method_call".to_owned());
            args.push("--dest=org.freedesktop.FileManager1".to_owned());
            args.push("/org/freedesktop/FileManager1".to_owned());
            args.push("org.freedesktop.FileManager1.ShowItems".to_owned());
            args.push(a);
            args.push("string:".to_owned());
            proof {
                assert(a@ =~= "array:string:"@ + "file://"@ + uri_bytes(encode_utf8(file@)));
                assert(views(args@) =~= reveal_args_of(file@, p));
            }
            ("dbus-send", args)
        },
    }
}

/// Whether a file is named like the socket of a control channel.
pub fn is_control_socket(name: &str) -> (r: bool)
    ensures
        r == ("mcp-"@.is_prefix_of(name@) && ".sock"@.is_suffix_of(name@)),
{
    proof {
        reveal_strlit(".sock");
    }
    let n: usize = name.unicode_len();
    if n < 5 || strip_prefix(name, "mcp-").is_none() {
        return false;
    }
    let tail = name.substring_char(n - 5, n);
    let r: bool = same(tail, ".sock");
    proof {
        if ".sock"@.is_suffix_of(name@) {
            assert(tail@ =~= ".sock"@);
        }
        if r {
            assert(name@.subrange(n - 5, n as int) == ".sock"@);
            assert(".sock"@.is_suffix_of(name@));
        }
    }
    r
}

} // verus!
