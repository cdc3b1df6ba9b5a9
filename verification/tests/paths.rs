use ishell::image_view::file_name;
use ishell::paths::{
    file_uri, fmt_dur, is_control_socket, is_loopback_bind, parent_dir, remote_basename,
    remote_parent, reveal_command, validate_local_path, validate_remote_path, Platform,
};
use ishell::quoting::{quote_shell_arg, single_quoted};
use ishell::text::{decimal_string, fields, hex_string, join, parse_u16, parse_unsigned, trim, words};

#[test]
fn remote_path_must_be_absolute() {
    assert!(validate_remote_path("notes.txt").is_err());
    assert!(validate_remote_path("/notes.txt").is_ok());
}

#[test]
fn remote_path_rejects_dot_and_dotdot_segments() {
    assert!(validate_remote_path("/foo/../bar").is_err());
    assert!(validate_remote_path("/foo/./bar").is_err());
    assert!(validate_remote_path("/foo/bar").is_ok());
}

#[test]
fn remote_path_rejects_empty_basename() {
    assert!(validate_remote_path("/").is_err());
    assert!(validate_remote_path("////").is_err());
}

#[test]
fn remote_parent_and_basename_split_normal_paths() {
    assert_eq!(remote_parent("/foo/bar.txt"), "/foo");
    assert_eq!(remote_basename("/foo/bar.txt"), "bar.txt");
    assert_eq!(remote_parent("/bar.txt"), "/");
}

#[test]
fn local_path_must_be_absolute() {
    assert!(validate_local_path("notes.txt").is_err());
    assert!(validate_local_path("/tmp/notes.txt").is_ok());
}

#[test]
fn local_path_rejects_dot_and_dotdot_segments() {
    assert!(validate_local_path("/tmp/../etc/passwd").is_err());
    assert!(validate_local_path("/tmp/./notes.txt").is_err());
}

#[test]
fn local_path_rejects_root_and_missing_filename() {
    assert!(validate_local_path("/").is_err());
}

#[test]
fn loopback_bind_detects_common_hosts() {
    assert!(is_loopback_bind(""));
    assert!(is_loopback_bind("127.0.0.1"));
    assert!(is_loopback_bind("localhost"));
    assert!(is_loopback_bind("::1"));
    assert!(!is_loopback_bind("0.0.0.0"));
    assert!(!is_loopback_bind("192.168.1.1"));
}

#[test]
fn parent_dir_basics() {
    assert_eq!(parent_dir("/a/b/c"), "/a/b");
    assert_eq!(parent_dir("/a"), "/");
    assert_eq!(parent_dir("name"), "/");
    assert_eq!(parent_dir("/a/b/"), "/a");
}

#[test]
fn fmt_dur_compact() {
    assert_eq!(fmt_dur(0), "0s");
    assert_eq!(fmt_dur(45), "45s");
    assert_eq!(fmt_dur(80), "1m20s");
    assert_eq!(fmt_dur(3600), "1h0m");
    assert_eq!(fmt_dur(3723), "1h2m");
}

#[test]
fn a_clean_path_is_left_alone() {
    assert_eq!(
        quote_shell_arg("/tmp/ishell-paste-1788000000000.png", false),
        "/tmp/ishell-paste-1788000000000.png"
    );
    assert_eq!(quote_shell_arg("C:\\Temp\\a.png", true), "C:\\Temp\\a.png");
}

#[test]
fn a_path_with_spaces_is_quoted() {
    assert_eq!(
        quote_shell_arg("/tmp/my pics/a.png", false),
        "'/tmp/my pics/a.png'"
    );
    assert_eq!(
        quote_shell_arg("C:\\Users\\Some Name\\AppData\\Local\\Temp\\a.png", true),
        "\"C:\\Users\\Some Name\\AppData\\Local\\Temp\\a.png\""
    );
}

#[test]
fn shell_metacharacters_cannot_escape_the_quotes() {
    assert_eq!(quote_shell_arg("/tmp/a'b.png", false), "'/tmp/a'\\''b.png'");
    assert_eq!(quote_shell_arg("/tmp/$(id).png", false), "'/tmp/$(id).png'");
    assert_eq!(quote_shell_arg("/tmp/a`id`.png", false), "'/tmp/a`id`.png'");
    assert_eq!(quote_shell_arg("", false), "''");
}

#[test]
fn a_posix_shell_keeps_no_backslash_and_no_leading_tilde_bare() {
    assert_eq!(quote_shell_arg("/tmp/a\\b.png", false), "'/tmp/a\\b.png'");
    assert_eq!(quote_shell_arg("/tmp/a\\b.png", true), "/tmp/a\\b.png");
    assert_eq!(quote_shell_arg("~/a.png", false), "'~/a.png'");
    assert_eq!(quote_shell_arg("~", false), "'~'");
    assert_eq!(quote_shell_arg("~\\a.png", true), "~\\a.png");
    assert_eq!(quote_shell_arg("/tmp/a~1.png", false), "/tmp/a~1.png");
    assert_eq!(quote_shell_arg("a~", false), "a~");
}

#[test]
fn letters_of_any_script_need_no_quotes() {
    assert_eq!(quote_shell_arg("/tmp/图片é9.png", false), "/tmp/图片é9.png");
    assert_eq!(quote_shell_arg("/tmp/a…b", false), "'/tmp/a…b'");
    assert_eq!(single_quoted("it's"), "'it'\\''s'");
}

#[test]
fn parent_and_name_make_the_path() {
    for p in ["/a/b", "/a", "/x/y/z.txt"] {
        let parent = remote_parent(p);
        let name = remote_basename(p);
        let whole = if parent == "/" { format!("/{name}") } else { format!("{parent}/{name}") };
        assert_eq!(whole, p);
    }
    assert_eq!(remote_basename("/a/b//"), "b");
    assert_eq!(file_name("/a/b/"), "");
    assert_eq!(file_name("b"), "b");
    assert_eq!(file_name("/a/é.png"), "é.png");
}

#[test]
fn a_file_uri_escapes_every_byte_that_is_not_plain() {
    assert_eq!(file_uri("/tmp/a-b_c.d~e"), "file:///tmp/a-b_c.d~e");
    assert_eq!(file_uri("/a b/é"), "file:///a%20b/%C3%A9");
}

#[test]
fn each_system_shows_a_file_in_its_own_way() {
    assert_eq!(
        reveal_command("C:\\a", Platform::Windows),
        ("explorer", vec!["/select,C:\\a".to_string()])
    );
    assert_eq!(
        reveal_command("/a b", Platform::MacOs),
        ("open", vec!["-R".to_string(), "/a b".to_string()])
    );
    let (program, args) = reveal_command("/a b", Platform::Linux);
    assert_eq!(program, "dbus-send");
    assert_eq!(args.len(), 6);
    assert_eq!(args[4], "array:string:file:///a%20b");
}

#[test]
fn a_refused_path_says_why() {
    assert!(validate_remote_path("a").unwrap_err().contains("a"));
    assert!(validate_remote_path("/a/..").is_err());
    assert!(validate_local_path("/a/.").is_err());
}

#[test]
fn numbers_are_read_as_the_standard_library_reads_them() {
    for s in ["0", "00", "+1", "65535", "65536", "99999999999999999999999", "", "+", "-1", "1 ", "١"] {
        assert_eq!(parse_u16(s), s.parse::<u16>().ok(), "{s:?}");
        assert_eq!(parse_unsigned(s, u64::MAX), s.parse::<u64>().ok(), "{s:?}");
    }
    assert_eq!(parse_unsigned("18446744073709551615", u64::MAX), Some(u64::MAX));
    assert_eq!(parse_unsigned("18446744073709551616", u64::MAX), None);
}

#[test]
fn text_is_split_and_joined_as_by_the_standard_library() {
    for s in ["", " ", "a", " a\u{3000}b\tc ", "é ü"] {
        assert_eq!(words(s), s.split_whitespace().collect::<Vec<_>>());
        assert_eq!(trim(s), s.trim());
    }
    for s in ["", "|", "a|b", "|a||b|"] {
        let parts = fields(s, '|');
        assert_eq!(parts, s.split('|').collect::<Vec<_>>());
        assert_eq!(join(&parts, "|"), s);
    }
    assert_eq!(decimal_string(0), "0");
    assert_eq!(decimal_string(u64::MAX), u64::MAX.to_string());
    assert_eq!(hex_string(&[0, 10, 255]), "000aff");
}

#[test]
fn a_control_socket_is_known_by_its_name() {
    assert!(is_control_socket("mcp-123.sock"));
    assert!(is_control_socket("mcp-.sock"));
    assert!(!is_control_socket("mcp-123"));
    assert!(!is_control_socket("x-123.sock"));
    assert!(!is_control_socket("sock"));
}
