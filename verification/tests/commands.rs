use ishell::runs::{cap_output_for_ai, clamp_timeout, run_is_abandoned, MAX_RUN_OUTPUT_BYTES, RECLAIM_IDLE};
use ishell::shell::{
    exit_followed_by_command, is_shell_word_start, normalized_session_ender,
    top_level_command_segments, trim_leading_echo, validate_run_command, wrap_session_ender,
};

#[test]
fn only_a_single_non_empty_line_is_accepted() {
    assert!(validate_run_command("ls -l").is_ok());
    assert!(validate_run_command("cd /tmp && ls; echo done").is_ok(), "单行里的 ; && 照常");
    assert!(validate_run_command("echo one\necho two").is_err());
    assert!(validate_run_command("cat <<EOF\nbody\nEOF").is_err(), "heredoc 也是多行");
    assert!(validate_run_command("ls\r").is_err(), "裸回车同样是「按下 Enter」");
    assert!(validate_run_command("").is_err());
    assert!(validate_run_command("   \t ").is_err(), "只有空白等于空命令");
}

#[test]
fn only_an_abandoned_run_is_reclaimed() {
    let long = RECLAIM_IDLE + 1000;
    assert!(run_is_abandoned(long, true, false), "没人等、无输出、久未轮询：该回收");
    assert!(
        !run_is_abandoned(long, false, false),
        "终端还在输出（构建/测试在跑）：命令活着，不能回收"
    );
    assert!(
        !run_is_abandoned(long, true, true),
        "有等待者挂着：有人在意这条运行，不能回收"
    );
    assert!(
        !run_is_abandoned(1000, true, false),
        "刚轮询过：AI 还在跟进，不能回收"
    );
}

#[test]
fn session_enders_get_subshell_wrapped() {
    assert_eq!(wrap_session_ender("exit"), "(exit)");
    assert_eq!(wrap_session_ender("exit 42"), "(exit 42)");
    assert_eq!(wrap_session_ender("  exit 0 ;  "), "  (exit 0) ;  ");
    assert_eq!(wrap_session_ender("exit -1"), "(exit -1)");
    assert_eq!(wrap_session_ender("cd /x; exit"), "cd /x; (exit)");
    assert_eq!(wrap_session_ender("cd /x; exit 7"), "cd /x; (exit 7)");
    assert_eq!(wrap_session_ender("make && exit 1"), "make && (exit 1)");
    assert_eq!(wrap_session_ender("make || exit 1"), "make || (exit 1)");
    assert_eq!(wrap_session_ender("cmd; exit 3 # done"), "cmd; (exit 3) # done");
    assert_eq!(wrap_session_ender("cmd; exit 3;"), "cmd; (exit 3);", "末尾空段不算后续命令");
    assert_eq!(wrap_session_ender("cmd & exit 3"), "cmd & (exit 3)");
    assert_eq!(wrap_session_ender("cmd | exit 3"), "cmd | (exit 3)");
    assert_eq!(wrap_session_ender("echo hi >&2; exit 1"), "echo hi >&2; (exit 1)");
    assert_eq!(wrap_session_ender("echo hi 2>&1; exit 1"), "echo hi 2>&1; (exit 1)");
    assert_eq!(
        wrap_session_ender("echo \"a; exit\"; exit 3"),
        "echo \"a; exit\"; (exit 3)"
    );
    assert_eq!(wrap_session_ender("echo '; exit'; exit 3"), "echo '; exit'; (exit 3)");
}

#[test]
fn non_session_enders_pass_through_unchanged() {
    for cmd in [
        "ls -l",
        "exit $code",
        "exit $(false; echo 1)",
        "exiting",
        "echo exit",
        "exit 1 2",
        "EXIT 3",
        "(exit 3)",
        "$(exit 3)",
        "if true; then exit 1; fi",
        "while true; do exit; done",
        "find . -name x -exec exit 1 \\;",
        "echo \"; exit\"",
        "echo '; exit'",
        "echo hi # ; exit 3",
        "echo a#b",
        "exit && reboot",
        "cmd; exit 1; echo after",
    ] {
        assert_eq!(wrap_session_ender(cmd), cmd, "不应改写：{cmd}");
    }
    assert_eq!(wrap_session_ender(""), "");
    assert_eq!(wrap_session_ender("logout"), "logout");
    assert_eq!(wrap_session_ender("cmd; logout"), "cmd; logout");
}

#[test]
fn logout_is_rejected_with_a_pointer_to_close_session() {
    let err = validate_run_command("logout").expect_err("logout 应被拒绝");
    assert!(err.contains("close_session"), "报错要指明替代做法：{err}");
    assert!(validate_run_command("  logout ; ").is_err());
    assert!(validate_run_command("cmd; logout").is_err(), "命令链里的 logout 也要拒绝");
    assert!(validate_run_command("cmd && logout 2").is_err());
    assert!(validate_run_command("logout # 注释").is_err());
    assert!(validate_run_command("exit 3").is_ok(), "exit 走子 shell 包裹，不拒绝");
    assert!(validate_run_command("cd /x; exit 7").is_ok(), "复合命令里的 exit 同样不拒绝");
    assert!(validate_run_command("echo logout").is_ok());
    assert!(validate_run_command("echo \"logout\"").is_ok());
    assert!(validate_run_command("echo hi # ; logout").is_ok(), "注释里的 logout 不是命令");
    assert!(validate_run_command("echo ${#x}; logout").is_err(), "${{#…}} 后面的 logout 必须检出");
}

#[test]
fn exit_followed_by_more_commands_is_rejected() {
    let err = validate_run_command("test -f x || exit 1; rm -rf build")
        .expect_err("守卫式 exit 后接命令必须拒绝");
    assert!(err.contains("条件分支"), "报错要给出改写方式：{err}");
    assert!(validate_run_command("exit && reboot").is_err());
    assert!(validate_run_command("cmd; exit 1; echo after").is_err());
    assert!(validate_run_command("cd /x; exit 7").is_ok());
    assert!(validate_run_command("make || exit 1").is_ok());
    assert!(validate_run_command("cmd; exit 3; # 注释").is_ok(), "末尾空段与注释不算后续命令");
    assert!(validate_run_command("echo exit; ls").is_ok());
    assert!(validate_run_command("(exit 3); ls").is_ok(), "子 shell 里的 exit 本来就不终止");
}

#[test]
fn trim_leading_echo_strips_command_line_only() {
    let out = "hostname && whoami\r\nhost\nuser\n";
    assert_eq!(trim_leading_echo(out, "hostname && whoami"), "host\nuser\n");
    assert_eq!(trim_leading_echo(out, "other"), out);
}

#[test]
fn trim_leading_echo_keeps_trailing_prompt_fragment_rather_than_guessing() {
    let out = "hostname && whoami && pwd\ns3-server\ns3\n/home/s3\n(env) s3@s3-server:~\n$ ";
    assert_eq!(
        trim_leading_echo(out, "hostname && whoami && pwd"),
        "s3-server\ns3\n/home/s3\n(env) s3@s3-server:~\n$ "
    );
}

#[test]
fn a_line_is_split_at_its_top_level_separators_only() {
    assert_eq!(top_level_command_segments(""), vec![(0, 0)]);
    assert_eq!(top_level_command_segments("a;b"), vec![(0, 1), (2, 3)]);
    assert_eq!(top_level_command_segments("a&&b||c"), vec![(0, 1), (3, 4), (6, 7)]);
    assert_eq!(top_level_command_segments("a|&b"), vec![(0, 1), (3, 4)]);
    assert_eq!(top_level_command_segments("a >&2 &>f >|g"), vec![(0, 13)]);
    assert_eq!(top_level_command_segments("(a;b)`c;d`;e"), vec![(0, 10), (11, 12)]);
    assert_eq!(top_level_command_segments("a\\;b"), vec![(0, 4)]);
    assert_eq!(top_level_command_segments("a;#b;c"), vec![(0, 1), (2, 2)]);
    assert_eq!(top_level_command_segments("é;ü"), vec![(0, 2), (3, 5)]);
    assert_eq!(top_level_command_segments("a\\"), vec![(0, 2)]);
    assert_eq!(top_level_command_segments(")a;b"), vec![(0, 2), (3, 4)]);
}

#[test]
fn a_hash_opens_a_comment_only_where_a_word_starts() {
    for b in [0u8, b' ', b'\t', b'\n', b'\r', 0x0c, b';', b'&', b'|', b'(', b')', b'<', b'>'] {
        assert!(is_shell_word_start(b));
    }
    for b in [b'{', b'}', b'a', b'$', b'"', 0x0b] {
        assert!(!is_shell_word_start(b));
    }
}

#[test]
fn a_session_ender_is_recognised_with_its_normal_form() {
    assert_eq!(normalized_session_ender("  exit  7 ;& "), Some(("exit", "exit  7")));
    assert_eq!(normalized_session_ender("logout"), Some(("logout", "logout")));
    assert_eq!(normalized_session_ender("exit -"), None);
    assert_eq!(normalized_session_ender("exit 1 2"), None);
    assert_eq!(normalized_session_ender(";"), None);
    assert_eq!(normalized_session_ender("exit\u{3000}3"), Some(("exit", "exit\u{3000}3")));
}

#[test]
fn an_exit_counts_as_followed_only_by_a_command() {
    assert!(exit_followed_by_command("exit; ls"));
    assert!(!exit_followed_by_command("ls; exit"));
    assert!(!exit_followed_by_command("exit ;  ; # ls"));
}

#[test]
fn no_accepted_line_ends_the_session_once_it_is_wrapped() {
    for cmd in [
        "exit", "  exit 0 ;  ", "make || exit 1", "cmd; exit 3 # done", "ls", "cmd &exit 3 ;;",
        "echo 'exit'; exit\u{3000}7 #x", "(exit 1); ls", "é && exit -3;",
    ] {
        assert!(validate_run_command(cmd).is_ok(), "{cmd}");
        let typed = wrap_session_ender(cmd).into_owned();
        for (s, e) in top_level_command_segments(&typed) {
            assert_eq!(normalized_session_ender(&typed[s..e]), None, "{typed}");
        }
        let bare: String = typed.replacen("(exit", "exit", 1);
        if typed != cmd {
            assert_eq!(bare.len() + 1, typed.len());
            assert_eq!(typed.len(), cmd.len() + 2);
        }
    }
}

#[test]
fn a_timeout_is_kept_within_its_bounds() {
    assert_eq!(clamp_timeout(0), 100);
    assert_eq!(clamp_timeout(5_000), 5_000);
    assert_eq!(clamp_timeout(u64::MAX), 86_400_000);
}

#[test]
fn long_output_keeps_its_end() {
    let short = "x".repeat(MAX_RUN_OUTPUT_BYTES);
    assert_eq!(cap_output_for_ai(short.clone()), short);
    let mut long = "é".repeat(MAX_RUN_OUTPUT_BYTES);
    long.push_str("end");
    let capped = cap_output_for_ai(long.clone());
    assert!(capped.starts_with("[输出过长"));
    assert!(capped.ends_with("end"));
    let tail = capped.lines().last().unwrap();
    assert!(tail.len() <= MAX_RUN_OUTPUT_BYTES);
    assert!(long.ends_with(tail));
}

const LINES: [&str; 12] = [
    "",
    "exit",
    "cd /x; exit 7 # done",
    "make || exit 1 ;  ",
    "exit; ls; exit 2",
    "logout; exit",
    "a;&b",
    "a |& b && c || d | e & f",
    "echo 'x;y' >&2 &>f; (a;b); c\\;d",
    "echo \"open; exit",
    "(a; exit",
    "é; exit 3;#ü",
];

#[test]
fn a_segment_is_one_command() {
    for line in LINES {
        for (s, e) in top_level_command_segments(line) {
            let text = &line[s..e];
            assert_eq!(top_level_command_segments(text), vec![(0, e - s)], "{line} {text}");
        }
    }
}

#[test]
fn wrapping_twice_changes_nothing() {
    for line in LINES {
        let once = wrap_session_ender(line).into_owned();
        assert_eq!(wrap_session_ender(&once), once.as_str(), "{line}");
    }
    assert_eq!(wrap_session_ender("exit; ls; exit 2"), "exit; ls; (exit 2)");
    assert_eq!(wrap_session_ender("exit; ls; (exit 2)"), "exit; ls; (exit 2)");
}

#[test]
fn one_separator_lies_between_two_commands() {
    assert_eq!(top_level_command_segments("a;;b"), vec![(0, 1), (2, 2), (3, 4)]);
    assert_eq!(top_level_command_segments("a&;b"), vec![(0, 1), (2, 2), (3, 4)]);
    assert_eq!(top_level_command_segments("a&|b"), vec![(0, 1), (2, 2), (3, 4)]);
    assert_eq!(top_level_command_segments("a|||b"), vec![(0, 1), (3, 3), (4, 5)]);
}
