//! What the line behind a command prints, read as a POSIX shell reads it.
use vstd::prelude::*;
use vstd::string::*;
use vstd::utf8::*;

use crate::agent_calls::{call_ok, McpCall, Moment};
use crate::agent_runs::{marker_line, marker_prefix, typed};
use crate::app::App;
use crate::protocol::{Reply, ReqKind};
use crate::request_laws::{lemma_own, lemma_sent_one, lemma_sent_two, serves};
use crate::saved::SavedConnection;
use crate::shell::{command_refusal, wrapped};
use crate::text::decimal;
use crate::text_laws::{decimal_is_digits, lemma_decimal_differs};

verus! {

/// What lies before the first `c`.
pub open spec fn upto(s: Seq<char>, c: char) -> Seq<char>
    decreases s.len(),
{
    if s.len() == 0 || s[0] == c {
        Seq::empty()
    } else {
        seq![s[0]] + upto(s.skip(1), c)
    }
}

/// The number that a hexadecimal digit stands for.
pub open spec fn hex_value(c: char) -> int {
    if '0' <= c <= '9' {
        c as u32 - '0' as u32
    } else if 'a' <= c <= 'f' {
        c as u32 - 'a' as u32 + 10
    } else {
        c as u32 - 'A' as u32 + 10
    }
}

/// What `printf` prints of a format with one argument: `%d` is the argument, `\r` a carriage return,
/// `\x` and two digits the byte with that number, and any other character itself.
pub open spec fn formatted(f: Seq<char>, arg: Seq<char>) -> Seq<char>
    decreases f.len(),
{
    if f.len() == 0 {
        Seq::empty()
    } else if f[0] == '%' && f.len() >= 2 && f[1] == 'd' {
        arg + formatted(f.skip(2), arg)
    } else if f[0] == '\\' && f.len() >= 2 && f[1] == 'r' {
        seq!['\r'] + formatted(f.skip(2), arg)
    } else if f[0] == '\\' && f.len() >= 4 && f[1] == 'x' {
        seq![((16 * hex_value(f[2]) + hex_value(f[3])) as u8) as char] + formatted(f.skip(4), arg)
    } else {
        seq![f[0]] + formatted(f.skip(1), arg)
    }
}

/// A word as the shell hands it on: `$?` is the exit status of the command before.
pub open spec fn expanded(word: Seq<char>, status: nat) -> Seq<char> {
    if word == seq!['$', '?'] {
        decimal(status)
    } else {
        word
    }
}

/// Whether a line starts with `printf '`.
pub open spec fn is_printf(line: Seq<char>) -> bool {
    line.len() >= 8 && line.take(8) == seq!['p', 'r', 'i', 'n', 't', 'f', ' ', '\'']
}

/// What a line of `printf` commands prints where the command before it ended with `status`: each
/// has a format between single quotes and at most one word behind it, and a `;` and a blank part
/// one from the next, which finds that its predecessor succeeded.
pub open spec fn shell_prints(line: Seq<char>, status: nat) -> Seq<char>
    decreases line.len(),
{
    if !is_printf(line) {
        Seq::empty()
    } else {
        let quoted = line.skip(8);
        let format = upto(quoted, '\'');
        if format.len() >= quoted.len() {
            Seq::empty()
        } else {
            let behind = quoted.skip(format.len() as int + 1);
            let words = upto(behind, ';');
            let word = if words.len() > 0 {
                words.skip(1)
            } else {
                words
            };
            let printed = formatted(format, expanded(word, status));
            if behind.len() >= words.len() + 2 {
                printed + shell_prints(behind.skip(words.len() as int + 2), 0)
            } else {
                printed
            }
        }
    }
}

proof fn lemma_upto(a: Seq<char>, c: char, b: Seq<char>)
    requires
        !a.contains(c),
        b.len() > 0 ==> b[0] == c,
    ensures
        upto(a + b, c) == a,
    decreases a.len(),
{
    if a.len() == 0 {
        assert(a + b =~= b);
        assert(upto(b, c) =~= a);
    } else {
        assert(a[0] != c) by {
            assert(a.contains(a[0]));
        }
        assert((a + b).skip(1) =~= a.skip(1) + b);
        assert(!a.skip(1).contains(c)) by {
            if a.skip(1).contains(c) {
                let k = choose|k: int| 0 <= k < a.skip(1).len() && a.skip(1)[k] == c;
                assert(a[k + 1] == c);
            }
        }
        lemma_upto(a.skip(1), c, b);
        assert(seq![a[0]] + a.skip(1) =~= a);
    }
}

proof fn lemma_plain_format(a: Seq<char>, b: Seq<char>, arg: Seq<char>)
    requires
        forall|i: int| 0 <= i < a.len() ==> (#[trigger] a[i]) != '%' && a[i] != '\\',
    ensures
        formatted(a + b, arg) == a + formatted(b, arg),
    decreases a.len(),
{
    if a.len() == 0 {
        assert(a + b =~= b);
        assert(a + formatted(b, arg) =~= formatted(b, arg));
    } else {
        assert((a + b).skip(1) =~= a.skip(1) + b);
        assert((a + b)[0] == a[0]);
        assert forall|i: int| 0 <= i < a.skip(1).len() implies (#[trigger] a.skip(1)[i]) != '%'
            && a.skip(1)[i] != '\\' by {
            assert(a.skip(1)[i] == a[i + 1]);
        }
        lemma_plain_format(a.skip(1), b, arg);
        assert(seq![a[0]] + (a.skip(1) + formatted(b, arg)) =~= a + formatted(b, arg));
    }
}

spec fn first_format(nonce: u64) -> Seq<char> {
    seq!['\\', 'x', '1', 'e', 'A', 'I', '_', 'D', 'O', 'N', 'E', '_'] + decimal(nonce as nat) + seq![
        ':',
        '%',
        'd',
        '\\',
        'x',
        '1',
        'e',
    ]
}

spec fn second_format() -> Seq<char> {
    seq!['\\', 'r', '\\', 'x', '1', 'b', '[', 'K']
}

spec fn erased() -> Seq<char> {
    seq!['\r', '\u{1b}', '[', 'K']
}

proof fn lemma_first_format(nonce: u64, arg: Seq<char>)
    ensures
        formatted(first_format(nonce), arg) == marker_prefix(nonce) + arg + seq!['\u{1e}'],
        !first_format(nonce).contains('\''),
        !first_format(nonce).contains('\u{1e}'),
{
    let f = first_format(nonce);
    let d = decimal(nonce as nat);
    decimal_is_digits(nonce as nat);
    let name = seq!['A', 'I', '_', 'D', 'O', 'N', 'E', '_'];
    let tail = seq![':', '%', 'd', '\\', 'x', '1', 'e'];
    assert(f.skip(4) =~= name + (d + tail));
    assert(hex_value('1') == 1 && hex_value('e') == 14);
    assert(((16 * 1 + 14) as u8) as char == '\u{1e}');
    assert(formatted(f, arg) == seq!['\u{1e}'] + formatted(f.skip(4), arg));
    lemma_plain_format(name, d + tail, arg);
    lemma_plain_format(d, tail, arg);
    lemma_plain_format(seq![':'], tail.skip(1), arg);
    assert(seq![':'] + tail.skip(1) =~= tail);
    let t1 = tail.skip(1);
    assert(formatted(t1, arg) == arg + formatted(t1.skip(2), arg));
    let t2 = t1.skip(2);
    assert(t2 =~= seq!['\\', 'x', '1', 'e']);
    assert(formatted(t2, arg) == seq!['\u{1e}'] + formatted(t2.skip(4), arg));
    assert(t2.skip(4) =~= Seq::empty());
    assert(formatted(t2, arg) =~= seq!['\u{1e}']);
    reveal_strlit("\u{1e}AI_DONE_");
    reveal_strlit(":");
    assert("\u{1e}AI_DONE_"@ =~= seq!['\u{1e}'] + name);
    assert(":"@ =~= seq![':']);
    assert(formatted(f, arg) =~= marker_prefix(nonce) + arg + seq!['\u{1e}']);
    assert forall|i: int| 0 <= i < f.len() implies f[i] != '\'' && f[i] != '\u{1e}' by {
        if 12 <= i < 12 + d.len() {
            assert(f[i] == d[i - 12]);
        }
    }
}

proof fn lemma_second_format(arg: Seq<char>)
    ensures
        formatted(second_format(), arg) == erased(),
        !second_format().contains('\''),
{
    let f = second_format();
    assert(hex_value('1') == 1 && hex_value('b') == 11);
    assert(((16 * 1 + 11) as u8) as char == '\u{1b}');
    let f2 = f.skip(2);
    assert(f2 =~= seq!['\\', 'x', '1', 'b', '[', 'K']);
    assert(formatted(f, arg) == seq!['\r'] + formatted(f2, arg));
    let f3 = f2.skip(4);
    assert(f3 =~= seq!['[', 'K']);
    assert(formatted(f2, arg) == seq!['\u{1b}'] + formatted(f3, arg));
    lemma_plain_format(f3, Seq::empty(), arg);
    assert(f3 + Seq::<char>::empty() =~= f3);
    assert(formatted(f, arg) =~= erased());
}

/// One `printf` with a word behind its format, and what follows it.
proof fn lemma_one_printf(f: Seq<char>, words: Seq<char>, next: Seq<char>, status: nat)
    requires
        !f.contains('\''),
        !words.contains(';'),
    ensures
        ({
            let printf = seq!['p', 'r', 'i', 'n', 't', 'f', ' ', '\''];
            let line = printf + (f + (seq!['\''] + (words + (seq![';', ' '] + next))));
            let word = if words.len() > 0 {
                words.skip(1)
            } else {
                words
            };
            shell_prints(line, status) == formatted(f, expanded(word, status)) + shell_prints(
                next,
                0,
            )
        }),
{
    let printf = seq!['p', 'r', 'i', 'n', 't', 'f', ' ', '\''];
    let behind = words + (seq![';', ' '] + next);
    let quoted = f + (seq!['\''] + behind);
    let line = printf + quoted;
    assert(line.take(8) =~= printf);
    assert(line.skip(8) =~= quoted);
    lemma_upto(f, '\'', seq!['\''] + behind);
    assert(quoted.skip(f.len() as int + 1) =~= behind);
    lemma_upto(words, ';', seq![';', ' '] + next);
    assert(behind.skip(words.len() as int + 2) =~= next);
}

proof fn lemma_last_printf(f: Seq<char>)
    requires
        !f.contains('\''),
    ensures
        shell_prints(seq!['p', 'r', 'i', 'n', 't', 'f', ' ', '\''] + (f + seq!['\'']), 0)
            == formatted(f, Seq::empty()),
{
    let printf = seq!['p', 'r', 'i', 'n', 't', 'f', ' ', '\''];
    let quoted = f + seq!['\''];
    let line = printf + quoted;
    assert(line.take(8) =~= printf);
    assert(line.skip(8) =~= quoted);
    lemma_upto(f, '\'', seq!['\'']);
    assert(quoted.skip(f.len() as int + 1) =~= Seq::empty());
    assert(upto(Seq::empty(), ';') =~= Seq::empty());
    assert(Seq::<char>::empty().len() != seq!['$', '?'].len());
    assert(expanded(Seq::empty(), 0) == Seq::<char>::empty());
}

proof fn lemma_marker_line(nonce: u64)
    ensures
        marker_line(nonce) == seq!['p', 'r', 'i', 'n', 't', 'f', ' ', '\''] + (first_format(nonce) + (
        seq!['\''] + (seq![' ', '$', '?'] + (seq![';', ' '] + (seq![
            'p',
            'r',
            'i',
            'n',
            't',
            'f',
            ' ',
            '\'',
        ] + (second_format() + seq!['\''])))))),
{
    reveal_strlit("printf '\\x1eAI_DONE_");
    reveal_strlit(":%d\\x1e' $?; printf '\\r\\x1b[K'");
    assert("printf '\\x1eAI_DONE_"@ =~= seq!['p', 'r', 'i', 'n', 't', 'f', ' ', '\''] + seq![
        '\\',
        'x',
        '1',
        'e',
        'A',
        'I',
        '_',
        'D',
        'O',
        'N',
        'E',
        '_',
    ]);
    assert(":%d\\x1e' $?; printf '\\r\\x1b[K'"@ =~= seq![':', '%', 'd', '\\', 'x', '1', 'e'] + seq![
        '\'',
    ] + seq![' ', '$', '?'] + seq![';', ' '] + seq!['p', 'r', 'i', 'n', 't', 'f', ' ', '\'']
        + second_format() + seq!['\'']);
    assert(marker_line(nonce) =~= seq!['p', 'r', 'i', 'n', 't', 'f', ' ', '\''] + (first_format(nonce)
        + (seq!['\''] + (seq![' ', '$', '?'] + (seq![';', ' '] + (seq![
        'p',
        'r',
        'i',
        'n',
        't',
        'f',
        ' ',
        '\'',
    ] + (second_format() + seq!['\''])))))));
}

/// The line behind a command reports that command: whatever its exit status, the line prints what
/// the terminal waits for, the status in decimal and the control character that ends it, and then
/// erases itself. What is typed does not hold the control character, so its echo is no report.
pub proof fn the_marker_line_reports_the_exit_status(nonce: u64, status: nat)
    ensures
        shell_prints(marker_line(nonce), status) == marker_prefix(nonce) + decimal(status) + seq![
            '\u{1e}',
            '\r',
            '\u{1b}',
            '[',
            'K',
        ],
        marker_prefix(nonce).len() > 0 && marker_prefix(nonce)[0] == '\u{1e}',
        !marker_line(nonce).contains('\u{1e}'),
        !marker_line(nonce).contains('\r') && !marker_line(nonce).contains('\n'),
{
    let line = marker_line(nonce);
    let f = first_format(nonce);
    let g = second_format();
    let words = seq![' ', '$', '?'];
    let next = seq!['p', 'r', 'i', 'n', 't', 'f', ' ', '\''] + (g + seq!['\'']);
    lemma_marker_line(nonce);
    lemma_first_format(nonce, decimal(status));
    lemma_second_format(Seq::empty());
    lemma_one_printf(f, words, next, status);
    lemma_last_printf(g);
    assert(words.skip(1) =~= seq!['$', '?']);
    assert(marker_prefix(nonce) + decimal(status) + seq!['\u{1e}'] + erased() =~= marker_prefix(
        nonce,
    ) + decimal(status) + seq!['\u{1e}', '\r', '\u{1b}', '[', 'K']);
    lemma_typed_line(nonce);
    reveal_strlit("\u{1e}AI_DONE_");
}

proof fn lemma_typed_line(nonce: u64)
    ensures
        !marker_line(nonce).contains('\u{1e}'),
        !marker_line(nonce).contains('\r') && !marker_line(nonce).contains('\n'),
{
    let line = marker_line(nonce);
    let d = decimal(nonce as nat);
    reveal_strlit("printf '\\x1eAI_DONE_");
    reveal_strlit(":%d\\x1e' $?; printf '\\r\\x1b[K'");
    let a = "printf '\\x1eAI_DONE_"@;
    let b = ":%d\\x1e' $?; printf '\\r\\x1b[K'"@;
    decimal_is_digits(nonce as nat);
    assert forall|i: int| 0 <= i < line.len() implies line[i] != '\u{1e}' && line[i] != '\r'
        && line[i] != '\n' by {
        if i < a.len() {
            assert(line[i] == a[i]);
        } else if i < a.len() + d.len() {
            assert(line[i] == d[i - a.len()]);
        } else {
            assert(line[i] == b[i - a.len() - d.len()]);
        }
    }
}

/// Two commands that end differently are reported differently.
pub proof fn different_statuses_print_differently(nonce: u64, a: nat, b: nat)
    requires
        a != b,
    ensures
        shell_prints(marker_line(nonce), a) != shell_prints(marker_line(nonce), b),
{
    the_marker_line_reports_the_exit_status(nonce, a);
    the_marker_line_reports_the_exit_status(nonce, b);
    let p = marker_prefix(nonce);
    let tail = seq!['\u{1e}', '\r', '\u{1b}', '[', 'K'];
    let x = p + decimal(a) + tail;
    let y = p + decimal(b) + tail;
    if x == y {
        assert(x.len() == y.len());
        assert(x.subrange(p.len() as int, x.len() - 5) =~= decimal(a));
        assert(y.subrange(p.len() as int, y.len() - 5) =~= decimal(b));
        lemma_decimal_differs(a, b);
    }
}

/// A command that an agent may run in a session of its own is typed as it is, but for an `exit` in a
/// subshell, and one carriage return. Where the shell does not report the end of commands, one line
/// more is typed: whatever status the command ends with, the line prints the very prefix that the
/// terminal was set to wait for, and the status behind it. The run has the number that was given
/// out for it, and the one who asked waits for it.
pub proof fn a_command_is_typed_and_its_status_reported(
    before: App,
    after: App,
    replies: Seq<Reply>,
    call: McpCall,
    saved: Seq<SavedConnection>,
    m: Moment,
    uid: u64,
    command: String,
    timeout_ms: u64,
    i: int,
    status: nat,
)
    requires
        call_ok(before, after, replies, call, saved, m),
        call.req.kind == (ReqKind::RunCommand { session_uid: uid, command, timeout_ms }),
        serves(before, call, m, uid, i),
        before.sessions@[i].pending_ai_run is None,
        command_refusal(command@) is None,
        before.sessions@[i].terminal.integration || before.sessions@[i].link.takes >= 2,
    ensures
        ({
            let s = before.sessions@[i];
            let t = after.sessions@[i];
            let old = s.link.sent@.len() as int;
            let sent = t.link.sent@;
            &&& sent.len() == old + if s.terminal.integration {
                1int
            } else {
                2int
            }
            &&& sent[old] is TerminalInput
            &&& sent[old]->TerminalInput_0@ == encode_utf8(wrapped(command@) + seq!['\r'])
            &&& !s.terminal.integration ==> {
                let ops = t.terminal.ops@;
                let line = ops[ops.len() - 2];
                let armed = ops[ops.len() - 1];
                &&& ops.len() == s.terminal.ops@.len() + 2
                &&& line is ExpectEcho
                &&& armed is ArmMarker
                &&& sent[old + 1] is TerminalInput
                &&& sent[old + 1]->TerminalInput_0@ == encode_utf8(
                    line->ExpectEcho_0@ + seq!['\r'],
                )
                &&& shell_prints(line->ExpectEcho_0@, status) == armed->ArmMarker_0@ + decimal(
                    status,
                ) + seq!['\u{1e}', '\r', '\u{1b}', '[', 'K']
            }
            &&& t.terminal.capturing
            &&& replies.len() == 0
            &&& t.pending_ai_run is Some
            &&& t.pending_ai_run->0.run_id == m.nonce
            &&& t.pending_ai_run->0.req_id == call.req.id
            &&& t.pending_ai_run->0.waiter is Some
            &&& t.pending_ai_run->0.waiter->0.chan == call.chan
            &&& t.pending_ai_run->0.deadline >= m.now + 100
            &&& t.pending_ai_run->0.deadline <= m.now + 86_400_000
            &&& 100 <= timeout_ms <= 86_400_000 ==> t.pending_ai_run->0.deadline == m.now
                + timeout_ms
            &&& t.pending_ai_run->0.finished_result is None
        }),
{
    let s = before.sessions@[i];
    let t = after.sessions@[i];
    lemma_own(before, call, uid, i);
    assert(call.req.kind.targets() =~= seq![uid]);
    reveal_strlit("\r");
    assert("\r"@ =~= seq!['\r']);
    assert(after.sessions@ == before.sessions@.update(i, t));
    let first = typed(wrapped(command@) + "\r"@);
    if s.terminal.integration {
        assert(t.link.sends(s.link, first));
        lemma_sent_one(s.link, t.link, first);
    } else {
        let second = typed(marker_line(m.nonce) + "\r"@);
        lemma_sent_two(s.link, t.link, first, second);
        the_marker_line_reports_the_exit_status(m.nonce, status);
        let ops = t.terminal.ops@;
        assert(t.terminal.log().len() == s.terminal.log().len() + 2);
        assert(t.terminal.log()[ops.len() - 2] == ops[ops.len() - 2]@);
        assert(t.terminal.log()[ops.len() - 1] == ops[ops.len() - 1]@);
    }
}

} // verus!
