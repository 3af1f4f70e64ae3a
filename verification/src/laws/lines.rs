//! Laws on lines of text: how a log keeps them, and the process that they name.
use crate::laws::commands;
use crate::laws::numbers;
use crate::log;
use crate::log::LogBuffer;
use crate::process;
use crate::process::{ProcessInfo, ProcessView};
use crate::proxy;
use crate::proxy::{Proxy, StartAction};
use crate::text;
use vstd::prelude::*;

verus! {

// ---------------------------------------------------------------------------
// Lines
// ---------------------------------------------------------------------------

/// Whether every character is white space.
pub open spec fn blank(t: Seq<char>) -> bool {
    forall|i: int| 0 <= i < t.len() ==> text::white_space(#[trigger] t[i])
}

/// White space among the first 128 characters is the tab and the four after it,
/// and the space. Beyond them it is nineteen characters.
pub proof fn lemma_white_space(c: char)
    ensures
        (c as int) < 128 ==> (text::white_space(c) <==> 9 <= c as int <= 13 || c as int == 32),
        c as int >= 128 ==> (text::white_space(c) <==> seq![
            0x85int, 0xa0, 0x1680, 0x2000, 0x2001, 0x2002, 0x2003, 0x2004, 0x2005, 0x2006, 0x2007,
            0x2008, 0x2009, 0x200a, 0x2028, 0x2029, 0x202f, 0x205f, 0x3000,
        ].contains(c as int)),
{
    let s = seq![
        0x85int, 0xa0, 0x1680, 0x2000, 0x2001, 0x2002, 0x2003, 0x2004, 0x2005, 0x2006, 0x2007,
        0x2008, 0x2009, 0x200a, 0x2028, 0x2029, 0x202f, 0x205f, 0x3000,
    ];
    let u = c as int;
    if u >= 128 && text::white_space(c) {
        if 0x2000 <= u <= 0x200a {
            assert(s[3 + (u - 0x2000)] == u);
        } else {
            assert(s[0] == 0x85 && s[1] == 0xa0 && s[2] == 0x1680 && s[14] == 0x2028 && s[15]
                == 0x2029 && s[16] == 0x202f && s[17] == 0x205f && s[18] == 0x3000);
        }
    }
}

proof fn lemma_trimmed_start(pre: Seq<char>, rest: Seq<char>)
    requires
        blank(pre),
        rest.len() > 0 ==> !text::white_space(rest[0]),
    ensures
        text::trim_start(pre + rest) == rest,
    decreases pre.len(),
{
    let t = pre + rest;
    if pre.len() > 0 {
        assert(t[0] == pre[0]);
        let less = pre.drop_first();
        assert forall|i: int| 0 <= i < less.len() implies text::white_space(#[trigger] less[i]) by {
            assert(less[i] == pre[i + 1]);
        }
        assert(t.drop_first() =~= less + rest);
        lemma_trimmed_start(less, rest);
    } else {
        assert(t =~= rest);
    }
}

proof fn lemma_trimmed_end(rest: Seq<char>, post: Seq<char>)
    requires
        blank(post),
        rest.len() > 0 ==> !text::white_space(rest.last()),
    ensures
        text::trim_end(rest + post) == rest,
    decreases post.len(),
{
    let t = rest + post;
    if post.len() > 0 {
        assert(t.last() == post[post.len() - 1]);
        let less = post.drop_last();
        assert forall|i: int| 0 <= i < less.len() implies text::white_space(#[trigger] less[i]) by {
            assert(less[i] == post[i]);
        }
        assert(t.drop_last() =~= rest + less);
        lemma_trimmed_end(rest, less);
    } else {
        assert(t =~= rest);
    }
}

proof fn lemma_blank_trims(t: Seq<char>)
    requires
        blank(t),
    ensures
        text::trim(t) == Seq::<char>::empty(),
{
    lemma_trimmed_start(t, Seq::empty());
    assert(t + Seq::<char>::empty() =~= t);
    lemma_trimmed_end(Seq::empty(), Seq::empty());
    assert(Seq::<char>::empty() + Seq::<char>::empty() =~= Seq::<char>::empty());
}

/// A text without a line feed is one line: what is left of it without the white
/// space at either end. A text of white space alone is none.
pub proof fn lemma_one_line(pre: Seq<char>, line: Seq<char>, post: Seq<char>)
    requires
        blank(pre) && blank(post),
        log::clean(line),
        !(pre + line + post).contains('\n'),
    ensures
        text::text_lines(pre + line + post) == seq![line],
{
    let t = pre + line + post;
    assert forall|j: int| 0 <= j < t.len() implies t[j] != '\n' by {
        assert(t.contains(t[j]));
    }
    text::lemma_find_is(t, '\n', t.len() as int);
    assert(t.take(t.len() as int) =~= t);
    assert(t =~= pre + (line + post));
    assert((line + post)[0] == line[0]);
    lemma_trimmed_start(pre, line + post);
    lemma_trimmed_end(line, post);
    assert(seq![line] + Seq::<Seq<char>>::empty() =~= seq![line]);
}

/// White space alone is no line, with or without line feeds.
pub proof fn lemma_no_line(t: Seq<char>)
    requires
        blank(t),
    ensures
        text::text_lines(t) == Seq::<Seq<char>>::empty(),
    decreases t.len(),
{
    if t.len() > 0 {
        let end = text::find(t, '\n');
        text::lemma_find(t, '\n');
        let x = t.take(end);
        assert forall|i: int| 0 <= i < x.len() implies text::white_space(#[trigger] x[i]) by {
            assert(x[i] == t[i]);
        }
        lemma_blank_trims(x);
        if end < t.len() {
            let y = t.skip(end + 1);
            assert forall|i: int| 0 <= i < y.len() implies text::white_space(#[trigger] y[i]) by {
                assert(y[i] == t[end + 1 + i]);
            }
            lemma_no_line(y);
        }
    }
}

/// The lines of two texts with a line feed between them are the lines of the
/// first and then those of the second.
pub proof fn lemma_lines_apart(a: Seq<char>, b: Seq<char>)
    ensures
        text::text_lines(a + seq!['\n'] + b) == text::text_lines(a) + text::text_lines(b),
    decreases a.len(),
{
    let t = a + seq!['\n'] + b;
    let end = text::find(a, '\n');
    text::lemma_find(a, '\n');
    assert forall|j: int| 0 <= j < end implies t[j] != '\n' by {
        assert(t[j] == a[j]);
    }
    if end < a.len() {
        assert(t[end] == a[end]);
        text::lemma_find_is(t, '\n', end);
        assert(t.take(end) =~= a.take(end));
        assert(t.skip(end + 1) =~= a.skip(end + 1) + seq!['\n'] + b);
        lemma_lines_apart(a.skip(end + 1), b);
        let line = text::trim(a.take(end));
        let more = text::text_lines(a.skip(end + 1));
        if line.len() > 0 {
            assert(seq![line] + (more + text::text_lines(b)) =~= seq![line] + more
                + text::text_lines(b));
        }
    } else {
        text::lemma_find_is(t, '\n', end);
        assert(t.take(end) =~= a);
        assert(a.take(end) =~= a);
        assert(t.skip(end + 1) =~= b);
        let line = text::trim(a);
        if a.len() == 0 {
            lemma_blank_trims(a);
            assert(Seq::<Seq<char>>::empty() + text::text_lines(b) =~= text::text_lines(b));
        } else if line.len() > 0 {
            assert(seq![line] + Seq::<Seq<char>>::empty() =~= seq![line]);
        } else {
            assert(Seq::<Seq<char>>::empty() + text::text_lines(b) =~= text::text_lines(b));
        }
    }
}

// ---------------------------------------------------------------------------
// The log
// ---------------------------------------------------------------------------

/// Lines in one text have one line feed between each two, and nothing else is
/// added.
pub proof fn lemma_joined_apart(a: Seq<Seq<char>>, b: Seq<Seq<char>>)
    requires
        a.len() > 0 && b.len() > 0,
    ensures
        log::join_lines(a + b) == log::join_lines(a) + seq!['\n'] + log::join_lines(b),
    decreases a.len(),
{
    assert((a + b)[0] == a[0]);
    if a.len() == 1 {
        assert((a + b).skip(1) =~= b);
    } else {
        assert((a + b).skip(1) =~= a.skip(1) + b);
        lemma_joined_apart(a.skip(1), b);
        assert(log::join_lines(a + b) =~= log::join_lines(a) + seq!['\n'] + log::join_lines(b));
    }
}

/// One line in one text is the line, and no line is the empty text.
pub proof fn lemma_joined_few(line: Seq<char>)
    ensures
        log::join_lines(seq![line]) == line,
        log::join_lines(Seq::empty()) == Seq::<char>::empty(),
{
}

/// What is written to the log is added to it line by line, after what is there,
/// and all of its bytes are taken.
pub proof fn lemma_log_write(data: &[u8], r: usize)
    ensures
        forall|b: &mut LogBuffer|
            (#[trigger] call_ensures(LogBuffer::write, (b, data), r)) && b.wf() ==> {
                &&& final(b).texts() == b.texts() + text::text_lines(text::lossy_text(data@))
                &&& final(b).wf()
                &&& r == data@.len()
            },
{
}

/// A poll gives all lines in one text and leaves none, so that the next one
/// gives the empty text.
pub proof fn lemma_log_poll(r: String)
    ensures
        forall|b: &mut LogBuffer|
            (#[trigger] call_ensures(LogBuffer::poll, (b,), r)) ==> {
                &&& r@ == log::join_lines(b.texts())
                &&& b.texts().len() == 0 ==> r@ == Seq::<char>::empty()
                &&& b.wf() ==> text::text_lines(r@) == b.texts()
                &&& final(b).texts() == Seq::<Seq<char>>::empty()
            },
        forall|b: &mut LogBuffer| #[trigger]
            call_ensures(LogBuffer::clear, (b,), ()) ==> final(b).texts() == Seq::<
                Seq<char>,
            >::empty(),
{
    assert forall|b: &mut LogBuffer|
        (#[trigger] call_ensures(LogBuffer::poll, (b,), r)) && b.wf() implies text::text_lines(r@)
        == b.texts() by {
        log::lemma_polled_lines(b.texts());
    }
}

// ---------------------------------------------------------------------------
// The proxy inside another program
// ---------------------------------------------------------------------------

/// A start is refused where an argument could not be read, with minus one, or
/// where the proxy runs, with minus two; and then the log is kept. Else the log
/// is emptied and a client is run, as the arguments say, with the key that the
/// secret spells.
pub proof fn lemma_start(
    server: Option<String>,
    listen: Option<String>,
    secret: Option<Option<String>>,
    r: StartAction,
)
    ensures
        forall|p: &mut Proxy, log: &mut LogBuffer|
            (#[trigger] call_ensures(Proxy::start, (p, log, server, listen, secret), r))
                && log.wf() ==> {
                let missing = server is None || listen is None || secret is None;
                &&& *final(p) == *p
                &&& match r {
                    StartAction::Answer(code) => {
                        &&& missing || p.running
                        &&& code == if missing {
                            -1int
                        } else {
                            -2int
                        }
                        &&& *final(log) == *log
                    },
                    StartAction::Run { listen: at, server: to, key } => {
                        &&& !missing && !p.running
                        &&& at@ == listen->0@
                        &&& to@ == server->0@
                        &&& key matches Some(k) ==> secret->0 is Some && commands::spells(
                            secret->0->0@,
                            k@,
                        )
                        &&& key is None ==> secret->0 is None || forall|k: Seq<u8>|
                            !commands::spells(secret->0->0@, k)
                        &&& final(log).texts() == Seq::<Seq<char>>::empty()
                    },
                }
            },
{
    if secret is Some && secret->0 is Some {
        let t = secret->0->0@;
        commands::lemma_key_spelled(t);
        assert forall|k: Seq<u8>| commands::spells(t, k) implies proxy::optional_key(Some(t))
            == Some(k) by {
            commands::lemma_optional_key(Some(t), k);
        }
    }
}

/// The answer to a start that bound its port is the port, and the proxy then
/// runs until it is stopped; one that bound none is answered minus one. A stop
/// says whether there was a proxy to stop.
pub proof fn lemma_started_and_stopped(port: Option<u16>, answer: i32, stopped: bool)
    ensures
        forall|p: &mut Proxy| #[trigger]
            call_ensures(Proxy::started, (p, port), answer) ==> {
                &&& port is Some ==> final(p).running && answer == port->0
                &&& port is None ==> final(p).running == p.running && answer == -1
            },
        forall|p: &mut Proxy| #[trigger]
            call_ensures(Proxy::stop, (p,), stopped) ==> stopped == p.running && !final(p).running,
{
}

// ---------------------------------------------------------------------------
// The process behind a connection
// ---------------------------------------------------------------------------

/// Whether a line begins with a character.
pub open spec fn begins(line: Seq<char>, c: char) -> bool {
    line.len() > 0 && line[0] == c
}

/// The number of a process is one or more digits after an optional plus sign,
/// below two to the power of 32.
pub proof fn lemma_pid(t: Seq<char>)
    ensures
        ({
            let d = crate::laws::hosts::without_plus(t);
            process::pid_value(t) == if d.len() > 0 && numbers::digits(d) && numbers::numeral(d)
                <= 0xffff_ffff {
                Some(numbers::numeral(d) as u32)
            } else {
                None::<u32>
            }
        }),
{
    numbers::lemma_unsigned(t);
}

/// Lines of which none gives a command name no process, but leave the number
/// that stands last in them.
proof fn lemma_passed_over(pre: Seq<Seq<char>>, rest: Seq<Seq<char>>, pid: Option<u32>) -> (last:
    Option<u32>)
    requires
        forall|i: int| 0 <= i < pre.len() ==> !begins(#[trigger] pre[i], 'c'),
    ensures
        process::named_process(pre + rest, pid) == process::named_process(rest, last),
        (forall|i: int| 0 <= i < pre.len() ==> !begins(#[trigger] pre[i], 'p')) ==> last == pid,
    decreases pre.len(),
{
    if pre.len() == 0 {
        assert(pre + rest =~= rest);
        pid
    } else {
        let less = pre.drop_first();
        assert((pre + rest).drop_first() =~= less + rest);
        assert((pre + rest)[0] == pre[0]);
        assert(!begins(pre[0], 'c'));
        assert forall|i: int| 0 <= i < less.len() implies !begins(#[trigger] less[i], 'c') by {
            assert(!begins(pre[i + 1], 'c'));
        }
        let next = if begins(pre[0], 'p') {
            process::pid_value(pre[0].skip(1))
        } else {
            pid
        };
        let last = lemma_passed_over(less, rest, next);
        if forall|i: int| 0 <= i < pre.len() ==> !begins(#[trigger] pre[i], 'p') {
            assert forall|i: int| 0 <= i < less.len() implies !begins(#[trigger] less[i], 'p') by {
                assert(!begins(pre[i + 1], 'p'));
            }
            assert(!begins(pre[0], 'p'));
        }
        last
    }
}

/// The process is named by the first command and by the number that stands last
/// before it. Lines that give no command may stand before the number, lines that
/// give neither may stand between the two, and any may follow.
pub proof fn lemma_named(
    pre: Seq<Seq<char>>,
    number: Seq<char>,
    mid: Seq<Seq<char>>,
    command: Seq<char>,
    rest: Seq<Seq<char>>,
)
    requires
        forall|i: int| 0 <= i < pre.len() ==> !begins(#[trigger] pre[i], 'c'),
        forall|i: int|
            0 <= i < mid.len() ==> !begins(#[trigger] mid[i], 'c') && !begins(mid[i], 'p'),
        begins(number, 'p') && begins(command, 'c'),
        process::pid_value(number.skip(1)) is Some,
    ensures
        process::named_process(pre + (seq![number] + (mid + (seq![command] + rest))), None) == Some(
            ProcessView {
                pid: process::pid_value(number.skip(1))->0,
                name: command.skip(1),
            },
        ),
{
    let c = seq![command] + rest;
    let b = seq![number] + (mid + c);
    let last = lemma_passed_over(pre, b, None);
    assert(b.drop_first() =~= mid + c);
    let pid = process::pid_value(number.skip(1));
    assert(process::named_process(b, last) == process::named_process(mid + c, pid));
    let same = lemma_passed_over(mid, c, pid);
    assert(same == pid);
    assert(c[0] == command);
}

/// Commands before the first number name nothing and may be left out, and
/// numbers that no command follows name nothing.
pub proof fn lemma_unnamed(pre: Seq<Seq<char>>, rest: Seq<Seq<char>>)
    requires
        forall|i: int| 0 <= i < pre.len() ==> !begins(#[trigger] pre[i], 'p'),
    ensures
        process::named_process(pre + rest, None) == process::named_process(rest, None),
        process::named_process(pre, None) is None,
        (forall|i: int| 0 <= i < rest.len() ==> !begins(#[trigger] rest[i], 'c'))
            ==> process::named_process(rest, None) is None,
    decreases pre.len(),
{
    if forall|i: int| 0 <= i < rest.len() ==> !begins(#[trigger] rest[i], 'c') {
        let last = lemma_passed_over(rest, Seq::empty(), None);
        assert(rest + Seq::<Seq<char>>::empty() =~= rest);
    }
    if pre.len() == 0 {
        assert(pre + rest =~= rest);
    } else {
        let less = pre.drop_first();
        assert(!begins(pre[0], 'p'));
        assert((pre + rest).drop_first() =~= less + rest);
        assert((pre + rest)[0] == pre[0]);
        assert forall|i: int| 0 <= i < less.len() implies !begins(#[trigger] less[i], 'p') by {
            assert(!begins(pre[i + 1], 'p'));
        }
        lemma_unnamed(less, rest);
    }
}

/// A number that cannot be read counts as none: a command right after it names
/// nothing.
pub proof fn lemma_unread_number(
    pre: Seq<Seq<char>>,
    number: Seq<char>,
    rest: Seq<Seq<char>>,
)
    requires
        forall|i: int| 0 <= i < pre.len() ==> !begins(#[trigger] pre[i], 'c'),
        begins(number, 'p'),
        process::pid_value(number.skip(1)) is None,
    ensures
        process::named_process(pre + (seq![number] + rest), None) == process::named_process(
            rest,
            None,
        ),
{
    let b = seq![number] + rest;
    let last = lemma_passed_over(pre, b, None);
    assert(b.drop_first() =~= rest);
}

/// The process is looked for in the lines of what `lsof` prints, and there is
/// none where it prints nothing.
pub proof fn lemma_looked_for(
    stdout: &str,
    bytes: Option<&[u8]>,
    a: Option<ProcessInfo>,
    b: Option<ProcessInfo>,
)
    requires
        call_ensures(process::parse_lsof_f, (stdout,), a),
        call_ensures(process::identify_peer, (bytes,), b),
    ensures
        process::process_view(a) == process::named_process(text::text_lines(stdout@), None),
        blank(stdout@) ==> a is None,
        bytes is None ==> b is None,
        bytes is Some && text::lossy_text(bytes->0@) == stdout@ ==> process::process_view(b)
            == process::process_view(a),
{
    if blank(stdout@) {
        lemma_no_line(stdout@);
    }
}

/// A process in words is its name, and its number in digits in round brackets.
pub proof fn lemma_process_words(p: &ProcessInfo, r: String)
    requires
        call_ensures(ProcessInfo::message, (p,), r),
    ensures
        ({
            let n = p.name@.len() as int;
            &&& r@.len() > n + 2
            &&& r@.take(n) == p.name@
            &&& r@[n] == '('
            &&& r@.last() == ')'
            &&& numbers::writes(r@.subrange(n + 1, r@.len() - 1), p.pid as int)
        }),
{
    reveal_strlit("(");
    reveal_strlit(")");
    let n = p.name@.len() as int;
    numbers::lemma_decimal_writes(p.pid as nat);
    assert(r@.take(n) =~= p.name@);
    assert(r@.subrange(n + 1, r@.len() - 1) =~= text::decimal(p.pid as nat));
}

/// What `lsof` is asked for is a host and a port after `TCP@`.
pub proof fn lemma_peer_filter(host: &str, port: u16, r: String)
    requires
        call_ensures(process::peer_filter, (host, port), r),
    ensures
        r@.len() > 4,
        r@.take(4) == "TCP@"@,
        numbers::names_target(r@.skip(4), host@, port as int),
{
    reveal_strlit("TCP@");
    reveal_strlit(":");
    let n = host@.len() as int;
    let t = r@.skip(4);
    numbers::lemma_decimal_writes(port as nat);
    assert(r@.take(4) =~= "TCP@"@);
    assert(t.take(n) =~= host@);
    assert(t.skip(n + 1) =~= text::decimal(port as nat));
}

/// A proxy begins stopped, and a log begins empty.
pub proof fn lemma_new_proxy(p: Proxy, b: LogBuffer)
    requires
        call_ensures(Proxy::new, (), p),
        call_ensures(LogBuffer::new, (), b),
    ensures
        !p.running,
        b.texts().len() == 0,
        b.wf(),
{
}

} // verus!
