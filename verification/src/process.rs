//! The local process behind a connection, from what `lsof` prints.
use crate::text;
use vstd::prelude::*;

verus! {

/// A process that has a connection.
#[derive(Debug)]
pub struct ProcessInfo {
    pub pid: u32,
    pub name: String,
}

/// A `ProcessInfo` as a mathematical value.
pub struct ProcessView {
    pub pid: u32,
    pub name: Seq<char>,
}

impl View for ProcessInfo {
    type V = ProcessView;

    open spec fn view(&self) -> ProcessView {
        ProcessView { pid: self.pid, name: self.name@ }
    }
}

impl ProcessInfo {
    /// The process in words: its name, and its number in brackets.
    pub fn message(&self) -> (r: String)
        ensures
            r@ == self.name@ + "("@ + text::decimal(self.pid as nat) + ")"@,
    {
        let mut s = self.name.as_str().to_string();
        s.append("(");
        text::push_decimal(&mut s, self.pid as u64);
        s.append(")");
        s
    }
}

/// The process number in a line after its first character.
pub open spec fn pid_value(t: Seq<char>) -> Option<u32> {
    match text::unsigned_value(t) {
        Some(n) if n <= u32::MAX => Some(n as u32),
        _ => None,
    }
}

/// The process that lines of `lsof` name: the first command after a number,
/// with the number that stands last before it. A line `p` gives a number, a
/// line `c` gives a command; a number that cannot be read counts as none.
pub open spec fn named_process(lines: Seq<Seq<char>>, pid: Option<u32>) -> Option<ProcessView>
    decreases lines.len(),
{
    if lines.len() == 0 {
        None
    } else {
        let line = lines[0];
        let rest = lines.drop_first();
        if line.len() > 0 && line[0] == 'p' {
            named_process(rest, pid_value(line.skip(1)))
        } else if line.len() > 0 && line[0] == 'c' && pid is Some {
            Some(ProcessView { pid: pid->0, name: line.skip(1) })
        } else {
            named_process(rest, pid)
        }
    }
}

/// A process as a mathematical value, where there is one.
pub open spec fn process_view(r: Option<ProcessInfo>) -> Option<ProcessView> {
    match r {
        Some(p) => Some(p@),
        None => None,
    }
}

/// The process that the output of `lsof` in its field format names.
pub fn parse_lsof_f(stdout: &str) -> (r: Option<ProcessInfo>)
    ensures
        process_view(r) == named_process(text::text_lines(stdout@), None),
{
    let lines = text::lines_of(&text::chars_of(stdout));
    let ghost all = text::texts(lines@);
    let mut pid: Option<u32> = None;
    let mut i: usize = 0;
    assert(all.skip(0) =~= all);
    while i < lines.len()
        invariant
            i <= lines@.len(),
            all == text::texts(lines@),
            all == text::text_lines(stdout@),
            named_process(all, None) == named_process(all.skip(i as int), pid),
        decreases lines@.len() - i,
    {
        let ghost rest = all.skip(i as int);
        assert(rest[0] == lines@[i as int]@);
        assert(rest.drop_first() =~= all.skip(i + 1));
        let line = text::chars_of(lines[i].as_str());
        if line.len() > 0 {
            let n = line.len();
            assert(line@.skip(1) =~= line@.subrange(1, n as int));
            if line[0] == 'p' {
                pid = text::parse_unsigned(&line, 1, n, u32::MAX);
            } else if line[0] == 'c' {
                match pid {
                    Some(pid) => {
                        return Some(ProcessInfo { pid, name: text::string_of(&line, 1, n) });
                    },
                    None => {},
                }
            }
        }
        i += 1;
    }
    None
}

/// What `lsof` is asked for: TCP connections of a host and a port.
pub fn peer_filter(host: &str, port: u16) -> (r: String)
    ensures
        r@ == "TCP@"@ + host@ + ":"@ + text::decimal(port as nat),
{
    let mut s = "TCP@".to_string();
    s.append(host);
    s.append(":");
    text::push_decimal(&mut s, port as u64);
    s
}

/// The process behind a connection, from the output of `lsof`, where there is
/// any.
pub fn identify_peer(stdout: Option<&[u8]>) -> (r: Option<ProcessInfo>)
    ensures
        process_view(r) == match stdout {
            Some(bytes) => named_process(text::text_lines(text::lossy_text(bytes@)), None),
            None => None,
        },
{
    match stdout {
        Some(bytes) => parse_lsof_f(text::lossy_string(bytes).as_str()),
        None => None,
    }
}

} // verus!
