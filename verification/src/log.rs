//! A buffer of log lines that is emptied by whoever polls it.
use crate::text;
use vstd::prelude::*;

verus! {

/// Lines that were logged and not polled yet.
#[derive(Debug)]
pub struct LogBuffer {
    pub lines: Vec<String>,
}

/// Lines in one text, with a line feed between each two.
pub open spec fn join_lines(lines: Seq<Seq<char>>) -> Seq<char>
    decreases lines.len(),
{
    if lines.len() == 0 {
        Seq::empty()
    } else if lines.len() == 1 {
        lines[0]
    } else {
        lines[0] + seq!['\n'] + join_lines(lines.skip(1))
    }
}

/// Whether a line is as the buffer keeps it: not empty, in one line, and
/// without white space at either end.
pub open spec fn clean(line: Seq<char>) -> bool {
    &&& line.len() > 0
    &&& !line.contains('\n')
    &&& !text::white_space(line[0])
    &&& !text::white_space(line.last())
}

/// Whether every line is as the buffer keeps it.
pub open spec fn all_clean(lines: Seq<Seq<char>>) -> bool {
    forall|i: int| 0 <= i < lines.len() ==> clean(#[trigger] lines[i])
}

impl LogBuffer {
    /// The lines as texts.
    pub open spec fn texts(self) -> Seq<Seq<char>> {
        text::texts(self.lines@)
    }

    /// Whether every line is as the buffer keeps it.
    pub open spec fn wf(self) -> bool {
        all_clean(self.texts())
    }

    pub fn new() -> (r: Self)
        ensures
            r.texts() == Seq::<Seq<char>>::empty(),
            r.wf(),
    {
        let r = LogBuffer { lines: Vec::new() };
        assert(r.texts() =~= Seq::<Seq<char>>::empty());
        r
    }

    /// Adds the lines of what was logged, each trimmed, without those that are
    /// then empty. All bytes are taken.
    pub fn write(&mut self, data: &[u8]) -> (r: usize)
        requires
            old(self).wf(),
        ensures
            final(self).texts() == old(self).texts() + text::text_lines(text::lossy_text(data@)),
            final(self).wf(),
            r == data@.len(),
    {
        let s = text::lossy_string(data);
        let chars = text::chars_of(s.as_str());
        let mut more = text::lines_of(&chars);
        proof {
            lemma_lines_clean(chars@);
        }
        let ghost added = text::texts(more@);
        self.lines.append(&mut more);
        proof {
            assert(self.texts() =~= old(self).texts() + added);
            assert forall|i: int| 0 <= i < self.texts().len() implies clean(
                #[trigger] self.texts()[i],
            ) by {
                let n = old(self).texts().len();
                if i < n {
                    assert(clean(old(self).texts()[i]));
                } else {
                    assert(clean(added[i - n]));
                }
            }
        }
        data.len()
    }

    /// Forgets all lines.
    pub fn clear(&mut self)
        ensures
            final(self).texts() == Seq::<Seq<char>>::empty(),
            final(self).wf(),
    {
        self.lines = Vec::new();
        assert(self.texts() =~= Seq::<Seq<char>>::empty());
    }

    /// All lines in one text. The buffer is empty afterwards.
    pub fn poll(&mut self) -> (r: String)
        ensures
            r@ == join_lines(old(self).texts()),
            final(self).texts() == Seq::<Seq<char>>::empty(),
            final(self).wf(),
    {
        let r = joined_string(&self.lines);
        self.clear();
        r
    }
}

/// What is still to come of the joined text after the first `i` lines.
spec fn tail(lines: Seq<Seq<char>>, i: int) -> Seq<char> {
    if i == 0 {
        join_lines(lines)
    } else if i < lines.len() {
        seq!['\n'] + join_lines(lines.skip(i))
    } else {
        Seq::empty()
    }
}

fn joined_string(lines: &Vec<String>) -> (r: String)
    ensures
        r@ == join_lines(text::texts(lines@)),
{
    let ghost all = text::texts(lines@);
    let mut out = String::new();
    let mut i: usize = 0;
    assert(out@ + tail(all, 0) =~= join_lines(all));
    while i < lines.len()
        invariant
            i <= lines@.len(),
            all == text::texts(lines@),
            out@ + tail(all, i as int) == join_lines(all),
        decreases lines@.len() - i,
    {
        let ghost before = out@;
        let ghost rest = all.skip(i as int);
        proof {
            if i == 0 {
                assert(rest =~= all);
            }
            assert(rest[0] == lines@[i as int]@);
            assert(rest.skip(1) =~= all.skip(i + 1));
            let sep = if i == 0 {
                Seq::<char>::empty()
            } else {
                seq!['\n']
            };
            assert(tail(all, i as int) =~= sep + join_lines(rest));
            assert(join_lines(rest) =~= rest[0] + tail(all, i + 1));
            assert(before + tail(all, i as int) =~= before + sep + rest[0] + tail(all, i + 1));
        }
        if i > 0 {
            out.push('\n');
        }
        out.append(lines[i].as_str());
        i += 1;
        assert(out@ + tail(all, i as int) =~= join_lines(all));
    }
    assert(out@ + tail(all, i as int) =~= out@) by {
        if i == 0 {
            assert(all.len() == 0);
        }
    }
    out
}

// ---------------------------------------------------------------------------
// Laws
// ---------------------------------------------------------------------------

proof fn lemma_trim_start(t: Seq<char>)
    ensures
        text::trim_start(t).len() <= t.len(),
        text::trim_start(t) == t.skip(t.len() - text::trim_start(t).len()),
        text::trim_start(t).len() > 0 ==> !text::white_space(text::trim_start(t)[0]),
    decreases t.len(),
{
    if t.len() > 0 && text::white_space(t[0]) {
        lemma_trim_start(t.drop_first());
        let r = text::trim_start(t);
        assert(t.drop_first().skip(t.len() - 1 - r.len()) =~= t.skip(t.len() - r.len()));
    } else {
        assert(t.skip(0) =~= t);
    }
}

proof fn lemma_trim_end(t: Seq<char>)
    ensures
        text::trim_end(t).len() <= t.len(),
        text::trim_end(t) == t.take(text::trim_end(t).len() as int),
        text::trim_end(t).len() > 0 ==> !text::white_space(text::trim_end(t).last()),
    decreases t.len(),
{
    if t.len() > 0 && text::white_space(t.last()) {
        lemma_trim_end(t.drop_last());
        let r = text::trim_end(t);
        assert(t.drop_last().take(r.len() as int) =~= t.take(r.len() as int));
    } else {
        assert(t.take(t.len() as int) =~= t);
    }
}

/// The lines that a text is taken apart into are as the buffer keeps them.
proof fn lemma_lines_clean(t: Seq<char>)
    ensures
        all_clean(text::text_lines(t)),
    decreases t.len(),
{
    if t.len() > 0 {
        let end = text::find(t, '\n');
        text::lemma_find(t, '\n');
        let x = t.take(end);
        let a = text::trim_start(x);
        let line = text::trim(x);
        lemma_trim_start(x);
        lemma_trim_end(a);
        if line.len() > 0 {
            assert forall|j: int| 0 <= j < line.len() implies line[j] != '\n' by {
                assert(line[j] == a[j]);
                assert(a[j] == t[x.len() - a.len() + j]);
            }
            assert(clean(line));
        }
        if end < t.len() {
            lemma_lines_clean(t.skip(end + 1));
        }
    }
}

/// What is polled, taken apart again, is the lines that were in the buffer: no
/// line is lost, changed or moved.
pub proof fn lemma_polled_lines(lines: Seq<Seq<char>>)
    requires
        all_clean(lines),
    ensures
        text::text_lines(join_lines(lines)) == lines,
    decreases lines.len(),
{
    let t = join_lines(lines);
    if lines.len() == 0 {
        assert(lines =~= Seq::<Seq<char>>::empty());
    } else {
        let line = lines[0];
        assert(clean(line));
        assert forall|j: int| 0 <= j < line.len() implies t[j] != '\n' by {
            assert(t[j] == line[j]);
        }
        text::lemma_find_is(t, '\n', line.len() as int);
        assert(t.take(line.len() as int) =~= line);
        assert(text::trim(line) == line);
        if lines.len() == 1 {
            assert(lines =~= seq![line]);
            assert(seq![line] + Seq::<Seq<char>>::empty() =~= lines);
        } else {
            let rest = lines.skip(1);
            assert forall|i: int| 0 <= i < rest.len() implies clean(#[trigger] rest[i]) by {
                assert(clean(lines[i + 1]));
            }
            lemma_polled_lines(rest);
            assert(t.skip(line.len() as int + 1) =~= join_lines(rest));
            assert(seq![line] + rest =~= lines);
        }
    }
}

} // verus!
