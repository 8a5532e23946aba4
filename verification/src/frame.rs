//! Messages on the wire: each ends with a newline.

use vstd::prelude::*;
use vstd::slice::{slice_subrange, slice_to_vec};

verus! {

/// The byte that ends a message.
pub const NEWLINE: u8 = 10;

/// The position of the first newline, or the length without one.
pub open spec fn line_end(s: Seq<u8>) -> int
    decreases s.len(),
{
    if s.len() == 0 || s[0] == NEWLINE {
        0
    } else {
        1 + line_end(s.drop_first())
    }
}

proof fn lemma_line_end(s: Seq<u8>)
    ensures
        0 <= line_end(s) <= s.len(),
        line_end(s) < s.len() ==> s[line_end(s)] == NEWLINE,
        forall|j: int| 0 <= j < line_end(s) ==> s[j] != NEWLINE,
    decreases s.len(),
{
    if s.len() > 0 && s[0] != NEWLINE {
        let rest = s.drop_first();
        lemma_line_end(rest);
        assert forall|j: int| 0 <= j < line_end(s) implies s[j] != NEWLINE by {
            if j > 0 {
                assert(rest[j - 1] == s[j]);
            }
        }
    }
}

proof fn lemma_line_end_is(s: Seq<u8>, i: int)
    requires
        0 <= i <= s.len(),
        forall|j: int| 0 <= j < i ==> s[j] != NEWLINE,
        i < s.len() ==> s[i] == NEWLINE,
    ensures
        line_end(s) == i,
{
    lemma_line_end(s);
}

/// The first complete line that is not empty, and what is left behind it. No
/// line is complete before its newline is there.
pub open spec fn take_line(s: Seq<u8>) -> (Option<Seq<u8>>, Seq<u8>)
    decreases s.len(),
{
    let i = line_end(s);
    if i >= s.len() {
        (None, s)
    } else if i <= 0 {
        take_line(s.skip(1))
    } else {
        (Some(s.take(i)), s.skip(i + 1))
    }
}

/// All complete lines that are not empty.
pub open spec fn all_lines(s: Seq<u8>) -> Seq<Seq<u8>>
    decreases s.len(),
{
    let i = line_end(s);
    if i >= s.len() {
        seq![]
    } else if i <= 0 {
        all_lines(s.skip(1))
    } else {
        seq![s.take(i)] + all_lines(s.skip(i + 1))
    }
}

/// What is left once all complete lines are taken.
pub open spec fn unfinished(s: Seq<u8>) -> Seq<u8>
    decreases s.len(),
{
    let i = line_end(s);
    if i >= s.len() {
        s
    } else if i <= 0 {
        unfinished(s.skip(1))
    } else {
        unfinished(s.skip(i + 1))
    }
}

/// Taking lines one by one gives all of them.
pub proof fn lemma_take_line(s: Seq<u8>)
    ensures
        match take_line(s) {
            (Some(line), rest) => {
                &&& all_lines(s) == seq![line] + all_lines(rest)
                &&& unfinished(s) == unfinished(rest)
                &&& rest.len() < s.len()
                &&& line.len() > 0
            },
            (None, rest) => {
                &&& all_lines(s) == Seq::<Seq<u8>>::empty()
                &&& rest == unfinished(s)
                &&& rest.len() <= s.len()
            },
        },
    decreases s.len(),
{
    lemma_line_end(s);
    let i = line_end(s);
    if i < s.len() && i <= 0 {
        lemma_take_line(s.skip(1));
    }
}

/// The lines of two reads are those of the first, and then those of what it
/// left unfinished with the second behind it.
pub proof fn lemma_reads_join(a: Seq<u8>, b: Seq<u8>)
    ensures
        all_lines(a + b) == all_lines(a) + all_lines(unfinished(a) + b),
        unfinished(a + b) == unfinished(unfinished(a) + b),
    decreases a.len(),
{
    lemma_line_end(a);
    let i = line_end(a);
    if i < a.len() {
        let both = a + b;
        assert forall|j: int| 0 <= j < i implies both[j] != NEWLINE by {
            assert(both[j] == a[j]);
        }
        lemma_line_end_is(both, i);
        let n = if i <= 0 { 1 } else { i + 1 };
        assert(both.skip(n) =~= a.skip(n) + b);
        assert(both.take(i) =~= a.take(i));
        lemma_reads_join(a.skip(n), b);
        if i > 0 {
            assert(all_lines(a + b) =~= all_lines(a) + all_lines(unfinished(a) + b));
        }
    } else {
        assert(all_lines(a) + all_lines(unfinished(a) + b) =~= all_lines(a + b));
    }
}

/// The bytes of some reads one behind the other.
pub open spec fn stream_of(reads: Seq<Seq<u8>>) -> Seq<u8>
    decreases reads.len(),
{
    if reads.len() == 0 {
        seq![]
    } else {
        stream_of(reads.drop_last()) + reads.last()
    }
}

/// What is left unfinished after some reads, with the complete lines taken
/// after each of them.
pub open spec fn left_of_reads(reads: Seq<Seq<u8>>) -> Seq<u8>
    decreases reads.len(),
{
    if reads.len() == 0 {
        seq![]
    } else {
        unfinished(left_of_reads(reads.drop_last()) + reads.last())
    }
}

/// The lines of some reads, with the complete ones taken after each of them.
pub open spec fn lines_of_reads(reads: Seq<Seq<u8>>) -> Seq<Seq<u8>>
    decreases reads.len(),
{
    if reads.len() == 0 {
        seq![]
    } else {
        lines_of_reads(reads.drop_last()) + all_lines(
            left_of_reads(reads.drop_last()) + reads.last(),
        )
    }
}

/// However a stream is cut into reads, the lines taken are those of the whole
/// stream, and so is what is left.
pub proof fn lemma_any_reads(reads: Seq<Seq<u8>>)
    ensures
        lines_of_reads(reads) == all_lines(stream_of(reads)),
        left_of_reads(reads) == unfinished(stream_of(reads)),
    decreases reads.len(),
{
    if reads.len() > 0 {
        lemma_any_reads(reads.drop_last());
        lemma_reads_join(stream_of(reads.drop_last()), reads.last());
    }
}

/// A message as it goes over the wire.
pub open spec fn framed(message: Seq<u8>) -> Seq<u8> {
    message.push(NEWLINE)
}

/// Messages one behind the other.
pub open spec fn framed_all(messages: Seq<Seq<u8>>) -> Seq<u8>
    decreases messages.len(),
{
    if messages.len() == 0 {
        seq![]
    } else {
        framed(messages[0]) + framed_all(messages.drop_first())
    }
}

/// Whether a message can be told apart on the wire: it is not empty and holds
/// no newline.
pub open spec fn can_be_framed(message: Seq<u8>) -> bool {
    message.len() > 0 && !message.contains(NEWLINE)
}

/// What was framed comes back: the messages in their order, with nothing left
/// but what followed them.
pub proof fn lemma_framed_back(messages: Seq<Seq<u8>>, rest: Seq<u8>)
    requires
        forall|i: int| 0 <= i < messages.len() ==> can_be_framed(#[trigger] messages[i]),
    ensures
        all_lines(framed_all(messages) + rest) == messages + all_lines(rest),
        unfinished(framed_all(messages) + rest) == unfinished(rest),
    decreases messages.len(),
{
    if messages.len() == 0 {
        assert(framed_all(messages) + rest =~= rest);
        assert(messages + all_lines(rest) =~= all_lines(rest));
    } else {
        let m = messages[0];
        let others = messages.drop_first();
        assert forall|i: int| 0 <= i < others.len() implies can_be_framed(
            #[trigger] others[i],
        ) by {
            assert(others[i] == messages[i + 1]);
        }
        lemma_framed_back(others, rest);
        let tail = framed_all(others) + rest;
        let all = framed_all(messages) + rest;
        assert(all =~= framed(m) + tail);
        assert(can_be_framed(m));
        assert forall|j: int| 0 <= j < m.len() implies all[j] != NEWLINE by {
            assert(all[j] == m[j]);
            assert(m.contains(m[j]));
        }
        assert(all[m.len() as int] == NEWLINE);
        lemma_line_end_is(all, m.len() as int);
        assert(all.take(m.len() as int) =~= m);
        assert(all.skip((m.len() + 1) as int) =~= tail);
        assert(seq![m] + (others + all_lines(rest)) =~= messages + all_lines(rest));
    }
}

/// A message as it goes over the wire: its bytes and a newline, which is the
/// only one in it. Bytes that could not be told apart again are not framed.
pub fn encode_msg(data: Vec<u8>) -> (r: Option<Vec<u8>>)
    ensures
        r is Some <==> can_be_framed(data@),
        r matches Some(d) ==> {
            &&& d@ == framed(data@)
            &&& d@.last() == NEWLINE
            &&& forall|i: int| 0 <= i < d@.len() - 1 ==> #[trigger] d@[i] != NEWLINE
        },
{
    let n: usize = data.len();
    if n == 0 {
        return None;
    }
    for i in 0..n
        invariant
            n == data@.len(),
            forall|j: int| 0 <= j < i ==> data@[j] != NEWLINE,
    {
        if data[i] == NEWLINE {
            assert(data@.contains(data@[i as int]));
            return None;
        }
    }
    let mut out = data;
    out.push(NEWLINE);
    Some(out)
}

/// What [`encode_msg`] framed is a line of its own wherever it stands in a
/// stream: behind complete lines, and with anything behind it.
pub proof fn lemma_encoded_is_a_line(before: Seq<u8>, message: Seq<u8>, after: Seq<u8>)
    requires
        unfinished(before) == Seq::<u8>::empty(),
        can_be_framed(message),
    ensures
        all_lines(before + (framed(message) + after)) == all_lines(before) + (seq![message]
            + all_lines(after)),
        unfinished(before + (framed(message) + after)) == unfinished(after),
{
    let one = seq![message];
    let nothing: Seq<u8> = seq![];
    lemma_reads_join(before, framed(message) + after);
    assert(nothing + (framed(message) + after) =~= framed(message) + after);
    assert(one.drop_first() =~= seq![]);
    assert(framed_all(one.drop_first()) =~= nothing);
    assert(framed_all(one) =~= framed(message));
    lemma_framed_back(one, after);
}

/// What has been read of a stream and not yet been taken as lines.
pub struct LineBuffer {
    bytes: Vec<u8>,
}

impl View for LineBuffer {
    type V = Seq<u8>;

    closed spec fn view(&self) -> Seq<u8> {
        self.bytes@
    }
}

impl LineBuffer {
    /// Nothing read yet.
    pub fn new() -> (r: LineBuffer)
        ensures
            r@ == Seq::<u8>::empty(),
    {
        LineBuffer { bytes: Vec::new() }
    }

    /// Takes in what was read.
    pub fn push(&mut self, data: &[u8])
        ensures
            final(self)@ == old(self)@ + data@,
    {
        self.bytes.extend_from_slice(data);
        assert(self.bytes@ =~= old(self)@ + data@);
    }

    /// Takes all complete lines that are not empty.
    pub fn take_lines(&mut self) -> (r: Vec<Vec<u8>>)
        ensures
            r@.map_values(|line: Vec<u8>| line@) == all_lines(old(self)@),
            final(self)@ == unfinished(old(self)@),
    {
        let ghost whole = self@;
        let mut out: Vec<Vec<u8>> = Vec::new();
        assert(out@.map_values(|line: Vec<u8>| line@) + all_lines(whole) =~= all_lines(whole));
        loop
            invariant
                out@.map_values(|line: Vec<u8>| line@) + all_lines(self@) == all_lines(whole),
                unfinished(self@) == unfinished(whole),
                whole == old(self)@,
            decreases self@.len(),
        {
            let ghost before = self@;
            let ghost taken = out@.map_values(|line: Vec<u8>| line@);
            proof {
                lemma_take_line(before);
            }
            match self.next_line() {
                Some(line) => {
                    out.push(line);
                    assert(out@.map_values(|line: Vec<u8>| line@) + all_lines(self@) =~= taken + (
                    seq![line@] + all_lines(self@)));
                },
                None => {
                    assert(taken + all_lines(before) =~= taken);
                    return out;
                },
            }
        }
    }

    /// Takes the first complete line that is not empty.
    pub fn next_line(&mut self) -> (r: Option<Vec<u8>>)
        ensures
            (match r {
                Some(line) => Some(line@),
                None => None,
            }, final(self)@) == take_line(old(self)@),
    {
        loop
            invariant
                take_line(self.bytes@) == take_line(old(self)@),
            decreases self.bytes@.len(),
        {
            let n: usize = self.bytes.len();
            let mut i: usize = 0;
            while i < n && self.bytes[i] != NEWLINE
                invariant
                    n == self.bytes@.len(),
                    i <= n,
                    forall|j: int| 0 <= j < i ==> self.bytes@[j] != NEWLINE,
                decreases n - i,
            {
                i = i + 1;
            }
            proof {
                lemma_line_end_is(self.bytes@, i as int);
            }
            if i == n {
                return None;
            }
            let ghost before = self.bytes@;
            let line = slice_to_vec(slice_subrange(self.bytes.as_slice(), 0, i));
            let rest = self.bytes.split_off(i + 1);
            self.bytes = rest;
            assert(self.bytes@ =~= before.skip(i + 1));
            if i > 0 {
                assert(line@ =~= before.take(i as int));
                return Some(line);
            }
        }
    }
}

/// What has no newline is no line yet; an empty line is none; any other line
/// is one as soon as its newline is there, and what is behind it is cut in the
/// same way.
pub proof fn lemma_lines_cut(line: Seq<u8>, rest: Seq<u8>)
    requires
        !line.contains(NEWLINE),
    ensures
        all_lines(line) == Seq::<Seq<u8>>::empty(),
        unfinished(line) == line,
        take_line(line) == (None::<Seq<u8>>, line),
        all_lines(line.push(NEWLINE) + rest) == (if line.len() == 0 {
            all_lines(rest)
        } else {
            seq![line] + all_lines(rest)
        }),
        unfinished(line.push(NEWLINE) + rest) == unfinished(rest),
        take_line(line.push(NEWLINE) + rest) == (if line.len() == 0 {
            take_line(rest)
        } else {
            (Some(line), rest)
        }),
{
    let all = line.push(NEWLINE) + rest;
    assert forall|j: int| 0 <= j < line.len() implies line[j] != NEWLINE by {
        assert(line.contains(line[j]));
    }
    lemma_line_end_is(line, line.len() as int);
    lemma_line_end_is(all, line.len() as int);
    assert(all.take(line.len() as int) =~= line);
    assert(all.skip(line.len() as int + 1) =~= rest);
}

} // verus!
