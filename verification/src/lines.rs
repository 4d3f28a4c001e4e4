//! Splitting a child's output stream into lines.
//!
//! A reader thread hands each chunk of bytes it pulls from the pipe to a
//! [`LineSplitter`], which buffers only up to the next line boundary and
//! returns every line completed by the chunk, in the order the child wrote
//! them.  A line ends at a newline byte; a carriage return directly before
//! the newline is stripped, as the usual buffered line readers do.  Bytes are
//! not decoded here: a line that is not valid text is tolerated and handed
//! on as bytes.
use vstd::prelude::*;

verus! {

/// The newline byte that ends a line.
pub open spec fn nl() -> u8 {
    10u8
}

/// The carriage-return byte stripped from a line end.
pub open spec fn cr() -> u8 {
    13u8
}

/// A line with a trailing carriage return stripped.
pub open spec fn strip_cr(l: Seq<u8>) -> Seq<u8> {
    if l.len() > 0 && l.last() == cr() {
        l.drop_last()
    } else {
        l
    }
}

/// The lines of `s` that a newline byte has completed, in order, each with
/// its newline (and a carriage return before it) removed.
pub open spec fn complete_lines(s: Seq<u8>) -> Seq<Seq<u8>>
    decreases s.len(),
{
    if s.len() == 0 {
        Seq::empty()
    } else if s.last() == nl() {
        complete_lines(s.drop_last()).push(strip_cr(pending_tail(s.drop_last())))
    } else {
        complete_lines(s.drop_last())
    }
}

/// The bytes of `s` after its last newline: the still-open line.
pub open spec fn pending_tail(s: Seq<u8>) -> Seq<u8>
    decreases s.len(),
{
    if s.len() == 0 {
        Seq::empty()
    } else if s.last() == nl() {
        Seq::empty()
    } else {
        pending_tail(s.drop_last()).push(s.last())
    }
}

/// Incremental line splitter for one output stream.  Its abstract state is
/// the still-open line: the bytes received since the last newline.
pub struct LineSplitter {
    buf: Vec<u8>,
}

impl LineSplitter {
    /// The still-open line.
    pub closed spec fn view(&self) -> Seq<u8> {
        self.buf@
    }

    /// No newline byte sits in the buffer.
    pub closed spec fn wf(&self) -> bool {
        forall|i: int| 0 <= i < self.buf@.len() ==> self.buf@[i] != nl()
    }

    /// A splitter with nothing buffered.
    pub fn new() -> (s: LineSplitter)
        ensures
            s.wf(),
            s@ == Seq::<u8>::empty(),
    {
        LineSplitter { buf: Vec::new() }
    }

    /// Consumes the next chunk of the stream and returns the lines it
    /// completed, oldest first; what follows the last newline stays
    /// buffered.  The lines of the whole stream come out exactly once and
    /// in the order the child wrote them, however the stream was cut into
    /// chunks.
    pub fn push_bytes(&mut self, bytes: &[u8]) -> (lines: Vec<Vec<u8>>)
        requires
            old(self).wf(),
        ensures
            final(self).wf(),
            lines@.map_values(|l: Vec<u8>| l@) == complete_lines(old(self)@ + bytes@),
            final(self)@ == pending_tail(old(self)@ + bytes@),
    {
        let ghost start = self.buf@;
        let mut lines: Vec<Vec<u8>> = Vec::new();
        let n = bytes.len();
        let mut i: usize = 0;
        proof {
            assert(start + bytes@.take(0) =~= start);
            assert(complete_lines(start) =~= Seq::<Seq<u8>>::empty()) by {
                lemma_no_nl_no_lines(start);
            }
            assert(pending_tail(start) =~= start) by {
                lemma_no_nl_pending(start);
            }
            assert(lines@.map_values(|l: Vec<u8>| l@) =~= Seq::<Seq<u8>>::empty());
        }
        while i < n
            invariant
                n == bytes@.len(),
                i <= n,
                self.wf(),
                lines@.map_values(|l: Vec<u8>| l@) == complete_lines(start + bytes@.take(i as int)),
                self.buf@ == pending_tail(start + bytes@.take(i as int)),
            decreases n - i,
        {
            let ghost sprev = start + bytes@.take(i as int);
            let b = bytes[i];
            proof {
                assert(start + bytes@.take(i + 1) =~= sprev.push(b));
                assert(sprev.push(b).drop_last() =~= sprev);
                assert(sprev.push(b).last() == b);
            }
            if b == 10u8 {
                let mut line: Vec<u8> = Vec::new();
                std::mem::swap(&mut line, &mut self.buf);
                if line.len() > 0 && line[line.len() - 1] == 13u8 {
                    let _ = line.pop();
                }
                proof {
                    assert(line@ == strip_cr(pending_tail(sprev)));
                }
                lines.push(line);
                proof {
                    assert(lines@.map_values(|l: Vec<u8>| l@) =~= complete_lines(
                        start + bytes@.take(i + 1),
                    ));
                }
            } else {
                self.buf.push(b);
            }
            i = i + 1;
        }
        proof {
            assert(start + bytes@.take(n as int) =~= start + bytes@);
        }
        lines
    }

    /// Hands back the still-open line at end of stream, leaving the
    /// splitter empty.  `None` when the stream ended exactly at a line
    /// boundary; a lone trailing carriage return is kept, as the usual
    /// line readers keep it when no newline follows.
    pub fn take_rest(&mut self) -> (rest: Option<Vec<u8>>)
        requires
            old(self).wf(),
        ensures
            final(self).wf(),
            final(self)@ == Seq::<u8>::empty(),
            match rest {
                Some(l) => old(self)@.len() > 0 && l@ == old(self)@,
                None => old(self)@.len() == 0,
            },
    {
        if self.buf.len() == 0 {
            None
        } else {
            let mut line: Vec<u8> = Vec::new();
            std::mem::swap(&mut line, &mut self.buf);
            Some(line)
        }
    }
}

/// A byte sequence without a newline completes no line.
proof fn lemma_no_nl_no_lines(s: Seq<u8>)
    requires
        forall|i: int| 0 <= i < s.len() ==> s[i] != nl(),
    ensures
        complete_lines(s) == Seq::<Seq<u8>>::empty(),
    decreases s.len(),
{
    if s.len() > 0 {
        assert(s.last() != nl());
        lemma_no_nl_no_lines(s.drop_last());
    }
}

/// A byte sequence without a newline is pending in full.
proof fn lemma_no_nl_pending(s: Seq<u8>)
    requires
        forall|i: int| 0 <= i < s.len() ==> s[i] != nl(),
    ensures
        pending_tail(s) =~= s,
    decreases s.len(),
{
    if s.len() > 0 {
        assert(s.last() != nl());
        lemma_no_nl_pending(s.drop_last());
    }
}

} // verus!
