//! Cutting the daemon's output into lines: each complete line is one frame.

use vstd::prelude::*;

verus! {

/// The complete lines of `bytes`, each without its newline, and what follows
/// the last newline.
pub open spec fn split_lines(bytes: Seq<u8>) -> (Seq<Seq<u8>>, Seq<u8>)
    decreases bytes.len(),
{
    if bytes.len() == 0 {
        (Seq::empty(), Seq::empty())
    } else {
        let (lines, rest) = split_lines(bytes.drop_last());
        if bytes.last() == 10u8 {
            (lines.push(rest), Seq::empty())
        } else {
            (lines, rest.push(bytes.last()))
        }
    }
}

/// The bytes read and not yet cut into lines.
pub struct LineBuffer {
    partial: Vec<u8>,
    /// Every byte taken so far.
    taken: Ghost<Seq<u8>>,
    /// Every line handed out so far.
    lines: Ghost<Seq<Seq<u8>>>,
}

impl LineBuffer {
    /// Every byte taken so far.
    pub closed spec fn received(&self) -> Seq<u8> {
        self.taken@
    }

    /// Every line handed out so far.
    pub closed spec fn emitted(&self) -> Seq<Seq<u8>> {
        self.lines@
    }

    /// The bytes after the last newline, waiting for theirs.
    pub closed spec fn partial(&self) -> Seq<u8> {
        self.partial@
    }

    /// The lines handed out are the complete lines of what was taken, and the
    /// bytes kept are what follows them.
    pub closed spec fn wf(&self) -> bool {
        split_lines(self.taken@) == (self.lines@, self.partial@)
    }

    pub fn new() -> (r: LineBuffer)
        ensures
            r.wf(),
            r.received().len() == 0,
            r.emitted().len() == 0,
            r.partial().len() == 0,
    {
        LineBuffer { partial: Vec::new(), taken: Ghost(Seq::empty()), lines: Ghost(Seq::empty()) }
    }

    /// Takes the bytes `chunk` and hands back the lines that they complete, in
    /// order, each without its newline.
    pub fn push(&mut self, chunk: &[u8]) -> (r: Vec<Vec<u8>>)
        requires
            old(self).wf(),
        ensures
            final(self).wf(),
            split_lines(final(self).received()) == (final(self).emitted(), final(self).partial()),
            final(self).received() == old(self).received() + chunk@,
            final(self).emitted() == old(self).emitted() + r@.map_values(|l: Vec<u8>| l@),
    {
        let mut out: Vec<Vec<u8>> = Vec::new();
        let ghost start_taken = self.taken@;
        let ghost start_lines = self.lines@;
        let mut i: usize = 0;
        while i < chunk.len()
            invariant
                i <= chunk@.len(),
                self.taken@ == start_taken + chunk@.take(i as int),
                self.lines@ == start_lines + out@.map_values(|l: Vec<u8>| l@),
                split_lines(self.taken@) == (self.lines@, self.partial@),
            decreases chunk@.len() - i,
        {
            let b = chunk[i];
            let ghost before = self.taken@;
            self.taken = Ghost(self.taken@.push(b));
            proof {
                assert(self.taken@.drop_last() == before);
                assert(chunk@.take(i + 1) == chunk@.take(i as int).push(b));
                assert(self.taken@ == start_taken + chunk@.take(i + 1));
            }
            if b == 10u8 {
                let mut line: Vec<u8> = Vec::new();
                std::mem::swap(&mut line, &mut self.partial);
                let ghost l = line@;
                let ghost prev = out@;
                out.push(line);
                self.lines = Ghost(self.lines@.push(l));
                proof {
                    let f = |v: Vec<u8>| v@;
                    assert(out@.map_values(f) =~= prev.map_values(f).push(l));
                    assert(start_lines + prev.map_values(f).push(l) =~= (start_lines
                        + prev.map_values(f)).push(l));
                }
            } else {
                self.partial.push(b);
            }
            i = i + 1;
        }
        assert(chunk@.take(chunk@.len() as int) == chunk@);
        out
    }
}

} // verus!
