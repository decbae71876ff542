use vstd::prelude::*;

verus! {

/// A position in the input: byte offset (0-based), line and column (both 1-based).
#[derive(Debug, Clone, Copy, PartialEq, Eq, Structural)]
pub struct Location {
    pub offset: usize,
    pub line: usize,
    pub column: usize,
}

impl Location {
    /// Line and column never run ahead of the number of bytes seen.
    pub open spec fn wf(self) -> bool {
        &&& 1 <= self.line <= self.offset + 1
        &&& 1 <= self.column <= self.offset + 1
    }

    pub open spec fn spec_start() -> Location {
        Location { offset: 0, line: 1, column: 1 }
    }

    /// The location after one more byte.
    pub open spec fn spec_after_byte(self, byte: u8) -> Location {
        if byte == 10u8 {
            Location { offset: (self.offset + 1) as usize, line: (self.line + 1) as usize, column: 1 }
        } else {
            Location { offset: (self.offset + 1) as usize, line: self.line, column: (self.column + 1) as usize }
        }
    }

    /// The location after a sequence of bytes.
    pub open spec fn spec_after_bytes(self, bytes: Seq<u8>) -> Location
        decreases bytes.len(),
    {
        if bytes.len() == 0 {
            self
        } else {
            self.spec_after_byte(bytes[0]).spec_after_bytes(bytes.drop_first())
        }
    }

    pub fn start() -> (r: Location)
        ensures
            r == Location::spec_start(),
            r.wf(),
    {
        Location { offset: 0, line: 1, column: 1 }
    }

    pub fn after_byte(&mut self, byte: u8)
        requires
            old(self).wf(),
            old(self).offset < usize::MAX - 1,
        ensures
            *final(self) == old(self).spec_after_byte(byte),
            final(self).wf(),
    {
        self.offset += 1;
        if byte == 10u8 {
            self.line += 1;
            self.column = 1;
        } else {
            self.column += 1;
        }
    }
}

/// Reading one byte as a sequence is reading the byte.
pub proof fn lemma_after_one_byte(l: Location, x: u8)
    ensures
        l.spec_after_bytes(seq![x]) == l.spec_after_byte(x),
{
    let e = seq![x].drop_first();
    assert(e =~= Seq::<u8>::empty());
    assert(l.spec_after_byte(x).spec_after_bytes(e) == l.spec_after_byte(x));
}

/// Reading `a` and then `b` ends where reading `a + b` ends.
pub proof fn lemma_after_bytes_concat(l: Location, a: Seq<u8>, b: Seq<u8>)
    ensures
        l.spec_after_bytes(a + b) == l.spec_after_bytes(a).spec_after_bytes(b),
    decreases a.len(),
{
    if a.len() > 0 {
        assert((a + b).drop_first() =~= a.drop_first() + b);
        lemma_after_bytes_concat(l.spec_after_byte(a[0]), a.drop_first(), b);
    } else {
        assert(a + b =~= b);
    }
}

} // verus!
