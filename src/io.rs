use vstd::prelude::*;

verus! {

/// A blocking source of bytes, read one byte at a time.
///
/// A source is described by `rest`, the bytes that it has yet to deliver. `Ok(None)` marks the
/// end of the stream; an I/O error leaves the source no longer than it was. A source that sets
/// `never_fails` reports no I/O error at all.
///
/// The defaults of `rest` and `never_fails` exist only so that sources outside verified code
/// (over `std::io`, say) can implement the trait. Nothing checks such a source against `read`'s
/// contract, and with the empty default `rest` it breaks that contract as soon as it delivers a
/// byte: what is proved of a reader holds only for sources that meet the contract, such as
/// `VecRead`.
pub trait BlockingRead {
    type Error;

    closed spec fn rest(&self) -> Seq<u8> {
        Seq::empty()
    }

    closed spec fn never_fails(&self) -> bool {
        false
    }

    fn read(&mut self) -> (r: Result<Option<u8>, Self::Error>)
        ensures
            final(self).never_fails() == old(self).never_fails(),
            old(self).never_fails() ==> r is Ok,
            final(self).rest().len() <= old(self).rest().len(),
            r matches Ok(Some(b)) ==> old(self).rest().len() > 0 && b == old(self).rest()[0]
                && final(self).rest() == old(self).rest().drop_first(),
            r matches Ok(None) ==> old(self).rest().len() == 0 && final(self).rest() == old(
                self,
            ).rest(),
    ;
}

/// A blocking sink of bytes. `written` is everything that the sink has accepted so far. A sink
/// that sets `never_fails` reports no I/O error at all.
///
/// As with `BlockingRead`, the defaults serve sinks outside verified code; nothing checks those
/// against `write_all`'s contract, which the empty default `written` breaks.
pub trait BlockingWrite {
    type Error;

    closed spec fn written(&self) -> Seq<u8> {
        Seq::empty()
    }

    closed spec fn never_fails(&self) -> bool {
        false
    }

    fn write_all(&mut self, buf: &[u8]) -> (r: Result<(), Self::Error>)
        ensures
            final(self).never_fails() == old(self).never_fails(),
            old(self).never_fails() ==> r is Ok,
            r is Ok ==> final(self).written() == old(self).written() + buf@,
    ;
}

/// An in-memory source over a vector of bytes.
pub struct VecRead {
    data: Vec<u8>,
    pos: usize,
}

impl VecRead {
    pub fn new(data: Vec<u8>) -> (r: VecRead)
        ensures
            r.rest() == data@,
            r.never_fails(),
    {
        let r = VecRead { data, pos: 0 };
        assert(r.rest() =~= r.data@);
        r
    }
}

impl BlockingRead for VecRead {
    type Error = core::convert::Infallible;

    closed spec fn never_fails(&self) -> bool {
        true
    }

    closed spec fn rest(&self) -> Seq<u8> {
        if self.pos <= self.data@.len() {
            self.data@.subrange(self.pos as int, self.data@.len() as int)
        } else {
            Seq::empty()
        }
    }

    fn read(&mut self) -> (r: Result<Option<u8>, Self::Error>) {
        if self.pos < self.data.len() {
            let b = self.data[self.pos];
            self.pos = self.pos + 1;
            assert(self.rest() =~= old(self).rest().drop_first());
            Ok(Some(b))
        } else {
            Ok(None)
        }
    }
}

impl BlockingWrite for Vec<u8> {
    type Error = core::convert::Infallible;

    open spec fn written(&self) -> Seq<u8> {
        self@
    }

    open spec fn never_fails(&self) -> bool {
        true
    }

    fn write_all(&mut self, buf: &[u8]) -> (r: Result<(), Self::Error>) {
        let mut i: usize = 0;
        while i < buf.len()
            invariant
                0 <= i <= buf@.len(),
                self@ == old(self)@ + buf@.subrange(0, i as int),
            decreases buf@.len() - i,
        {
            self.push(buf[i]);
            i = i + 1;
            assert(self@ =~= old(self)@ + buf@.subrange(0, i as int));
        }
        assert(buf@.subrange(0, buf@.len() as int) =~= buf@);
        Ok(())
    }
}

} // verus!
