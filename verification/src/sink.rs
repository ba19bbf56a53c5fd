//! The byte sink that a framed writer forwards to.

use vstd::prelude::*;

verus! {

/// A destination for bytes that may take fewer than it is offered.
pub trait Sink: Sized {
    /// What a failed call reports.
    type Error;

    /// Offers `bytes`. The sink accepts some front part of them, possibly none,
    /// and reports how many; a failed call has accepted nothing.
    fn write(&mut self, bytes: &[u8]) -> (r: Result<usize, Self::Error>)
        ensures
            r matches Ok(n) ==> n <= bytes@.len(),
            old(self).write_gives(bytes@, r, *final(self)),
    ;

    /// Pushes what the sink has buffered on to its destination.
    fn flush(&mut self) -> (r: Result<(), Self::Error>)
        ensures
            old(self).flush_gives(r, *final(self)),
    ;

    /// Closes the sink. `Ok(true)` says that it is closed, `Ok(false)` that the
    /// call has to be repeated later.
    fn shutdown(&mut self) -> (r: Result<bool, Self::Error>)
        ensures
            old(self).shutdown_gives(r, *final(self)),
    ;

    /// What a sink of this kind promises of `write` beyond what every sink
    /// does: the answer `r` to the offer of `bytes` and the sink `after` the
    /// call. A kind that promises nothing leaves this as it is.
    open spec fn write_gives(
        &self,
        bytes: Seq<u8>,
        r: Result<usize, Self::Error>,
        after: Self,
    ) -> bool {
        true
    }

    /// What a sink of this kind promises of `flush`: the answer `r` and the
    /// sink `after` the call. A kind that promises nothing leaves this as it is.
    open spec fn flush_gives(&self, r: Result<(), Self::Error>, after: Self) -> bool {
        true
    }

    /// What a sink of this kind promises of `shutdown`: the answer `r` and the
    /// sink `after` the call. A kind that promises nothing leaves this as it is.
    open spec fn shutdown_gives(&self, r: Result<bool, Self::Error>, after: Self) -> bool {
        true
    }
}

/// One call of a sink's `write`, as a record keeps it.
pub struct Offer<T: Sink> {
    /// How many bytes the record held as accepted before the call.
    pub at: nat,
    /// The bytes that the sink was offered.
    pub bytes: Seq<u8>,
    /// What the sink answered.
    pub answer: Result<usize, T::Error>,
    /// The sink before the call.
    pub before: T,
    /// The sink after the call.
    pub after: T,
}

impl<T: Sink> Offer<T> {
    /// How many of the offered bytes the sink accepted.
    pub open spec fn taken(self) -> nat {
        match self.answer {
            Ok(n) => n as nat,
            Err(_) => 0,
        }
    }

    /// True when the call went as every sink, and a sink of this kind, promises.
    pub open spec fn kept(self) -> bool {
        &&& self.taken() <= self.bytes.len()
        &&& self.before.write_gives(self.bytes, self.answer, self.after)
    }
}

/// True when offer `k` came next after offer `k - 1`, with no other call of
/// the sink between them.
pub open spec fn follows<T: Sink>(offers: Seq<Offer<T>>, k: int) -> bool {
    &&& offers[k].before == offers[k - 1].after
    &&& offers[k].at == offers[k - 1].at + offers[k - 1].taken()
}

/// A sink together with the record of what was asked of it and what it
/// answered. The record grows only in the calls of the sink that it holds.
pub struct Logged<T: Sink> {
    inner: T,
    log: Ghost<Seq<u8>>,
    offers: Ghost<Seq<Offer<T>>>,
    flushes: Ghost<Seq<Result<(), T::Error>>>,
    shutdowns: Ghost<Seq<Result<bool, T::Error>>>,
}

impl<T: Sink> Logged<T> {
    /// The sink.
    pub closed spec fn inner(&self) -> T {
        self.inner
    }

    /// Every byte that the sink has accepted since the record began, in order.
    pub closed spec fn written(&self) -> Seq<u8> {
        self.log@
    }

    /// The calls of the sink's `write` since the record began, in order.
    pub closed spec fn offers(&self) -> Seq<Offer<T>> {
        self.offers@
    }

    /// What the sink answered to each call of its `flush`, in order.
    pub closed spec fn flushes(&self) -> Seq<Result<(), T::Error>> {
        self.flushes@
    }

    /// What the sink answered to each call of its `shutdown`, in order.
    pub closed spec fn shutdowns(&self) -> Seq<Result<bool, T::Error>> {
        self.shutdowns@
    }

    /// True when the sink, the last time it was offered bytes, was offered at
    /// least one and accepted none.
    pub open spec fn stalled(&self) -> bool {
        &&& self.offers().len() > 0
        &&& self.offers().last().bytes.len() > 0
        &&& self.offers().last().answer == Ok::<usize, T::Error>(0)
    }

    /// Begins an empty record for `inner`.
    pub fn new(inner: T) -> (s: Self)
        ensures
            s.inner() == inner,
            s.written() == Seq::<u8>::empty(),
            s.offers() == Seq::<Offer<T>>::empty(),
            s.flushes() == Seq::<Result<(), T::Error>>::empty(),
            s.shutdowns() == Seq::<Result<bool, T::Error>>::empty(),
    {
        Logged {
            inner,
            log: Ghost(Seq::empty()),
            offers: Ghost(Seq::empty()),
            flushes: Ghost(Seq::empty()),
            shutdowns: Ghost(Seq::empty()),
        }
    }

    /// Gives the sink back and drops the record.
    pub fn into_inner(self) -> (inner: T)
        ensures
            inner == self.inner(),
    {
        self.inner
    }

    /// Offers `bytes` to the sink once, hands on its answer, and records the
    /// call and the front part of `bytes` that the sink accepted.
    pub fn write(&mut self, bytes: &[u8]) -> (r: Result<usize, T::Error>)
        ensures
            match r {
                Ok(n) => n <= bytes@.len() && final(self).written() == old(self).written()
                    + bytes@.take(n as int),
                Err(_) => final(self).written() == old(self).written(),
            },
            final(self).offers() == old(self).offers().push(
                (Offer {
                    at: old(self).written().len(),
                    bytes: bytes@,
                    answer: r,
                    before: old(self).inner(),
                    after: final(self).inner(),
                }),
            ),
            final(self).offers().last().kept(),
            final(self).flushes() == old(self).flushes(),
            final(self).shutdowns() == old(self).shutdowns(),
    {
        let ghost at = self.log@.len();
        let ghost before = self.inner;
        let r = self.inner.write(bytes);
        proof {
            self.offers@ = self.offers@.push(
                Offer { at, bytes: bytes@, answer: r, before, after: self.inner },
            );
            if let Ok(n) = r {
                self.log@ = self.log@ + bytes@.take(n as int);
            }
        }
        r
    }

    /// Flushes the sink once, hands on its answer and records it.
    pub fn flush(&mut self) -> (r: Result<(), T::Error>)
        ensures
            final(self).flushes() == old(self).flushes().push(r),
            old(self).inner().flush_gives(r, final(self).inner()),
            final(self).written() == old(self).written(),
            final(self).offers() == old(self).offers(),
            final(self).shutdowns() == old(self).shutdowns(),
    {
        let r = self.inner.flush();
        proof {
            self.flushes@ = self.flushes@.push(r);
        }
        r
    }

    /// Asks the sink once to close, hands on its answer and records it.
    pub fn shutdown(&mut self) -> (r: Result<bool, T::Error>)
        ensures
            final(self).shutdowns() == old(self).shutdowns().push(r),
            old(self).inner().shutdown_gives(r, final(self).inner()),
            final(self).written() == old(self).written(),
            final(self).offers() == old(self).offers(),
            final(self).flushes() == old(self).flushes(),
    {
        let r = self.inner.shutdown();
        proof {
            self.shutdowns@ = self.shutdowns@.push(r);
        }
        r
    }
}

/// A growable buffer takes everything it is offered and never fails.
impl Sink for Vec<u8> {
    type Error = core::convert::Infallible;

    open spec fn write_gives(
        &self,
        bytes: Seq<u8>,
        r: Result<usize, Self::Error>,
        after: Self,
    ) -> bool {
        &&& r matches Ok(n)
        &&& n == bytes.len()
        &&& after@ == self@ + bytes
    }

    open spec fn flush_gives(&self, r: Result<(), Self::Error>, after: Self) -> bool {
        r is Ok && after@ == self@
    }

    open spec fn shutdown_gives(&self, r: Result<bool, Self::Error>, after: Self) -> bool {
        r == Ok::<bool, Self::Error>(true) && after@ == self@
    }

    fn write(&mut self, bytes: &[u8]) -> (r: Result<usize, Self::Error>) {
        self.extend_from_slice(bytes);
        assert(self@ =~= old(self)@ + bytes@);
        Ok(bytes.len())
    }

    fn flush(&mut self) -> (r: Result<(), Self::Error>) {
        Ok(())
    }

    fn shutdown(&mut self) -> (r: Result<bool, Self::Error>) {
        Ok(true)
    }
}

/// A buffer that takes at most `limit` bytes per call.
pub struct Limited {
    /// The bytes taken so far.
    pub out: Vec<u8>,
    /// The most that one call takes.
    pub limit: usize,
}

impl Sink for Limited {
    type Error = core::convert::Infallible;

    open spec fn write_gives(
        &self,
        bytes: Seq<u8>,
        r: Result<usize, Self::Error>,
        after: Self,
    ) -> bool {
        &&& r matches Ok(n)
        &&& n == if bytes.len() <= self.limit {
            bytes.len()
        } else {
            self.limit as nat
        }
        &&& after.limit == self.limit
        &&& after.out@ == self.out@ + bytes.take(n as int)
    }

    open spec fn flush_gives(&self, r: Result<(), Self::Error>, after: Self) -> bool {
        r is Ok && after == *self
    }

    open spec fn shutdown_gives(&self, r: Result<bool, Self::Error>, after: Self) -> bool {
        r == Ok::<bool, Self::Error>(true) && after == *self
    }

    fn write(&mut self, bytes: &[u8]) -> (r: Result<usize, Self::Error>) {
        let n: usize = if bytes.len() <= self.limit {
            bytes.len()
        } else {
            self.limit
        };
        let front = vstd::slice::slice_subrange(bytes, 0, n);
        self.out.extend_from_slice(front);
        assert(self.out@ =~= old(self).out@ + bytes@.take(n as int));
        Ok(n)
    }

    fn flush(&mut self) -> (r: Result<(), Self::Error>) {
        Ok(())
    }

    fn shutdown(&mut self) -> (r: Result<bool, Self::Error>) {
        Ok(true)
    }
}

} // verus!
