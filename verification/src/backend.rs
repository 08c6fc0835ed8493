//! The storage contract and the backend that keeps its bytes in memory.

use vstd::prelude::*;

verus! {

/// A provider of byte storage: one buffer, read whole and replaced whole.
pub trait Backend: Sized {
    /// What a failed operation reports.
    type Error;

    /// The bytes that the backend currently stores.
    spec fn contents(&self) -> Seq<u8>;

    /// Reads all the stored bytes. Reading never changes what is stored.
    fn read(&mut self) -> (res: Result<Vec<u8>, Self::Error>)
        ensures
            final(self).contents() == old(self).contents(),
            res matches Ok(bytes) ==> bytes@ == old(self).contents(),
    ;

    /// Replaces the stored bytes by `data`. After a failure the stored bytes
    /// are unspecified.
    fn write(&mut self, data: Vec<u8>) -> (res: Result<(), Self::Error>)
        ensures
            res is Ok ==> final(self).contents() == data@,
    ;
}

/// What a successful write ensures: `after` stores exactly `data`.
pub open spec fn stores<B: Backend>(after: B, data: Seq<u8>) -> bool {
    after.contents() == data
}

/// What a successful read ensures: `bytes` is all that `before` stored, and
/// `after` stores the same.
pub open spec fn reads<B: Backend>(before: B, after: B, bytes: Seq<u8>) -> bool {
    bytes == before.contents() && after.contents() == before.contents()
}

/// An in-memory backend.
#[derive(Debug, PartialEq, Eq)]
pub struct Memory(Vec<u8>);

impl View for Memory {
    type V = Seq<u8>;

    closed spec fn view(&self) -> Seq<u8> {
        self.0@
    }
}

impl Memory {
    /// An empty backend.
    pub fn new() -> (res: Self)
        ensures
            res@ == Seq::<u8>::empty(),
    {
        Memory(Vec::new())
    }

    /// Takes the data out of the backend, leaving an empty backend in its place.
    pub fn take(&mut self) -> (out: Vec<u8>)
        ensures
            out@ == old(self)@,
            final(self)@ == Seq::<u8>::empty(),
    {
        let mut out: Vec<u8> = Vec::new();
        std::mem::swap(&mut self.0, &mut out);
        out
    }
}

impl Default for Memory {
    fn default() -> (res: Self)
        ensures
            res@ == Seq::<u8>::empty(),
    {
        Memory(Vec::new())
    }
}

impl Clone for Memory {
    fn clone(&self) -> (res: Self)
        ensures
            res@ == self@,
    {
        Memory(self.0.clone())
    }
}

impl From<Vec<u8>> for Memory {
    fn from(buf: Vec<u8>) -> (res: Self) {
        Memory(buf)
    }
}

impl vstd::std_specs::convert::FromSpecImpl<Vec<u8>> for Memory {
    open spec fn obeys_from_spec() -> bool {
        true
    }

    closed spec fn from_spec(buf: Vec<u8>) -> Self {
        Memory(buf)
    }
}

/// A backend made from a buffer stores that buffer.
pub proof fn lemma_from_stores(buf: Vec<u8>)
    ensures
        <Memory as vstd::std_specs::convert::FromSpec<Vec<u8>>>::from_spec(buf)@ == buf@,
{
}

impl Backend for Memory {
    type Error = std::convert::Infallible;

    open spec fn contents(&self) -> Seq<u8> {
        self@
    }

    fn read(&mut self) -> (res: Result<Vec<u8>, Self::Error>)
        ensures
            res is Ok,
    {
        Ok(self.0.clone())
    }

    fn write(&mut self, data: Vec<u8>) -> (res: Result<(), Self::Error>)
        ensures
            res is Ok,
    {
        self.0 = data;
        Ok(())
    }
}

/// What a write stored is what the next read returns, for every backend: if
/// both succeed, the bytes read are the bytes written, and they are still
/// stored afterwards.
pub proof fn lemma_round_trip<B: Backend>(written: B, data: Seq<u8>, after: B, bytes: Seq<u8>)
    requires
        stores(written, data),
        reads(written, after, bytes),
    ensures
        bytes == data,
        stores(after, data),
{
}

/// Writing the same data twice stores what writing it once stores, for every
/// backend.
pub proof fn lemma_write_twice<B: Backend>(once: B, twice: B, data: Seq<u8>)
    requires
        stores(once, data),
        stores(twice, data),
    ensures
        twice.contents() == once.contents(),
{
}

} // verus!
