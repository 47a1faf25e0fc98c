//! Byte sources and byte sinks.
//!
//! [`Read`] is the contract of a random-access byte source: it tracks an
//! absolute position, seeks, and hands out bytes in order. [`Write`] is the
//! contract of a sequential byte sink. [`Tape`] and [`Sink`] are the
//! in-memory source and sink that a parse or build session runs over.

use vstd::prelude::*;

use crate::Error;

verus! {

/// A type that can read: a random-access byte source with a cursor.
///
/// The source holds a fixed byte string, [`Read::data`], and a current
/// absolute position, [`Read::cursor`]. The position may point anywhere,
/// including past the end of the data; a read that would run past the end
/// fails without consuming anything at the failing position.
pub trait Read: Sized {
    /// The bytes of the source.
    spec fn data(&self) -> Seq<u8>;

    /// The current absolute position.
    spec fn cursor(&self) -> u64;

    /// Query the current absolute position.
    fn position(&mut self) -> (r: Result<u64, Error>)
        ensures
            *final(self) == *old(self),
            r == Ok::<u64, Error>(old(self).cursor()),
    ;

    /// Move to the absolute position `target`, forward or backward, and
    /// return the previous position. The target is not checked against any
    /// bound: offsets may point outside a record's declared extent, and a
    /// read past the end fails at the read itself.
    fn jump(&mut self, target: u64) -> (r: Result<u64, Error>)
        ensures
            final(self).data() == old(self).data(),
            final(self).cursor() == target,
            r == Ok::<u64, Error>(old(self).cursor()),
    ;

    /// Read exactly `count` raw bytes, advancing the position by `count`;
    /// fail without moving if fewer bytes are available.
    fn take_bytes(&mut self, count: usize) -> (r: Result<Vec<u8>, Error>)
        ensures
            final(self).data() == old(self).data(),
            match r {
                Ok(v) => {
                    &&& old(self).cursor() + count <= old(self).data().len()
                    &&& v@ == old(self).data().subrange(
                        old(self).cursor() as int,
                        old(self).cursor() + count,
                    )
                    &&& final(self).cursor() == old(self).cursor() + count
                },
                Err(e) => {
                    &&& old(self).cursor() + count > old(self).data().len()
                    &&& *final(self) == *old(self)
                    &&& e == (Error::Io { position: old(self).cursor(), wanted: count as u64 })
                },
            },
    ;
}

/// A type that can write: a sequential byte sink.
pub trait Write: Sized {
    /// The bytes written so far, in order.
    spec fn out(&self) -> Seq<u8>;

    /// Append the given bytes to the sink.
    fn put(&mut self, bytes: &Vec<u8>) -> (r: Result<(), Error>)
        ensures
            r is Ok,
            final(self).out() == old(self).out() + bytes@,
    ;

}

/// The reads that every byte source offers, generic over the value read.
///
/// These stand apart from [`Read`] so that the value traits, whose `read`
/// functions are themselves generic over the source, need not be known to
/// the source contract; every source gets them through the blanket impl.
pub trait ReadExt: Read {
    /// Read a value.
    fn take<V: crate::value::Read>(&mut self) -> (r: Result<V, Error>)
        ensures
            final(self).data() == old(self).data(),
            match r {
                Ok(v) => {
                    &&& old(self).cursor() + V::spec_width() <= old(self).data().len()
                    &&& final(self).cursor() == old(self).cursor() + V::spec_width()
                    &&& V::spec_decodes(
                        old(self).data().subrange(
                            old(self).cursor() as int,
                            old(self).cursor() + V::spec_width(),
                        ),
                        v,
                    )
                },
                Err(e) => {
                    &&& old(self).cursor() + V::spec_width() > old(self).data().len()
                    &&& old(self).cursor() <= final(self).cursor() <= old(self).cursor()
                        + V::spec_width()
                    &&& e is Io
                },
            },
    {
        crate::value::Read::read(self)
    }

    /// Read a value given a parameter.
    fn take_given<V: crate::walue::Read>(&mut self, parameter: V::Parameter) -> (r: Result<
        V,
        Error,
    >)
        ensures
            final(self).data() == old(self).data(),
            match r {
                Ok(v) => {
                    &&& old(self).cursor() + V::spec_width(parameter) <= old(self).data().len()
                        || V::spec_width(parameter) == 0
                    &&& final(self).cursor() == old(self).cursor() + V::spec_width(parameter)
                    &&& V::spec_decodes(
                        parameter,
                        old(self).data().subrange(
                            old(self).cursor() as int,
                            old(self).cursor() + V::spec_width(parameter),
                        ),
                        v,
                    )
                },
                Err(e) => {
                    &&& old(self).cursor() + V::spec_width(parameter) > old(self).data().len()
                    &&& old(self).cursor() <= final(self).cursor() <= old(self).cursor()
                        + V::spec_width(parameter)
                    &&& e is Io
                },
            },
    {
        crate::walue::Read::read(self, parameter)
    }

    /// Read a value without moving: the position afterwards is what it was
    /// before the call, whether the inner read succeeded or failed.
    fn peek<V: crate::value::Read>(&mut self) -> (r: Result<V, Error>)
        ensures
            final(self).data() == old(self).data(),
            final(self).cursor() == old(self).cursor(),
            match r {
                Ok(v) => {
                    &&& old(self).cursor() + V::spec_width() <= old(self).data().len()
                    &&& V::spec_decodes(
                        old(self).data().subrange(
                            old(self).cursor() as int,
                            old(self).cursor() + V::spec_width(),
                        ),
                        v,
                    )
                },
                Err(e) => {
                    &&& old(self).cursor() + V::spec_width() > old(self).data().len()
                    &&& e is Io
                },
            },
    {
        let position = self.position()?;
        let result = crate::value::Read::read(self);
        self.jump(position)?;
        result
    }
}

impl<T: Read> ReadExt for T {

}

/// The writes that every byte sink offers, generic over the value written.
pub trait WriteExt: Write {
    /// Write a value.
    fn give<V: crate::value::Write + ?Sized>(&mut self, value: &V) -> (r: Result<(), Error>)
        ensures
            r is Ok,
            final(self).out() == old(self).out() + value.spec_encode(),
    {
        value.write(self)
    }
}

impl<T: Write> WriteExt for T {

}

/// An in-memory byte source: a cursor over a byte string.
///
/// The cursor is the sole channel to the bytes during a parse session and
/// the single source of position truth; it is created for a session and
/// discarded with it.
pub struct Tape {
    bytes: Vec<u8>,
    position: u64,
}

impl Tape {
    /// Open a source over the given bytes, positioned at the start.
    pub fn new(bytes: Vec<u8>) -> (r: Tape)
        ensures
            r.data() == bytes@,
            r.cursor() == 0,
    {
        Tape { bytes, position: 0 }
    }
}

impl Read for Tape {
    closed spec fn data(&self) -> Seq<u8> {
        self.bytes@
    }

    closed spec fn cursor(&self) -> u64 {
        self.position
    }

    fn position(&mut self) -> (r: Result<u64, Error>) {
        Ok(self.position)
    }

    fn jump(&mut self, target: u64) -> (r: Result<u64, Error>) {
        let previous = self.position;
        self.position = target;
        Ok(previous)
    }

    fn take_bytes(&mut self, count: usize) -> (r: Result<Vec<u8>, Error>) {
        let length = self.bytes.len();
        if self.position > length as u64 || count as u64 > length as u64 - self.position {
            return Err(Error::Io { position: self.position, wanted: count as u64 });
        }
        let start = self.position as usize;
        let mut taken: Vec<u8> = Vec::new();
        let mut i: usize = 0;
        while i < count
            invariant
                start + count <= self.bytes.len(),
                i <= count,
                taken@ =~= self.bytes@.subrange(start as int, start + i),
            decreases count - i,
        {
            taken.push(self.bytes[start + i]);
            assert(taken@ =~= self.bytes@.subrange(start as int, start + i + 1));
            i += 1;
        }
        self.position = self.position + count as u64;
        Ok(taken)
    }
}

/// An in-memory byte sink that collects everything written to it.
pub struct Sink {
    bytes: Vec<u8>,
}

impl Sink {
    /// Open an empty sink.
    pub fn new() -> (r: Sink)
        ensures
            r.out() == Seq::<u8>::empty(),
    {
        Sink { bytes: Vec::new() }
    }

    /// Close the sink and hand back everything written, in order.
    pub fn into_bytes(self) -> (r: Vec<u8>)
        ensures
            r@ == self.out(),
    {
        self.bytes
    }
}

impl Write for Sink {
    closed spec fn out(&self) -> Seq<u8> {
        self.bytes@
    }

    fn put(&mut self, bytes: &Vec<u8>) -> (r: Result<(), Error>) {
        let mut i: usize = 0;
        let count = bytes.len();
        while i < count
            invariant
                i <= count,
                count == bytes@.len(),
                self.bytes@ =~= old(self).bytes@ + bytes@.subrange(0, i as int),
            decreases count - i,
        {
            self.bytes.push(bytes[i]);
            assert(self.bytes@ =~= old(self).bytes@ + bytes@.subrange(0, i + 1));
            i += 1;
        }
        assert(self.bytes@ =~= old(self).bytes@ + bytes@);
        Ok(())
    }
}

} // verus!
