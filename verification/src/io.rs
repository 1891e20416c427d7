use vstd::prelude::*;

use crate::error::Error;
use crate::secret::{guard_text, guarded_text, GuardedText};
use vstd::string::StrSliceExecFns;

verus! {

/// A transient or fatal fault of a byte source or sink.  `Interrupted`
/// faults are retried transparently; `Failed` faults abort the operation
/// with the carried message.
#[derive(Debug)]
pub enum IoFault {
    Interrupted,
    Failed(String),
}

/// A supplier of an ordered stream of bytes (a file, a pipe, a buffer).
///
/// This is the source collaborator of the chunk engine: implementors that
/// live outside the library (and are therefore unverified) are trusted to
/// meet these contracts.  `remaining` is the sequence of bytes the source
/// will still deliver; a read hands out a prefix of it.  A read of zero
/// bytes into spare room means the source is exhausted.  A faulted read
/// consumes nothing, and only finitely many `Interrupted` faults occur in
/// a row (`interrupt_budget` shrinks with each one).  The ghost views
/// carry inert defaults so that implementors outside the library only
/// write the exec method.
pub trait ByteSource {
    open spec fn remaining(&self) -> Seq<u8> {
        vstd::pervasive::arbitrary()
    }

    open spec fn interrupt_budget(&self) -> nat {
        vstd::pervasive::arbitrary()
    }

    /// Read some bytes into `buf[start..]`; the length of `buf` is kept.
    fn read_at(&mut self, buf: &mut Vec<u8>, start: usize) -> (r: Result<usize, IoFault>)
        requires
            start <= old(buf)@.len(),
        ensures
            final(buf)@.len() == old(buf)@.len(),
            match r {
                Ok(n) => {
                    &&& n + start <= old(buf)@.len()
                    &&& n <= old(self).remaining().len()
                    &&& final(buf)@ == old(buf)@.take(start as int) + old(self).remaining().take(
                        n as int,
                    ) + old(buf)@.skip((start + n) as int)
                    &&& final(self).remaining() == old(self).remaining().skip(n as int)
                    &&& (n == 0 && start < old(buf)@.len() ==> old(self).remaining().len() == 0)
                },
                Err(f) => {
                    &&& final(self).remaining() == old(self).remaining()
                    &&& final(buf)@ == old(buf)@
                    &&& (f matches IoFault::Interrupted ==> final(self).interrupt_budget() < old(
                        self,
                    ).interrupt_budget())
                },
            },
    ;
}

/// A consumer of an ordered stream of bytes.
///
/// The sink collaborator of the chunk engine; the same trust applies as
/// for [`ByteSource`].  `written` is everything the sink has accepted so
/// far; a write appends a prefix of `buf[start..]` to it.  A faulted
/// write accepts nothing, and only finitely many `Interrupted` faults
/// occur in a row.  The ghost views carry inert defaults so that
/// implementors outside the library only write the exec method.
pub trait ByteSink {
    open spec fn written(&self) -> Seq<u8> {
        vstd::pervasive::arbitrary()
    }

    open spec fn interrupt_budget(&self) -> nat {
        vstd::pervasive::arbitrary()
    }

    /// Write some bytes taken from `buf[start..]`.
    fn write_from(&mut self, buf: &[u8], start: usize) -> (r: Result<usize, IoFault>)
        requires
            start <= buf@.len(),
        ensures
            match r {
                Ok(n) => {
                    &&& n + start <= buf@.len()
                    &&& final(self).written() == old(self).written() + buf@.subrange(
                        start as int,
                        (start + n) as int,
                    )
                },
                Err(f) => {
                    &&& final(self).written() == old(self).written()
                    &&& (f matches IoFault::Interrupted ==> final(self).interrupt_budget() < old(
                        self,
                    ).interrupt_budget())
                },
            },
    ;
}

/// A channel that can ask the operator for a secret line of text
/// (a terminal, in the running program).  Nothing is promised of the
/// answer: every contract downstream holds for whatever comes back.
pub trait SecretPrompt {
    /// Display `request` and return the line typed in answer, or the
    /// message of the failure.
    fn prompt_line(&self, request: &str) -> Result<String, String>;
}

/// Resolves secrets (password, salt, nonce) from an explicit argument or,
/// failing that, from an interactive prompt, in that fixed priority order.
pub struct Control<P: SecretPrompt> {
    func: P,
}

impl<P: SecretPrompt> Control<P> {
    pub fn new(func: P) -> Self {
        Self { func }
    }

    /// The named secret as text, in a scrub-on-drop wrapper: the explicit
    /// argument when one was given, else whatever the prompt answers.
    pub fn prompt(&self, name: &str, arg: Option<String>) -> (r: Result<GuardedText, Error>)
        ensures
            match arg {
                Some(v) => r matches Ok(s) && guarded_text(s) == v@,
                None => r matches Err(e) ==> e is Io,
            },
    {
        if let Some(val) = arg {
            Ok(guard_text(val))
        } else {
            let request = crate::text::request_msg(name);
            match self.func.prompt_line(request.as_str()) {
                Ok(val) => Ok(guard_text(val)),
                Err(msg) => Err(Error::make_io(msg)),
            }
        }
    }

    /// Fill `slice` with the leading bytes of the named secret, resolved by
    /// priority: an explicit argument, else (when `is_tty`) a prompt, else
    /// nothing (`Ok(None)`, `slice` untouched).  Text shorter than `slice`
    /// is rejected with the message that names the secret and the length.
    pub fn extract(&self, name: &str, slice: &mut Vec<u8>, arg: Option<String>, is_tty: bool) -> (r:
        Result<Option<()>, Error>)
        ensures
            final(slice)@.len() == old(slice)@.len(),
            r matches Err(e) ==> (e is Io || e is Arg),
            !(r matches Ok(o) && o is Some) ==> final(slice)@ == old(slice)@,
            match arg {
                Some(text) => {
                    let bytes = vstd::utf8::encode_utf8(text@);
                    if bytes.len() >= old(slice)@.len() {
                        r matches Ok(o) && o is Some && final(slice)@ == bytes.take(
                            old(slice)@.len() as int,
                        )
                    } else {
                        r matches Err(e) && (e matches Error::Arg(m)
                            && m@ == crate::text::spec_short_secret_msg(
                            name@,
                            old(slice)@.len() as nat,
                        ))
                    }
                },
                None => {
                    if is_tty {
                        (r matches Ok(o) ==> o is Some)
                    } else {
                        r matches Ok(o) && o is None && final(slice)@ == old(slice)@
                    }
                },
            },
    {
        let text_opt: Option<String> = if let Some(a) = arg {
            Some(a)
        } else if is_tty {
            let request = crate::text::request_msg(name);
            match self.func.prompt_line(request.as_str()) {
                Ok(password) => Some(password),
                Err(msg) => {
                    return Err(Error::make_io(msg));
                },
            }
        } else {
            None
        };
        if let Some(text) = text_opt {
            let size = slice.len();
            let bytes = text.as_str().as_bytes_vec();
            if bytes.len() < size {
                return Err(Error::make_arg(crate::text::short_secret_msg(name, size)));
            }
            let mut filled: Vec<u8> = Vec::new();
            let mut i: usize = 0;
            while i < size
                invariant
                    i <= size,
                    size <= bytes@.len(),
                    filled@ == bytes@.take(i as int),
                decreases size - i,
            {
                filled.push(bytes[i]);
                proof {
                    assert(filled@ =~= bytes@.take(i + 1));
                }
                i += 1;
            }
            *slice = filled;
            Ok(Some(()))
        } else {
            Ok(None)
        }
    }
}

/// The reading half of the engine's I/O: retries interrupted reads and
/// refills until the buffer is full or the source is exhausted.
pub struct Input<R: ByteSource> {
    reader: R,
}

impl<R: ByteSource> Input<R> {
    /// The bytes this input will still deliver.
    pub closed spec fn remaining(&self) -> Seq<u8> {
        self.reader.remaining()
    }

    pub closed spec fn interrupt_budget(&self) -> nat {
        self.reader.interrupt_budget()
    }

    pub fn new(reader: R) -> (r: Self)
        ensures
            r.remaining() == reader.remaining(),
    {
        Self { reader }
    }

    /// Fill `buf` from the source: blocks until the buffer is full or the
    /// stream ends, transparently retrying interrupted reads.  Returns how
    /// many bytes were placed at the front of `buf`; fewer than `buf.len()`
    /// only when the source ran out.
    pub fn read(&mut self, buf: &mut Vec<u8>) -> (r: Result<usize, Error>)
        ensures
            final(buf)@.len() == old(buf)@.len(),
            match r {
                Ok(n) => {
                    &&& n == vstd::math::min(old(buf)@.len() as int, old(self).remaining().len() as int)
                    &&& final(buf)@ == old(self).remaining().take(n as int) + old(buf)@.skip(n as int)
                    &&& final(self).remaining() == old(self).remaining().skip(n as int)
                },
                Err(e) => {
                    &&& e is Io
                    &&& exists|k: int|
                        0 <= k <= old(self).remaining().len() && final(self).remaining() == old(
                            self,
                        ).remaining().skip(k)
                },
            },
    {
        let ghost orig = *self;
        let mut nread: usize = 0;
        loop
            invariant
                orig == *old(self),
                nread <= buf@.len(),
                buf@.len() == old(buf)@.len(),
                nread <= orig.remaining().len(),
                buf@ == orig.remaining().take(nread as int) + old(buf)@.skip(nread as int),
                self.remaining() == orig.remaining().skip(nread as int),
            ensures
                nread <= buf@.len(),
                buf@.len() == old(buf)@.len(),
                nread <= orig.remaining().len(),
                buf@ == orig.remaining().take(nread as int) + old(buf)@.skip(nread as int),
                self.remaining() == orig.remaining().skip(nread as int),
                nread == buf@.len() || self.remaining().len() == 0,
            decreases buf@.len() - nread, self.interrupt_budget(),
        {
            if nread >= buf.len() {
                break;
            }
            match self.reader.read_at(buf, nread) {
                Ok(n) => {
                    if n == 0 {
                        break;
                    }
                    proof {
                        assert(buf@ == orig.remaining().take((nread + n) as int) + old(
                            buf,
                        )@.skip((nread + n) as int));
                    }
                    nread += n;
                },
                Err(IoFault::Interrupted) => {},
                Err(IoFault::Failed(msg)) => {
                    proof {
                        assert(self.remaining() == old(self).remaining().skip(nread as int));
                    }
                    return Err(Error::make_io(msg));
                },
            }
        }
        Ok(nread)
    }

    /// Fill `buf` completely, failing when the source ends first.
    pub fn read_exact(&mut self, buf: &mut Vec<u8>) -> (r: Result<(), Error>)
        ensures
            final(buf)@.len() == old(buf)@.len(),
            match r {
                Ok(()) => {
                    &&& old(self).remaining().len() >= old(buf)@.len()
                    &&& final(buf)@ == old(self).remaining().take(old(buf)@.len() as int)
                    &&& final(self).remaining() == old(self).remaining().skip(old(buf)@.len() as int)
                },
                Err(e) => e is Io,
            },
    {
        let n = self.read(buf)?;
        if n != buf.len() {
            return Err(Error::make_io("unexpected end of stream".to_owned()));
        }
        proof {
            assert(buf@ == old(self).remaining().take(n as int) + old(buf)@.skip(n as int));
            assert(buf@ =~= old(self).remaining().take(old(buf)@.len() as int));
        }
        Ok(())
    }

    /// Read one big-endian byte.
    pub fn read_u8(&mut self) -> (r: Result<u8, Error>)
        ensures
            match r {
                Ok(v) => {
                    &&& old(self).remaining().len() >= 1
                    &&& v == old(self).remaining()[0]
                    &&& final(self).remaining() == old(self).remaining().skip(1)
                },
                Err(e) => e is Io,
            },
    {
        let mut arr: Vec<u8> = Vec::new();
        arr.push(0u8);
        let num = self.read(&mut arr)?;
        if num != 1 {
            Err(Error::make_io("unable to read u8".to_owned()))
        } else {
            proof {
                assert(arr@[0] == old(self).remaining().take(1)[0]);
            }
            Ok(arr[0])
        }
    }

    /// Read one big-endian 32-bit integer.
    pub fn read_u32(&mut self) -> (r: Result<u32, Error>)
        ensures
            match r {
                Ok(v) => {
                    &&& old(self).remaining().len() >= 4
                    &&& v == crate::bytes::spec_u32_from_be_bytes(old(self).remaining().take(4))
                    &&& final(self).remaining() == old(self).remaining().skip(4)
                },
                Err(e) => e is Io,
            },
    {
        let mut arr: Vec<u8> = Vec::new();
        let mut i: usize = 0;
        while i < 4
            invariant
                arr@.len() == i,
                i <= 4,
            decreases 4 - i,
        {
            arr.push(0u8);
            i += 1;
        }
        let num = self.read(&mut arr)?;
        if num != 4 {
            Err(Error::make_io("unable to read u32".to_owned()))
        } else {
            proof {
                assert(arr@ =~= old(self).remaining().take(4));
            }
            Ok(crate::bytes::u32_from_be_bytes(arr.as_slice()))
        }
    }
}

/// The writing half of the engine's I/O: retries interrupted and short
/// writes until everything it was handed has reached the sink.
pub struct Output<W: ByteSink> {
    writer: W,
}

impl<W: ByteSink> Output<W> {
    /// Everything this output has delivered to its sink.
    pub closed spec fn written(&self) -> Seq<u8> {
        self.writer.written()
    }

    pub closed spec fn interrupt_budget(&self) -> nat {
        self.writer.interrupt_budget()
    }

    pub fn new(writer: W) -> (r: Self)
        ensures
            r.written() == writer.written(),
    {
        Self { writer }
    }

    /// Deliver all of `buf` to the sink, in order, retrying interrupted
    /// and short writes.  On failure some prefix of `buf` may have been
    /// delivered.
    pub fn write(&mut self, buf: &[u8]) -> (r: Result<(), Error>)
        ensures
            match r {
                Ok(()) => final(self).written() == old(self).written() + buf@,
                Err(e) => {
                    &&& e is Io
                    &&& exists|k: int|
                        0 <= k <= buf@.len() && final(self).written() == old(self).written()
                            + buf@.take(k)
                },
            },
    {
        let ghost orig = *self;
        let mut start: usize = 0;
        loop
            invariant
                orig == *old(self),
                start <= buf@.len(),
                self.written() == orig.written() + buf@.take(start as int),
            ensures
                start == buf@.len(),
                self.written() == orig.written() + buf@.take(start as int),
            decreases buf@.len() - start, self.interrupt_budget(),
        {
            if start >= buf.len() {
                break;
            }
            match self.writer.write_from(buf, start) {
                Ok(n) => {
                    if n == 0 {
                        proof {
                            assert(self.written() == old(self).written() + buf@.take(
                                start as int,
                            ));
                        }
                        return Err(Error::make_io("failed to write whole buffer".to_owned()));
                    }
                    proof {
                        assert(orig.written() + buf@.take((start + n) as int) =~= (orig.written()
                            + buf@.take(start as int)) + buf@.subrange(
                            start as int,
                            (start + n) as int,
                        ));
                    }
                    start += n;
                },
                Err(IoFault::Interrupted) => {},
                Err(IoFault::Failed(msg)) => {
                    proof {
                        assert(self.written() == old(self).written() + buf@.take(start as int));
                    }
                    return Err(Error::make_io(msg));
                },
            }
        }
        proof {
            assert(buf@.take(buf@.len() as int) =~= buf@);
        }
        Ok(())
    }

    /// Write one byte.
    pub fn write_u8(&mut self, val: u8) -> (r: Result<(), Error>)
        ensures
            match r {
                Ok(()) => final(self).written() == old(self).written() + seq![val],
                Err(e) => e is Io,
            },
    {
        let mut bytes: Vec<u8> = Vec::new();
        bytes.push(val);
        proof {
            assert(bytes@ =~= seq![val]);
        }
        self.write(bytes.as_slice())
    }

    /// Write one big-endian 32-bit integer.
    pub fn write_u32(&mut self, val: u32) -> (r: Result<(), Error>)
        ensures
            match r {
                Ok(()) => final(self).written() == old(self).written()
                    + crate::bytes::spec_u32_to_be_bytes(val),
                Err(e) => e is Io,
            },
    {
        let bytes = crate::bytes::u32_to_be_bytes(val);
        self.write(bytes.as_slice())
    }
}

} // verus!
