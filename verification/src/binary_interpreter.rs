//! An owned byte buffer with a read cursor.

use vstd::prelude::*;
use crate::error::{InterpreterError, IoErrorKind};
use crate::binary_reader::{ByteSource, SeekableSource, window};

verus! {

/// A byte buffer together with the offset of the next byte to read.
///
/// The cursor may stand anywhere, also past the end of the buffer; a read
/// there finds nothing left.
pub struct BinaryInterpreter {
    data: Vec<u8>,
    pos: u64,
}

impl BinaryInterpreter {
    /// Copies `bytes` into a fresh source whose cursor stands at the start.
    pub fn new(bytes: &[u8]) -> (r: Result<BinaryInterpreter, InterpreterError>)
        ensures
            r is Ok,
            r->Ok_0.bytes() == bytes@,
            r->Ok_0.cursor() == 0,
    {
        let mut data: Vec<u8> = Vec::with_capacity(bytes.len());
        let mut i: usize = 0;
        while i < bytes.len()
            invariant
                i <= bytes.len(),
                data@ == bytes@.subrange(0, i as int),
            decreases bytes.len() - i,
        {
            data.push(bytes[i]);
            i += 1;
            assert(data@ =~= bytes@.subrange(0, i as int));
        }
        assert(data@ =~= bytes@);
        Ok(BinaryInterpreter { data, pos: 0 })
    }
}

impl ByteSource for BinaryInterpreter {
    closed spec fn bytes(&self) -> Seq<u8> {
        self.data@
    }

    closed spec fn cursor(&self) -> nat {
        self.pos as nat
    }

    proof fn lemma_len_fits(&self) {
        assert(self.data@.len() == self.data.len());
    }

    fn take(&mut self, size: usize) -> (r: Result<Vec<u8>, InterpreterError>) {
        let len: usize = self.data.len();
        let mut out: Vec<u8> = Vec::new();
        if size == 0 {
            assert(out@ =~= window(self.bytes(), self.cursor() as int, 0)->Some_0);
            return Ok(out);
        }
        if self.pos > len as u64 || size > len - self.pos as usize {
            return Err(InterpreterError::IoError(IoErrorKind::UnexpectedEof));
        }
        let start: usize = self.pos as usize;
        let mut i: usize = 0;
        while i < size
            invariant
                i <= size,
                start + size <= len,
                len == self.data@.len(),
                out@ == self.data@.subrange(start as int, start + i),
            decreases size - i,
        {
            out.push(self.data[start + i]);
            i += 1;
            assert(out@ =~= self.data@.subrange(start as int, start + i));
        }
        self.pos = self.pos + size as u64;
        Ok(out)
    }
}

impl SeekableSource for BinaryInterpreter {
    fn stream_position(&self) -> (p: u64) {
        self.pos
    }

    fn seek_start(&mut self, position: u64) {
        self.pos = position;
    }
}

} // verus!
