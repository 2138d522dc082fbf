//! Sequential typed reads, and peeks that leave the cursor where it was.

use vstd::prelude::*;
use crate::Endian;
use crate::byte_order::{
    decode_u128, decode_u16, decode_u32, decode_u64, interprets, interprets_signed, signed_128,
    signed_16, signed_32, signed_64, signed_8, twos_complement,
};
use crate::error::{seek_failure, shortfall, InterpreterError, IoErrorKind};
use crate::text::{
    code_units, decode_narrow, decode_wide, same_text, units_of, utf16_outcome, utf8_outcome,
};

verus! {

/// The bytes that a source still has to give when its cursor stands at `at`.
/// A cursor at or past the end leaves nothing.
pub open spec fn remaining(bytes: Seq<u8>, at: int) -> Seq<u8> {
    if 0 <= at < bytes.len() {
        bytes.subrange(at, bytes.len() as int)
    } else {
        Seq::empty()
    }
}

/// The `n` bytes that start at offset `at`, where the source holds that many.
pub open spec fn window(bytes: Seq<u8>, at: int, n: int) -> Option<Seq<u8>> {
    if 0 <= n <= remaining(bytes, at).len() {
        Some(remaining(bytes, at).take(n))
    } else {
        None
    }
}

/// Where the cursor stands after a read of `n` bytes was asked for at `at`:
/// past them when they were there, and at `at` when they were not.
pub open spec fn advanced(bytes: Seq<u8>, at: nat, n: int) -> nat {
    if window(bytes, at as int, n) is Some {
        (at + n) as nat
    } else {
        at
    }
}

/// Whether a read of `n` bytes at `at` fails, and `e` is the error it fails
/// with.
pub open spec fn short_at(bytes: Seq<u8>, at: int, n: int, e: InterpreterError) -> bool {
    window(bytes, at, n) is None && e == shortfall()
}

/// Whether the source holds a byte at `at` and `v` is that byte.
pub open spec fn byte_at(bytes: Seq<u8>, at: int, v: u8) -> bool {
    match window(bytes, at, 1) {
        Some(b) => b[0] == v,
        None => false,
    }
}

/// Whether the source holds a byte at `at` and `v` is that byte read as a
/// two's-complement number.
pub open spec fn signed_byte_at(bytes: Seq<u8>, at: int, v: i8) -> bool {
    match window(bytes, at, 1) {
        Some(b) => v as int == twos_complement(b[0] as nat, 1),
        None => false,
    }
}

/// Whether the source holds `width` bytes at `at` and `v` is the unsigned
/// number they spell under `order`.
pub open spec fn unsigned_at(bytes: Seq<u8>, at: int, width: int, order: Endian, v: nat) -> bool {
    match window(bytes, at, width) {
        Some(b) => interprets(order, b, v),
        None => false,
    }
}

/// Whether the source holds `width` bytes at `at` and `v` is the
/// two's-complement number they spell under `order`.
pub open spec fn signed_at(bytes: Seq<u8>, at: int, width: int, order: Endian, v: int) -> bool {
    match window(bytes, at, width) {
        Some(b) => interprets_signed(order, b, v),
        None => false,
    }
}

/// How many code units stand before the first zero unit of `s`, or before
/// its end where it holds no zero.
pub open spec fn narrow_run(s: Seq<u8>) -> nat
    decreases s.len(),
{
    if s.len() == 0 || s[0] == 0 {
        0
    } else {
        1 + narrow_run(s.drop_first())
    }
}

/// How many code units stand before the first zero unit of `s`, or before
/// its end where it holds no zero.
pub open spec fn wide_run(s: Seq<u16>) -> nat
    decreases s.len(),
{
    if s.len() == 0 || s[0] == 0 {
        0
    } else {
        1 + wide_run(s.drop_first())
    }
}

/// The bytes of the zero-terminated string that starts at `at`, without the
/// terminator; `None` where no zero byte follows.
pub open spec fn cstr_run(bytes: Seq<u8>, at: int) -> Option<Seq<u8>> {
    let rest = remaining(bytes, at);
    let n = narrow_run(rest);
    if n < rest.len() {
        Some(rest.take(n as int))
    } else {
        None
    }
}

/// How many bytes a zero-terminated read at `at` consumes: the string and its
/// terminator, or all that is left where there is no terminator.
pub open spec fn cstr_advance(bytes: Seq<u8>, at: int) -> nat {
    let rest = remaining(bytes, at);
    let n = narrow_run(rest);
    if n < rest.len() {
        n + 1
    } else {
        n
    }
}

/// The text of the zero-terminated string at `at`, or the reason there is
/// none.
pub open spec fn cstr_outcome(bytes: Seq<u8>, at: int) -> Result<Seq<char>, InterpreterError> {
    match cstr_run(bytes, at) {
        Some(run) => utf8_outcome(run),
        None => Err(shortfall()),
    }
}

/// The code units of the zero-terminated wide string that starts at `at`,
/// without the terminator; `None` where no zero unit follows. Units are two
/// bytes each, least significant first; an odd byte at the end belongs to no
/// unit.
pub open spec fn wcstr_run(bytes: Seq<u8>, at: int) -> Option<Seq<u16>> {
    let units = code_units(remaining(bytes, at));
    let n = wide_run(units);
    if n < units.len() {
        Some(units.take(n as int))
    } else {
        None
    }
}

/// How many bytes a zero-terminated wide read at `at` consumes: the string
/// and its terminator, or every whole unit that is left where there is no
/// terminator.
pub open spec fn wcstr_advance(bytes: Seq<u8>, at: int) -> nat {
    let units = code_units(remaining(bytes, at));
    let n = wide_run(units);
    if n < units.len() {
        2 * (n + 1)
    } else {
        2 * n
    }
}

/// The text of the zero-terminated wide string at `at`, or the reason there
/// is none.
pub open spec fn wcstr_outcome(bytes: Seq<u8>, at: int) -> Result<Seq<char>, InterpreterError> {
    match wcstr_run(bytes, at) {
        Some(run) => utf16_outcome(run),
        None => Err(shortfall()),
    }
}

/// The text of the `size` single-byte units at `at`, zero bytes included, or
/// the reason there is none.
pub open spec fn fixed_cstr_outcome(bytes: Seq<u8>, at: int, size: int) -> Result<
    Seq<char>,
    InterpreterError,
> {
    match window(bytes, at, size) {
        Some(run) => utf8_outcome(run),
        None => Err(shortfall()),
    }
}

/// The text of the `size` two-byte units at `at`, zero units included, or the
/// reason there is none.
pub open spec fn fixed_wcstr_outcome(bytes: Seq<u8>, at: int, size: int) -> Result<
    Seq<char>,
    InterpreterError,
> {
    match window(bytes, at, 2 * size) {
        Some(run) => utf16_outcome(code_units(run)),
        None => Err(shortfall()),
    }
}

/// The offset that lies `offset` bytes from `cursor`, where `offset` is taken
/// as a signed 64-bit distance: a value above `i64::MAX` points backwards.
/// `None` where that offset lies before the start or beyond `u64::MAX`.
pub open spec fn ahead_target(cursor: nat, offset: usize) -> Option<int> {
    let delta: int = if offset <= i64::MAX {
        offset as int
    } else {
        offset - 0x1_0000_0000_0000_0000
    };
    if 0 <= cursor + delta <= u64::MAX {
        Some(cursor + delta)
    } else {
        None
    }
}

/// Reading `n` bytes `k` bytes further on is reading from the rest of the
/// source, `k` bytes in.
pub proof fn lemma_window_shift(bytes: Seq<u8>, at: int, k: int, n: int)
    requires
        0 <= at,
        0 <= k <= remaining(bytes, at).len(),
        0 <= n,
    ensures
        window(bytes, at + k, n) == if k + n <= remaining(bytes, at).len() {
            Some(remaining(bytes, at).subrange(k, k + n))
        } else {
            None::<Seq<u8>>
        },
{
    let rest = remaining(bytes, at);
    let later = remaining(bytes, at + k);
    if k + n <= rest.len() {
        assert(later.take(n) =~= rest.subrange(k, k + n));
    }
}

/// A run holds no zero unit, and where it stops short of the end it stops at
/// a zero unit.
pub proof fn lemma_narrow_run(s: Seq<u8>)
    ensures
        narrow_run(s) <= s.len(),
        forall|j: int| 0 <= j < narrow_run(s) ==> s[j] != 0,
        narrow_run(s) < s.len() ==> s[narrow_run(s) as int] == 0,
    decreases s.len(),
{
    if s.len() > 0 && s[0] != 0 {
        let rest = s.drop_first();
        lemma_narrow_run(rest);
        assert forall|j: int| 0 <= j < narrow_run(s) implies s[j] != 0 by {
            if j > 0 {
                assert(s[j] == rest[j - 1]);
            }
        }
        if narrow_run(s) < s.len() {
            assert(s[narrow_run(s) as int] == rest[narrow_run(rest) as int]);
        }
    }
}

/// A run holds no zero unit, and where it stops short of the end it stops at
/// a zero unit.
pub proof fn lemma_wide_run(s: Seq<u16>)
    ensures
        wide_run(s) <= s.len(),
        forall|j: int| 0 <= j < wide_run(s) ==> s[j] != 0,
        wide_run(s) < s.len() ==> s[wide_run(s) as int] == 0,
    decreases s.len(),
{
    if s.len() > 0 && s[0] != 0 {
        let rest = s.drop_first();
        lemma_wide_run(rest);
        assert forall|j: int| 0 <= j < wide_run(s) implies s[j] != 0 by {
            if j > 0 {
                assert(s[j] == rest[j - 1]);
            }
        }
        if wide_run(s) < s.len() {
            assert(s[wide_run(s) as int] == rest[wide_run(rest) as int]);
        }
    }
}

/// At the end of a source and past it nothing is left: every read or peek
/// there that needs at least one byte falls short, and a read leaves the
/// cursor where it stands.
pub proof fn lemma_nothing_past_the_end(bytes: Seq<u8>, at: nat, n: int)
    requires
        at >= bytes.len(),
        n >= 1,
    ensures
        window(bytes, at as int, n) is None,
        short_at(bytes, at as int, n, shortfall()),
        advanced(bytes, at, n) == at,
        forall|v: u8| !byte_at(bytes, at as int, v),
        forall|v: i8| !signed_byte_at(bytes, at as int, v),
        forall|order: Endian, v: nat| !unsigned_at(bytes, at as int, n, order, v),
        forall|order: Endian, v: int| !signed_at(bytes, at as int, n, order, v),
        cstr_outcome(bytes, at as int) == Err::<Seq<char>, InterpreterError>(shortfall()),
        cstr_advance(bytes, at as int) == 0,
        wcstr_outcome(bytes, at as int) == Err::<Seq<char>, InterpreterError>(shortfall()),
        wcstr_advance(bytes, at as int) == 0,
        fixed_cstr_outcome(bytes, at as int, n) == Err::<Seq<char>, InterpreterError>(shortfall()),
        fixed_wcstr_outcome(bytes, at as int, n) == Err::<Seq<char>, InterpreterError>(
            shortfall(),
        ),
{
    assert(remaining(bytes, at as int).len() == 0);
    assert(code_units(remaining(bytes, at as int)).len() == 0);
}

/// Where the source holds `n` bytes from offset `k` on, a read of `n` bytes at
/// `k` finds exactly those bytes and leaves the cursor at `k + n`.
pub proof fn lemma_read_advances(bytes: Seq<u8>, k: nat, n: nat)
    requires
        k + n <= bytes.len(),
    ensures
        window(bytes, k as int, n as int) == Some(bytes.subrange(k as int, (k + n) as int)),
        advanced(bytes, k, n as int) == k + n,
{
    assert(remaining(bytes, k as int).take(n as int) =~= bytes.subrange(
        k as int,
        (k + n) as int,
    ));
}

/// A finite run of bytes with a read cursor: the capability every read rests
/// on.
pub trait ByteSource {
    /// Everything the source holds, from its first byte.
    spec fn bytes(&self) -> Seq<u8>;

    /// The offset of the next byte that a read consumes.
    spec fn cursor(&self) -> nat;

    /// A source holds no more bytes than can be counted.
    proof fn lemma_len_fits(&self)
        ensures
            self.bytes().len() <= usize::MAX,
    ;

    /// Consumes exactly `size` bytes, or none at all when fewer remain.
    fn take(&mut self, size: usize) -> (r: Result<Vec<u8>, InterpreterError>)
        ensures
            final(self).bytes() == old(self).bytes(),
            final(self).cursor() == advanced(old(self).bytes(), old(self).cursor(), size as int),
            match r {
                Ok(raw) => window(old(self).bytes(), old(self).cursor() as int, size as int)
                    == Some(raw@),
                Err(e) => short_at(old(self).bytes(), old(self).cursor() as int, size as int, e),
            },
    ;
}

/// A byte source whose cursor can be read and set.
pub trait SeekableSource: ByteSource {
    /// The current cursor.
    fn stream_position(&self) -> (p: u64)
        ensures
            p == self.cursor(),
    ;

    /// Moves the cursor to an absolute offset. Any offset is accepted, also
    /// one past the end.
    fn seek_start(&mut self, position: u64)
        ensures
            final(self).bytes() == old(self).bytes(),
            final(self).cursor() == position,
    ;
}

/// The absolute offset of a relative seek, where there is one.
pub fn seek_ahead(start: u64, offset: usize) -> (r: Option<u64>)
    ensures
        match r {
            Some(t) => ahead_target(start as nat, offset) == Some(t as int),
            None => ahead_target(start as nat, offset) is None,
        },
{
    let off: u64 = offset as u64;
    if off <= 0x7FFF_FFFF_FFFF_FFFF {
        if off <= u64::MAX - start {
            Some(start + off)
        } else {
            None
        }
    } else {
        let back: u64 = (u64::MAX - off) + 1;
        if back <= start {
            Some(start - back)
        } else {
            None
        }
    }
}

/// Typed reads that advance the cursor by exactly what they consume.
pub trait BinaryReader: ByteSource {
    /// Reads exactly `size` raw bytes into a fresh buffer. Where fewer remain
    /// the read reports a shortfall and consumes nothing.
    fn read_bytes(&mut self, size: usize) -> (r: Result<Vec<u8>, InterpreterError>)
        ensures
            final(self).bytes() == old(self).bytes(),
            final(self).cursor() == advanced(old(self).bytes(), old(self).cursor(), size as int),
            match r {
                Ok(raw) => window(old(self).bytes(), old(self).cursor() as int, size as int)
                    == Some(raw@),
                Err(e) => short_at(old(self).bytes(), old(self).cursor() as int, size as int, e),
            },
    {
        self.take(size)
    }

    /// Consumes single-byte units up to and including the first zero byte and
    /// returns those before it. Where the source ends first, everything left
    /// is consumed and the read reports a shortfall.
    fn scan_cstr(&mut self) -> (r: Result<Vec<u8>, InterpreterError>)
        ensures
            final(self).bytes() == old(self).bytes(),
            final(self).cursor() == old(self).cursor() + cstr_advance(
                old(self).bytes(),
                old(self).cursor() as int,
            ),
            match r {
                Ok(run) => cstr_run(old(self).bytes(), old(self).cursor() as int) == Some(run@)
                    && forall|j: int| 0 <= j < run@.len() ==> run@[j] != 0,
                Err(e) => cstr_run(old(self).bytes(), old(self).cursor() as int) is None && e
                    == shortfall(),
            },
    {
        let ghost bytes = self.bytes();
        let ghost start = self.cursor() as int;
        let ghost rest = remaining(bytes, start);
        let mut run: Vec<u8> = Vec::new();
        assert(rest.skip(0) =~= rest);
        loop
            invariant
                bytes == old(self).bytes(),
                start == old(self).cursor(),
                rest == remaining(bytes, start),
                self.bytes() == bytes,
                self.cursor() == start + run@.len(),
                run@.len() <= rest.len(),
                run@ == rest.take(run@.len() as int),
                forall|j: int| 0 <= j < run@.len() ==> run@[j] != 0,
                narrow_run(rest) == run@.len() + narrow_run(rest.skip(run@.len() as int)),
            decreases rest.len() - run@.len(),
        {
            let ghost i = run@.len() as int;
            proof {
                lemma_window_shift(bytes, start, i, 1);
            }
            match self.take(1) {
                Ok(unit) => {
                    let chr: u8 = unit[0];
                    assert(rest.skip(i)[0] == chr);
                    if chr == 0 {
                        return Ok(run);
                    }
                    run.push(chr);
                    assert(rest.skip(i).drop_first() =~= rest.skip(i + 1));
                    assert(run@ =~= rest.take(i + 1));
                },
                Err(e) => {
                    assert(rest.skip(i).len() == 0);
                    assert(rest.take(i) =~= rest);
                    return Err(e);
                },
            }
        }
    }

    /// Reads a zero-terminated string of single-byte units and decodes it as
    /// UTF-8. The terminator is consumed and left out of the text. The read
    /// fails where the source ends before a zero byte, and where the bytes
    /// before the zero are not valid UTF-8.
    fn read_cstr(&mut self) -> (r: Result<String, InterpreterError>)
        ensures
            final(self).bytes() == old(self).bytes(),
            final(self).cursor() == old(self).cursor() + cstr_advance(
                old(self).bytes(),
                old(self).cursor() as int,
            ),
            same_text(r, cstr_outcome(old(self).bytes(), old(self).cursor() as int)),
    {
        match self.scan_cstr() {
            Ok(run) => decode_narrow(run),
            Err(e) => Err(e),
        }
    }

    /// Consumes two-byte units, least significant byte first, up to and
    /// including the first zero unit and returns those before it. Where the
    /// source ends first, every whole unit left is consumed and the read
    /// reports a shortfall.
    fn scan_wcstr(&mut self) -> (r: Result<Vec<u16>, InterpreterError>)
        ensures
            final(self).bytes() == old(self).bytes(),
            final(self).cursor() == old(self).cursor() + wcstr_advance(
                old(self).bytes(),
                old(self).cursor() as int,
            ),
            match r {
                Ok(run) => wcstr_run(old(self).bytes(), old(self).cursor() as int) == Some(run@)
                    && forall|j: int| 0 <= j < run@.len() ==> run@[j] != 0,
                Err(e) => wcstr_run(old(self).bytes(), old(self).cursor() as int) is None && e
                    == shortfall(),
            },
    {
        let ghost bytes = self.bytes();
        let ghost start = self.cursor() as int;
        let ghost rest = remaining(bytes, start);
        let ghost units = code_units(rest);
        let mut run: Vec<u16> = Vec::new();
        assert(units.skip(0) =~= units);
        loop
            invariant
                bytes == old(self).bytes(),
                start == old(self).cursor(),
                rest == remaining(bytes, start),
                self.bytes() == bytes,
                self.cursor() == start + 2 * run@.len(),
                units == code_units(rest),
                run@.len() <= units.len(),
                run@ == units.take(run@.len() as int),
                forall|j: int| 0 <= j < run@.len() ==> run@[j] != 0,
                wide_run(units) == run@.len() + wide_run(units.skip(run@.len() as int)),
            decreases units.len() - run@.len(),
        {
            let ghost i = run@.len() as int;
            proof {
                lemma_window_shift(bytes, start, 2 * i, 2);
            }
            match self.take(2) {
                Ok(raw) => {
                    let chr: u16 = decode_u16(Endian::LittleEndian, raw.as_slice());
                    assert(units.skip(i)[0] == chr);
                    if chr == 0 {
                        return Ok(run);
                    }
                    run.push(chr);
                    assert(units.skip(i).drop_first() =~= units.skip(i + 1));
                    assert(run@ =~= units.take(i + 1));
                },
                Err(e) => {
                    assert(units.skip(i).len() == 0);
                    assert(units.take(i) =~= units);
                    return Err(e);
                },
            }
        }
    }

    /// Reads a zero-terminated string of two-byte units and decodes it as
    /// UTF-16. The terminator is consumed and left out of the text. The read
    /// fails where the source ends before a zero unit, and where the units
    /// before it are not valid UTF-16.
    fn read_wcstr(&mut self) -> (r: Result<String, InterpreterError>)
        ensures
            final(self).bytes() == old(self).bytes(),
            final(self).cursor() == old(self).cursor() + wcstr_advance(
                old(self).bytes(),
                old(self).cursor() as int,
            ),
            same_text(r, wcstr_outcome(old(self).bytes(), old(self).cursor() as int)),
    {
        match self.scan_wcstr() {
            Ok(run) => decode_wide(run.as_slice()),
            Err(e) => Err(e),
        }
    }

    /// Reads exactly `size` single-byte units and decodes all of them as
    /// UTF-8; a zero byte among them is a character like any other. Where
    /// fewer bytes remain the read reports a shortfall and consumes nothing.
    fn read_fixed_cstr(&mut self, size: usize) -> (r: Result<String, InterpreterError>)
        ensures
            final(self).bytes() == old(self).bytes(),
            final(self).cursor() == advanced(old(self).bytes(), old(self).cursor(), size as int),
            same_text(
                r,
                fixed_cstr_outcome(old(self).bytes(), old(self).cursor() as int, size as int),
            ),
    {
        match self.take(size) {
            Ok(run) => decode_narrow(run),
            Err(e) => Err(e),
        }
    }

    /// Reads exactly `size` two-byte units, least significant byte first, and
    /// decodes all of them as UTF-16; a zero unit among them is a character
    /// like any other. Where fewer units remain the read reports a shortfall
    /// and consumes nothing.
    fn read_fixed_wcstr(&mut self, size: usize) -> (r: Result<String, InterpreterError>)
        ensures
            final(self).bytes() == old(self).bytes(),
            final(self).cursor() == advanced(
                old(self).bytes(),
                old(self).cursor(),
                2 * (size as int),
            ),
            same_text(
                r,
                fixed_wcstr_outcome(old(self).bytes(), old(self).cursor() as int, size as int),
            ),
    {
        if size > usize::MAX / 2 {
            proof {
                self.lemma_len_fits();
            }
            return Err(InterpreterError::IoError(IoErrorKind::UnexpectedEof));
        }
        match self.take(2 * size) {
            Ok(raw) => {
                let units = units_of(raw.as_slice());
                decode_wide(units.as_slice())
            },
            Err(e) => Err(e),
        }
    }

    /// Reads one byte as an unsigned number and steps over it. At the end
    /// of the source the read reports a shortfall and the cursor stays.
    fn read_u8(&mut self) -> (r: Result<u8, InterpreterError>)
        ensures
            final(self).bytes() == old(self).bytes(),
            final(self).cursor() == advanced(old(self).bytes(), old(self).cursor(), 1),
            match r {
                Ok(v) => byte_at(old(self).bytes(), old(self).cursor() as int, v),
                Err(e) => short_at(old(self).bytes(), old(self).cursor() as int, 1, e),
            },
    {
        match self.take(1) {
            Ok(raw) => Ok(raw[0]),
            Err(e) => Err(e),
        }
    }

    /// Reads one byte as a two's-complement number and steps over it. At the end
    /// of the source the read reports a shortfall and the cursor stays.
    fn read_i8(&mut self) -> (r: Result<i8, InterpreterError>)
        ensures
            final(self).bytes() == old(self).bytes(),
            final(self).cursor() == advanced(old(self).bytes(), old(self).cursor(), 1),
            match r {
                Ok(v) => signed_byte_at(old(self).bytes(), old(self).cursor() as int, v),
                Err(e) => short_at(old(self).bytes(), old(self).cursor() as int, 1, e),
            },
    {
        match self.take(1) {
            Ok(raw) => Ok(signed_8(raw[0])),
            Err(e) => Err(e),
        }
    }

    /// Reads two bytes as an unsigned number in the given byte order and
    /// steps over them. Where fewer remain the read reports a shortfall and
    /// the cursor stays.
    fn read_u16(&mut self, order: Endian) -> (r: Result<u16, InterpreterError>)
        ensures
            final(self).bytes() == old(self).bytes(),
            final(self).cursor() == advanced(old(self).bytes(), old(self).cursor(), 2),
            match r {
                Ok(v) => unsigned_at(
                    old(self).bytes(),
                    old(self).cursor() as int,
                    2,
                    order,
                    v as nat,
                ),
                Err(e) => short_at(old(self).bytes(), old(self).cursor() as int, 2, e),
            },
    {
        match self.take(2) {
            Ok(raw) => Ok(decode_u16(order, raw.as_slice())),
            Err(e) => Err(e),
        }
    }

    /// Reads two bytes as a two's-complement number in the given byte order and
    /// steps over them. Where fewer remain the read reports a shortfall and
    /// the cursor stays.
    fn read_i16(&mut self, order: Endian) -> (r: Result<i16, InterpreterError>)
        ensures
            final(self).bytes() == old(self).bytes(),
            final(self).cursor() == advanced(old(self).bytes(), old(self).cursor(), 2),
            match r {
                Ok(v) => signed_at(
                    old(self).bytes(),
                    old(self).cursor() as int,
                    2,
                    order,
                    v as int,
                ),
                Err(e) => short_at(old(self).bytes(), old(self).cursor() as int, 2, e),
            },
    {
        match self.take(2) {
            Ok(raw) => Ok(signed_16(decode_u16(order, raw.as_slice()))),
            Err(e) => Err(e),
        }
    }

    /// Reads four bytes as an unsigned number in the given byte order and
    /// steps over them. Where fewer remain the read reports a shortfall and
    /// the cursor stays.
    fn read_u32(&mut self, order: Endian) -> (r: Result<u32, InterpreterError>)
        ensures
            final(self).bytes() == old(self).bytes(),
            final(self).cursor() == advanced(old(self).bytes(), old(self).cursor(), 4),
            match r {
                Ok(v) => unsigned_at(
                    old(self).bytes(),
                    old(self).cursor() as int,
                    4,
                    order,
                    v as nat,
                ),
                Err(e) => short_at(old(self).bytes(), old(self).cursor() as int, 4, e),
            },
    {
        match self.take(4) {
            Ok(raw) => Ok(decode_u32(order, raw.as_slice())),
            Err(e) => Err(e),
        }
    }

    /// Reads four bytes as a two's-complement number in the given byte order and
    /// steps over them. Where fewer remain the read reports a shortfall and
    /// the cursor stays.
    fn read_i32(&mut self, order: Endian) -> (r: Result<i32, InterpreterError>)
        ensures
            final(self).bytes() == old(self).bytes(),
            final(self).cursor() == advanced(old(self).bytes(), old(self).cursor(), 4),
            match r {
                Ok(v) => signed_at(
                    old(self).bytes(),
                    old(self).cursor() as int,
                    4,
                    order,
                    v as int,
                ),
                Err(e) => short_at(old(self).bytes(), old(self).cursor() as int, 4, e),
            },
    {
        match self.take(4) {
            Ok(raw) => Ok(signed_32(decode_u32(order, raw.as_slice()))),
            Err(e) => Err(e),
        }
    }

    /// Reads eight bytes as an unsigned number in the given byte order and
    /// steps over them. Where fewer remain the read reports a shortfall and
    /// the cursor stays.
    fn read_u64(&mut self, order: Endian) -> (r: Result<u64, InterpreterError>)
        ensures
            final(self).bytes() == old(self).bytes(),
            final(self).cursor() == advanced(old(self).bytes(), old(self).cursor(), 8),
            match r {
                Ok(v) => unsigned_at(
                    old(self).bytes(),
                    old(self).cursor() as int,
                    8,
                    order,
                    v as nat,
                ),
                Err(e) => short_at(old(self).bytes(), old(self).cursor() as int, 8, e),
            },
    {
        match self.take(8) {
            Ok(raw) => Ok(decode_u64(order, raw.as_slice())),
            Err(e) => Err(e),
        }
    }

    /// Reads eight bytes as a two's-complement number in the given byte order and
    /// steps over them. Where fewer remain the read reports a shortfall and
    /// the cursor stays.
    fn read_i64(&mut self, order: Endian) -> (r: Result<i64, InterpreterError>)
        ensures
            final(self).bytes() == old(self).bytes(),
            final(self).cursor() == advanced(old(self).bytes(), old(self).cursor(), 8),
            match r {
                Ok(v) => signed_at(
                    old(self).bytes(),
                    old(self).cursor() as int,
                    8,
                    order,
                    v as int,
                ),
                Err(e) => short_at(old(self).bytes(), old(self).cursor() as int, 8, e),
            },
    {
        match self.take(8) {
            Ok(raw) => Ok(signed_64(decode_u64(order, raw.as_slice()))),
            Err(e) => Err(e),
        }
    }

    /// Reads sixteen bytes as an unsigned number in the given byte order and
    /// steps over them. Where fewer remain the read reports a shortfall and
    /// the cursor stays.
    fn read_u128(&mut self, order: Endian) -> (r: Result<u128, InterpreterError>)
        ensures
            final(self).bytes() == old(self).bytes(),
            final(self).cursor() == advanced(old(self).bytes(), old(self).cursor(), 16),
            match r {
                Ok(v) => unsigned_at(
                    old(self).bytes(),
                    old(self).cursor() as int,
                    16,
                    order,
                    v as nat,
                ),
                Err(e) => short_at(old(self).bytes(), old(self).cursor() as int, 16, e),
            },
    {
        match self.take(16) {
            Ok(raw) => Ok(decode_u128(order, raw.as_slice())),
            Err(e) => Err(e),
        }
    }

    /// Reads sixteen bytes as a two's-complement number in the given byte order and
    /// steps over them. Where fewer remain the read reports a shortfall and
    /// the cursor stays.
    fn read_i128(&mut self, order: Endian) -> (r: Result<i128, InterpreterError>)
        ensures
            final(self).bytes() == old(self).bytes(),
            final(self).cursor() == advanced(old(self).bytes(), old(self).cursor(), 16),
            match r {
                Ok(v) => signed_at(
                    old(self).bytes(),
                    old(self).cursor() as int,
                    16,
                    order,
                    v as int,
                ),
                Err(e) => short_at(old(self).bytes(), old(self).cursor() as int, 16, e),
            },
    {
        match self.take(16) {
            Ok(raw) => Ok(signed_128(decode_u128(order, raw.as_slice()))),
            Err(e) => Err(e),
        }
    }
}

impl<R: ByteSource> BinaryReader for R {

}

/// Every read in a form that consumes nothing: the cursor is moved, the read
/// is made, and the cursor is put back, also where the read failed.
pub trait BinaryPeeker: BinaryReader + SeekableSource {
    /// Reads `size` raw bytes at the absolute offset `position` and puts the
    /// cursor back where it was, whether or not the read succeeded.
    fn peek_bytes(&mut self, position: u64, size: usize) -> (r: Result<Vec<u8>, InterpreterError>)
        ensures
            final(self).bytes() == old(self).bytes(),
            final(self).cursor() == old(self).cursor(),
            match r {
                Ok(raw) => window(old(self).bytes(), position as int, size as int) == Some(raw@),
                Err(e) => short_at(old(self).bytes(), position as int, size as int, e),
            },
    {
        let start = self.stream_position();
        self.seek_start(position);
        let bytes = self.read_bytes(size);
        self.seek_start(start);
        bytes
    }

    /// Reads the zero-terminated string at the absolute offset `position`
    /// and puts the cursor back where it was, whether or not the read
    /// succeeded.
    fn peek_cstr(&mut self, position: u64) -> (r: Result<String, InterpreterError>)
        ensures
            final(self).bytes() == old(self).bytes(),
            final(self).cursor() == old(self).cursor(),
            same_text(r, cstr_outcome(old(self).bytes(), position as int)),
    {
        let start = self.stream_position();
        self.seek_start(position);
        let cstr = self.read_cstr();
        self.seek_start(start);
        cstr
    }

    /// Reads the zero-terminated wide string at the absolute offset
    /// `position` and puts the cursor back where it was, whether or not the
    /// read succeeded.
    fn peek_wcstr(&mut self, position: u64) -> (r: Result<String, InterpreterError>)
        ensures
            final(self).bytes() == old(self).bytes(),
            final(self).cursor() == old(self).cursor(),
            same_text(r, wcstr_outcome(old(self).bytes(), position as int)),
    {
        let start = self.stream_position();
        self.seek_start(position);
        let wcstr = self.read_wcstr();
        self.seek_start(start);
        wcstr
    }

    /// Reads the string of `size` single-byte units at the absolute offset
    /// `position` and puts the cursor back where it was, whether or not the
    /// read succeeded.
    fn peek_fixed_cstr(&mut self, position: u64, size: usize) -> (r: Result<
        String,
        InterpreterError,
    >)
        ensures
            final(self).bytes() == old(self).bytes(),
            final(self).cursor() == old(self).cursor(),
            same_text(r, fixed_cstr_outcome(old(self).bytes(), position as int, size as int)),
    {
        let start = self.stream_position();
        self.seek_start(position);
        let cstr = self.read_fixed_cstr(size);
        self.seek_start(start);
        cstr
    }

    /// Reads the string of `size` two-byte units at the absolute offset
    /// `position` and puts the cursor back where it was, whether or not the
    /// read succeeded.
    fn peek_fixed_wcstr(&mut self, position: u64, size: usize) -> (r: Result<
        String,
        InterpreterError,
    >)
        ensures
            final(self).bytes() == old(self).bytes(),
            final(self).cursor() == old(self).cursor(),
            same_text(r, fixed_wcstr_outcome(old(self).bytes(), position as int, size as int)),
    {
        let start = self.stream_position();
        self.seek_start(position);
        let wcstr = self.read_fixed_wcstr(size);
        self.seek_start(start);
        wcstr
    }

    /// Reads a `u8` at the absolute offset `position` and puts the cursor
    /// back where it was, whether or not the read succeeded.
    fn peek_u8(&mut self, position: u64) -> (r: Result<u8, InterpreterError>)
        ensures
            final(self).bytes() == old(self).bytes(),
            final(self).cursor() == old(self).cursor(),
            match r {
                Ok(v) => byte_at(old(self).bytes(), position as int, v),
                Err(e) => short_at(old(self).bytes(), position as int, 1, e),
            },
    {
        let start = self.stream_position();
        self.seek_start(position);
        let value = self.read_u8();
        self.seek_start(start);
        value
    }

    /// Reads a `i8` at the absolute offset `position` and puts the cursor
    /// back where it was, whether or not the read succeeded.
    fn peek_i8(&mut self, position: u64) -> (r: Result<i8, InterpreterError>)
        ensures
            final(self).bytes() == old(self).bytes(),
            final(self).cursor() == old(self).cursor(),
            match r {
                Ok(v) => signed_byte_at(old(self).bytes(), position as int, v),
                Err(e) => short_at(old(self).bytes(), position as int, 1, e),
            },
    {
        let start = self.stream_position();
        self.seek_start(position);
        let value = self.read_i8();
        self.seek_start(start);
        value
    }

    /// Reads a `u16` at the absolute offset `position` and puts the cursor
    /// back where it was, whether or not the read succeeded.
    fn peek_u16(&mut self, order: Endian, position: u64) -> (r: Result<u16, InterpreterError>)
        ensures
            final(self).bytes() == old(self).bytes(),
            final(self).cursor() == old(self).cursor(),
            match r {
                Ok(v) => unsigned_at(old(self).bytes(), position as int, 2, order, v as nat),
                Err(e) => short_at(old(self).bytes(), position as int, 2, e),
            },
    {
        let start = self.stream_position();
        self.seek_start(position);
        let value = self.read_u16(order);
        self.seek_start(start);
        value
    }

    /// Reads a `u16` at `position` bytes from the cursor as it stands when
    /// the call is made, and puts the cursor back there, whether or not the
    /// read succeeded. A distance that leads before the start of the source,
    /// or beyond any 64-bit offset, is a seek failure.
    fn peek_ahead_u16(&mut self, order: Endian, position: usize) -> (r: Result<
        u16,
        InterpreterError,
    >)
        ensures
            final(self).bytes() == old(self).bytes(),
            final(self).cursor() == old(self).cursor(),
            match ahead_target(old(self).cursor(), position) {
                Some(target) => match r {
                    Ok(v) => unsigned_at(old(self).bytes(), target, 2, order, v as nat),
                    Err(e) => short_at(old(self).bytes(), target, 2, e),
                },
                None => r is Err && r->Err_0 == seek_failure(),
            },
    {
        let start = self.stream_position();
        match seek_ahead(start, position) {
            Some(target) => {
                self.seek_start(target);
                let value = self.read_u16(order);
                self.seek_start(start);
                value
            },
            None => Err(InterpreterError::IoError(IoErrorKind::InvalidInput)),
        }
    }

    /// Reads a `i16` at the absolute offset `position` and puts the cursor
    /// back where it was, whether or not the read succeeded.
    fn peek_i16(&mut self, order: Endian, position: u64) -> (r: Result<i16, InterpreterError>)
        ensures
            final(self).bytes() == old(self).bytes(),
            final(self).cursor() == old(self).cursor(),
            match r {
                Ok(v) => signed_at(old(self).bytes(), position as int, 2, order, v as int),
                Err(e) => short_at(old(self).bytes(), position as int, 2, e),
            },
    {
        let start = self.stream_position();
        self.seek_start(position);
        let value = self.read_i16(order);
        self.seek_start(start);
        value
    }

    /// Reads a `i16` at `position` bytes from the cursor as it stands when
    /// the call is made, and puts the cursor back there, whether or not the
    /// read succeeded. A distance that leads before the start of the source,
    /// or beyond any 64-bit offset, is a seek failure.
    fn peek_ahead_i16(&mut self, order: Endian, position: usize) -> (r: Result<
        i16,
        InterpreterError,
    >)
        ensures
            final(self).bytes() == old(self).bytes(),
            final(self).cursor() == old(self).cursor(),
            match ahead_target(old(self).cursor(), position) {
                Some(target) => match r {
                    Ok(v) => signed_at(old(self).bytes(), target, 2, order, v as int),
                    Err(e) => short_at(old(self).bytes(), target, 2, e),
                },
                None => r is Err && r->Err_0 == seek_failure(),
            },
    {
        let start = self.stream_position();
        match seek_ahead(start, position) {
            Some(target) => {
                self.seek_start(target);
                let value = self.read_i16(order);
                self.seek_start(start);
                value
            },
            None => Err(InterpreterError::IoError(IoErrorKind::InvalidInput)),
        }
    }

    /// Reads a `u32` at the absolute offset `position` and puts the cursor
    /// back where it was, whether or not the read succeeded.
    fn peek_u32(&mut self, order: Endian, position: u64) -> (r: Result<u32, InterpreterError>)
        ensures
            final(self).bytes() == old(self).bytes(),
            final(self).cursor() == old(self).cursor(),
            match r {
                Ok(v) => unsigned_at(old(self).bytes(), position as int, 4, order, v as nat),
                Err(e) => short_at(old(self).bytes(), position as int, 4, e),
            },
    {
        let start = self.stream_position();
        self.seek_start(position);
        let value = self.read_u32(order);
        self.seek_start(start);
        value
    }

    /// Reads a `u32` at `position` bytes from the cursor as it stands when
    /// the call is made, and puts the cursor back there, whether or not the
    /// read succeeded. A distance that leads before the start of the source,
    /// or beyond any 64-bit offset, is a seek failure.
    fn peek_ahead_u32(&mut self, order: Endian, position: usize) -> (r: Result<
        u32,
        InterpreterError,
    >)
        ensures
            final(self).bytes() == old(self).bytes(),
            final(self).cursor() == old(self).cursor(),
            match ahead_target(old(self).cursor(), position) {
                Some(target) => match r {
                    Ok(v) => unsigned_at(old(self).bytes(), target, 4, order, v as nat),
                    Err(e) => short_at(old(self).bytes(), target, 4, e),
                },
                None => r is Err && r->Err_0 == seek_failure(),
            },
    {
        let start = self.stream_position();
        match seek_ahead(start, position) {
            Some(target) => {
                self.seek_start(target);
                let value = self.read_u32(order);
                self.seek_start(start);
                value
            },
            None => Err(InterpreterError::IoError(IoErrorKind::InvalidInput)),
        }
    }

    /// Reads a `i32` at the absolute offset `position` and puts the cursor
    /// back where it was, whether or not the read succeeded.
    fn peek_i32(&mut self, order: Endian, position: u64) -> (r: Result<i32, InterpreterError>)
        ensures
            final(self).bytes() == old(self).bytes(),
            final(self).cursor() == old(self).cursor(),
            match r {
                Ok(v) => signed_at(old(self).bytes(), position as int, 4, order, v as int),
                Err(e) => short_at(old(self).bytes(), position as int, 4, e),
            },
    {
        let start = self.stream_position();
        self.seek_start(position);
        let value = self.read_i32(order);
        self.seek_start(start);
        value
    }

    /// Reads a `i32` at `position` bytes from the cursor as it stands when
    /// the call is made, and puts the cursor back there, whether or not the
    /// read succeeded. A distance that leads before the start of the source,
    /// or beyond any 64-bit offset, is a seek failure.
    fn peek_ahead_i32(&mut self, order: Endian, position: usize) -> (r: Result<
        i32,
        InterpreterError,
    >)
        ensures
            final(self).bytes() == old(self).bytes(),
            final(self).cursor() == old(self).cursor(),
            match ahead_target(old(self).cursor(), position) {
                Some(target) => match r {
                    Ok(v) => signed_at(old(self).bytes(), target, 4, order, v as int),
                    Err(e) => short_at(old(self).bytes(), target, 4, e),
                },
                None => r is Err && r->Err_0 == seek_failure(),
            },
    {
        let start = self.stream_position();
        match seek_ahead(start, position) {
            Some(target) => {
                self.seek_start(target);
                let value = self.read_i32(order);
                self.seek_start(start);
                value
            },
            None => Err(InterpreterError::IoError(IoErrorKind::InvalidInput)),
        }
    }

    /// Reads a `u64` at the absolute offset `position` and puts the cursor
    /// back where it was, whether or not the read succeeded.
    fn peek_u64(&mut self, order: Endian, position: u64) -> (r: Result<u64, InterpreterError>)
        ensures
            final(self).bytes() == old(self).bytes(),
            final(self).cursor() == old(self).cursor(),
            match r {
                Ok(v) => unsigned_at(old(self).bytes(), position as int, 8, order, v as nat),
                Err(e) => short_at(old(self).bytes(), position as int, 8, e),
            },
    {
        let start = self.stream_position();
        self.seek_start(position);
        let value = self.read_u64(order);
        self.seek_start(start);
        value
    }

    /// Reads a `u64` at `position` bytes from the cursor as it stands when
    /// the call is made, and puts the cursor back there, whether or not the
    /// read succeeded. A distance that leads before the start of the source,
    /// or beyond any 64-bit offset, is a seek failure.
    fn peek_ahead_u64(&mut self, order: Endian, position: usize) -> (r: Result<
        u64,
        InterpreterError,
    >)
        ensures
            final(self).bytes() == old(self).bytes(),
            final(self).cursor() == old(self).cursor(),
            match ahead_target(old(self).cursor(), position) {
                Some(target) => match r {
                    Ok(v) => unsigned_at(old(self).bytes(), target, 8, order, v as nat),
                    Err(e) => short_at(old(self).bytes(), target, 8, e),
                },
                None => r is Err && r->Err_0 == seek_failure(),
            },
    {
        let start = self.stream_position();
        match seek_ahead(start, position) {
            Some(target) => {
                self.seek_start(target);
                let value = self.read_u64(order);
                self.seek_start(start);
                value
            },
            None => Err(InterpreterError::IoError(IoErrorKind::InvalidInput)),
        }
    }

    /// Reads a `i64` at the absolute offset `position` and puts the cursor
    /// back where it was, whether or not the read succeeded.
    fn peek_i64(&mut self, order: Endian, position: u64) -> (r: Result<i64, InterpreterError>)
        ensures
            final(self).bytes() == old(self).bytes(),
            final(self).cursor() == old(self).cursor(),
            match r {
                Ok(v) => signed_at(old(self).bytes(), position as int, 8, order, v as int),
                Err(e) => short_at(old(self).bytes(), position as int, 8, e),
            },
    {
        let start = self.stream_position();
        self.seek_start(position);
        let value = self.read_i64(order);
        self.seek_start(start);
        value
    }

    /// Reads a `i64` at `position` bytes from the cursor as it stands when
    /// the call is made, and puts the cursor back there, whether or not the
    /// read succeeded. A distance that leads before the start of the source,
    /// or beyond any 64-bit offset, is a seek failure.
    fn peek_ahead_i64(&mut self, order: Endian, position: usize) -> (r: Result<
        i64,
        InterpreterError,
    >)
        ensures
            final(self).bytes() == old(self).bytes(),
            final(self).cursor() == old(self).cursor(),
            match ahead_target(old(self).cursor(), position) {
                Some(target) => match r {
                    Ok(v) => signed_at(old(self).bytes(), target, 8, order, v as int),
                    Err(e) => short_at(old(self).bytes(), target, 8, e),
                },
                None => r is Err && r->Err_0 == seek_failure(),
            },
    {
        let start = self.stream_position();
        match seek_ahead(start, position) {
            Some(target) => {
                self.seek_start(target);
                let value = self.read_i64(order);
                self.seek_start(start);
                value
            },
            None => Err(InterpreterError::IoError(IoErrorKind::InvalidInput)),
        }
    }

    /// Reads a `u128` at the absolute offset `position` and puts the cursor
    /// back where it was, whether or not the read succeeded.
    fn peek_u128(&mut self, order: Endian, position: u64) -> (r: Result<u128, InterpreterError>)
        ensures
            final(self).bytes() == old(self).bytes(),
            final(self).cursor() == old(self).cursor(),
            match r {
                Ok(v) => unsigned_at(old(self).bytes(), position as int, 16, order, v as nat),
                Err(e) => short_at(old(self).bytes(), position as int, 16, e),
            },
    {
        let start = self.stream_position();
        self.seek_start(position);
        let value = self.read_u128(order);
        self.seek_start(start);
        value
    }

    /// Reads a `u128` at `position` bytes from the cursor as it stands when
    /// the call is made, and puts the cursor back there, whether or not the
    /// read succeeded. A distance that leads before the start of the source,
    /// or beyond any 64-bit offset, is a seek failure.
    fn peek_ahead_u128(&mut self, order: Endian, position: usize) -> (r: Result<
        u128,
        InterpreterError,
    >)
        ensures
            final(self).bytes() == old(self).bytes(),
            final(self).cursor() == old(self).cursor(),
            match ahead_target(old(self).cursor(), position) {
                Some(target) => match r {
                    Ok(v) => unsigned_at(old(self).bytes(), target, 16, order, v as nat),
                    Err(e) => short_at(old(self).bytes(), target, 16, e),
                },
                None => r is Err && r->Err_0 == seek_failure(),
            },
    {
        let start = self.stream_position();
        match seek_ahead(start, position) {
            Some(target) => {
                self.seek_start(target);
                let value = self.read_u128(order);
                self.seek_start(start);
                value
            },
            None => Err(InterpreterError::IoError(IoErrorKind::InvalidInput)),
        }
    }

    /// Reads a `i128` at the absolute offset `position` and puts the cursor
    /// back where it was, whether or not the read succeeded.
    fn peek_i128(&mut self, order: Endian, position: u64) -> (r: Result<i128, InterpreterError>)
        ensures
            final(self).bytes() == old(self).bytes(),
            final(self).cursor() == old(self).cursor(),
            match r {
                Ok(v) => signed_at(old(self).bytes(), position as int, 16, order, v as int),
                Err(e) => short_at(old(self).bytes(), position as int, 16, e),
            },
    {
        let start = self.stream_position();
        self.seek_start(position);
        let value = self.read_i128(order);
        self.seek_start(start);
        value
    }

    /// Reads a `i128` at `position` bytes from the cursor as it stands when
    /// the call is made, and puts the cursor back there, whether or not the
    /// read succeeded. A distance that leads before the start of the source,
    /// or beyond any 64-bit offset, is a seek failure.
    fn peek_ahead_i128(&mut self, order: Endian, position: usize) -> (r: Result<
        i128,
        InterpreterError,
    >)
        ensures
            final(self).bytes() == old(self).bytes(),
            final(self).cursor() == old(self).cursor(),
            match ahead_target(old(self).cursor(), position) {
                Some(target) => match r {
                    Ok(v) => signed_at(old(self).bytes(), target, 16, order, v as int),
                    Err(e) => short_at(old(self).bytes(), target, 16, e),
                },
                None => r is Err && r->Err_0 == seek_failure(),
            },
    {
        let start = self.stream_position();
        match seek_ahead(start, position) {
            Some(target) => {
                self.seek_start(target);
                let value = self.read_i128(order);
                self.seek_start(start);
                value
            },
            None => Err(InterpreterError::IoError(IoErrorKind::InvalidInput)),
        }
    }
}

impl<R: BinaryReader + SeekableSource> BinaryPeeker for R {

}

} // verus!
