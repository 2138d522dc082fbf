//! Bulk reads and writes of values that are their own byte encoding.

use vstd::prelude::*;
use crate::binary_reader::{advanced, remaining, short_at, window, ByteSource};
use crate::byte_order::{
    le_image, le_u128, lemma_le_image_len, lemma_le_image_of_value, put_le_u128,
};
use crate::error::{InterpreterError, IoErrorKind};

verus! {

/// A plain-old-data type: one whose values are fully described by a fixed
/// number of bytes, and for which every run of that many bytes is a value.
///
/// The author of an impl vouches for this. The type has no padding whose
/// content is unspecified, holds no pointer or handle, and keeps one stable
/// layout. No byte order is translated and nothing about the bytes is
/// validated: what a read yields for bytes that no write produced is up to
/// the type.
pub trait Pod: Sized {
    /// How many bytes a value occupies.
    spec fn width() -> nat;

    /// The bytes of this value.
    spec fn image(&self) -> Seq<u8>;

    /// A value occupies exactly `width` bytes.
    proof fn lemma_image_len(&self)
        ensures
            self.image().len() == Self::width(),
    ;

    /// How many bytes a value occupies; `None` where that is more than a
    /// `usize` can count.
    fn size() -> (n: Option<usize>)
        ensures
            match n {
                Some(k) => k == Self::width(),
                None => Self::width() > usize::MAX,
            },
    ;

    /// The bytes of this value, copied out.
    fn to_raw(&self) -> (raw: Vec<u8>)
        ensures
            raw@ == self.image(),
    ;

    /// The value whose bytes are `raw`.
    fn from_raw(raw: &[u8]) -> (v: Self)
        requires
            raw@.len() == Self::width(),
        ensures
            v.image() == raw@,
    ;

    /// Fills a value byte for byte from the source and steps over its bytes.
    /// Where the source holds fewer bytes than a value occupies, the read
    /// reports a shortfall, consumes nothing and yields no value.
    fn read<R: ByteSource>(reader: &mut R) -> (r: Result<Self, InterpreterError>)
        ensures
            final(reader).bytes() == old(reader).bytes(),
            final(reader).cursor() == advanced(
                old(reader).bytes(),
                old(reader).cursor(),
                Self::width() as int,
            ),
            match r {
                Ok(v) => window(
                    old(reader).bytes(),
                    old(reader).cursor() as int,
                    Self::width() as int,
                ) == Some(v.image()),
                Err(e) => short_at(
                    old(reader).bytes(),
                    old(reader).cursor() as int,
                    Self::width() as int,
                    e,
                ),
            },
    {
        match Self::size() {
            Some(n) => match reader.take(n) {
                Ok(raw) => Ok(Self::from_raw(raw.as_slice())),
                Err(e) => Err(e),
            },
            None => {
                proof {
                    reader.lemma_len_fits();
                }
                Err(InterpreterError::IoError(IoErrorKind::UnexpectedEof))
            },
        }
    }

    /// Appends the bytes of this value to the sink, as they are.
    fn write(&self, writer: &mut Vec<u8>) -> (r: Result<(), InterpreterError>)
        ensures
            r is Ok,
            final(writer)@ == old(writer)@ + self.image(),
    {
        let mut raw = self.to_raw();
        writer.append(&mut raw);
        Ok(())
    }
}

/// A value that was written to a sink and is read at the offset at which it
/// was written comes back byte for byte, whatever stood in the sink before
/// and whatever is written after.
pub proof fn lemma_write_then_read<T: Pod>(v: T, before: Seq<u8>, after: Seq<u8>)
    ensures
        window(before + v.image() + after, before.len() as int, T::width() as int) == Some(
            v.image(),
        ),
        advanced(before + v.image() + after, before.len(), T::width() as int) == before.len()
            + T::width(),
{
    v.lemma_image_len();
    let all = before + v.image() + after;
    assert(remaining(all, before.len() as int).take(T::width() as int) =~= v.image());
}

/// A `u128` occupies sixteen bytes, least significant first.
impl Pod for u128 {
    open spec fn width() -> nat {
        16
    }

    open spec fn image(&self) -> Seq<u8> {
        le_image(*self as nat, 16)
    }

    proof fn lemma_image_len(&self) {
        lemma_le_image_len(*self as nat, 16);
    }

    fn size() -> (n: Option<usize>) {
        Some(16)
    }

    fn to_raw(&self) -> (raw: Vec<u8>) {
        let mut raw: Vec<u8> = Vec::with_capacity(16);
        while raw.len() < 16
            invariant
                raw@.len() <= 16,
            decreases 16 - raw@.len(),
        {
            raw.push(0);
        }
        put_le_u128(&mut raw, *self);
        raw
    }

    fn from_raw(raw: &[u8]) -> (v: Self) {
        proof {
            lemma_le_image_of_value(raw@);
        }
        le_u128(raw)
    }
}

/// The bytes of the values of `s`, one value after the other.
pub open spec fn images<T: Pod>(s: Seq<T>) -> Seq<u8>
    decreases s.len(),
{
    if s.len() == 0 {
        Seq::empty()
    } else {
        images(s.drop_last()) + s.last().image()
    }
}

/// A run of values occupies as many bytes as its values together.
pub proof fn lemma_images_len<T: Pod>(s: Seq<T>)
    ensures
        images(s).len() == s.len() * T::width(),
    decreases s.len(),
{
    if s.len() > 0 {
        lemma_images_len(s.drop_last());
        s.last().lemma_image_len();
        assert((s.len() - 1) * T::width() + T::width() == s.len() * T::width())
            by (nonlinear_arith);
    }
}

/// Values whose bytes are the successive slices of `raw` have `raw` as
/// their bytes together.
pub proof fn lemma_images_of_slices<T: Pod>(s: Seq<T>, raw: Seq<u8>)
    requires
        raw.len() == s.len() * T::width(),
        forall|i: int|
            0 <= i < s.len() ==> (#[trigger] s[i]).image() == raw.subrange(
                i * T::width(),
                (i + 1) * T::width(),
            ),
    ensures
        images(s) == raw,
    decreases s.len(),
{
    let w = T::width() as int;
    if s.len() == 0 {
        assert(raw =~= Seq::<u8>::empty());
    } else {
        let n = s.len() as int;
        let front = s.drop_last();
        assert((n - 1) * w + w == n * w) by (nonlinear_arith);
        assert((n - 1) * w >= 0) by (nonlinear_arith)
            requires
                n >= 1,
                w >= 0,
        ;
        let head = raw.take((n - 1) * w);
        assert forall|i: int| 0 <= i < front.len() implies (#[trigger] front[i]).image()
            == head.subrange(i * w, (i + 1) * w) by {
            assert(front[i] == s[i]);
            assert((i + 1) * w <= (n - 1) * w) by (nonlinear_arith)
                requires
                    i + 1 <= n - 1,
                    w >= 0,
            ;
            assert(0 <= i * w <= (i + 1) * w) by (nonlinear_arith)
                requires
                    i >= 0,
                    w >= 0,
            ;
            assert(head.subrange(i * w, (i + 1) * w) =~= raw.subrange(i * w, (i + 1) * w));
        }
        lemma_images_of_slices(front, head);
        assert(s.last() == s[n - 1]);
        assert(head + raw.subrange((n - 1) * w, n * w) =~= raw);
    }
}

/// The value whose bytes are the slice of `raw` that the element at `index`
/// of an array occupies.
pub fn element_of<T: Pod>(raw: &[u8], index: usize) -> (v: T)
    requires
        (index + 1) * T::width() <= raw@.len(),
    ensures
        v.image() == raw@.subrange(index * T::width(), (index + 1) * T::width()),
{
    let ghost w = T::width() as int;
    proof {
        assert(index * w + w == (index + 1) * w) by (nonlinear_arith);
        assert(0 <= index * w) by (nonlinear_arith)
            requires
                index >= 0,
                w >= 0,
        ;
        assert(w <= (index + 1) * w) by (nonlinear_arith)
            requires
                index >= 0,
                w >= 0,
        ;
    }
    let len: usize = raw.len();
    match T::size() {
        Some(k) => {
            let lo: usize = index * k;
            T::from_raw(vstd::slice::slice_subrange(raw, lo, lo + k))
        },
        None => T::from_raw(raw),
    }
}

/// Calls `core::array::from_fn`, which builds an array by calling the closure
/// once for each index of the array and storing what it returns at that
/// index. The closure decodes the element's slice of `raw`.
#[verifier::external_body]
fn array_of_elements<T: Pod, const SIZE: usize>(raw: &[u8]) -> (a: [T; SIZE])
    requires
        raw@.len() == SIZE * T::width(),
    ensures
        forall|i: int|
            0 <= i < SIZE ==> (#[trigger] a@[i]).image() == raw@.subrange(
                i * T::width(),
                (i + 1) * T::width(),
            ),
{
    core::array::from_fn(|i| element_of::<T>(raw, i))
}

/// An array of plain-old-data values is plain old data: its bytes are those
/// of its elements, in order.
impl<T: Pod, const SIZE: usize> Pod for [T; SIZE] {
    open spec fn width() -> nat {
        (SIZE * T::width()) as nat
    }

    open spec fn image(&self) -> Seq<u8> {
        images(self@)
    }

    proof fn lemma_image_len(&self) {
        lemma_images_len(self@);
    }

    fn size() -> (n: Option<usize>) {
        match T::size() {
            Some(k) => {
                let total = SIZE.checked_mul(k);
                total
            },
            None => {
                if SIZE == 0 {
                    assert(SIZE * T::width() == 0) by (nonlinear_arith)
                        requires
                            SIZE == 0,
                    ;
                    Some(0)
                } else {
                    assert(SIZE * T::width() >= T::width()) by (nonlinear_arith)
                        requires
                            SIZE >= 1,
                    ;
                    None
                }
            },
        }
    }

    fn to_raw(&self) -> (raw: Vec<u8>) {
        let mut raw: Vec<u8> = Vec::new();
        let mut i: usize = 0;
        while i < SIZE
            invariant
                i <= SIZE,
                self@.len() == SIZE,
                raw@ == images(self@.take(i as int)),
            decreases SIZE - i,
        {
            let mut part = self[i].to_raw();
            raw.append(&mut part);
            i += 1;
            proof {
                assert(self@.take(i as int).drop_last() =~= self@.take(i - 1));
                assert(self@.take(i as int).last() == self@[i - 1]);
            }
        }
        assert(self@.take(SIZE as int) =~= self@);
        raw
    }

    fn from_raw(raw: &[u8]) -> (v: Self) {
        let v = array_of_elements::<T, SIZE>(raw);
        proof {
            lemma_images_of_slices(v@, raw@);
        }
        v
    }
}

} // verus!
