//! The tensor file: `GRA1`, a tag for the element type, the number of
//! dimensions, the dimensions, then the raw elements. All numbers are 64-bit
//! little-endian.

use vstd::bytes::{
    lemma_auto_spec_u64_to_from_le_bytes, spec_u64_from_le_bytes, spec_u64_to_le_bytes,
    u64_from_le_bytes, u64_to_le_bytes,
};
use vstd::prelude::*;
use vstd::slice::slice_subrange;

verus! {

/// Element types of tensors.
#[derive(Clone, Copy, Debug, PartialEq, Eq, Structural)]
pub enum Dtype {
    Float16,
    BFloat16,
    Float32,
    Float64,
    Int32,
    Int64,
}

/// The tag of an element type that can stand in a file.
pub open spec fn tag_of(dtype: Dtype) -> Option<u8> {
    match dtype {
        Dtype::Float32 => Some(0u8),
        Dtype::Float64 => Some(1u8),
        Dtype::Int64 => Some(2u8),
        _ => None,
    }
}

/// The element type of a tag.
pub open spec fn dtype_of(tag: u8) -> Option<Dtype> {
    if tag == 0 {
        Some(Dtype::Float32)
    } else if tag == 1 {
        Some(Dtype::Float64)
    } else if tag == 2 {
        Some(Dtype::Int64)
    } else {
        None
    }
}

/// The bytes of one element; 0 for a type that no file holds.
pub open spec fn width_of(dtype: Dtype) -> nat {
    match dtype {
        Dtype::Float32 => 4,
        Dtype::Float64 => 8,
        Dtype::Int64 => 8,
        _ => 0,
    }
}

/// A tensor as a file holds it.
pub struct TensorBlob {
    pub dtype: Dtype,
    pub shape: Vec<u64>,
    pub bytes: Vec<u8>,
}

/// Why a tensor cannot be written or read.
#[derive(Clone, Copy, Debug, PartialEq, Eq, Structural)]
pub enum DataError {
    /// No file holds this element type.
    UnsupportedDtype(Dtype),
    /// The file does not begin like a tensor file.
    BadMagic,
    /// No element type has this tag.
    UnknownDtypeTag(u8),
    /// The file ends inside the header.
    Truncated,
    /// The dimensions do not multiply to a signed 64-bit number of elements
    /// whose bytes can be counted.
    Oversized,
    /// The file holds more or fewer bytes than its shape asks for.
    SizeMismatch { expected: usize, found: usize },
}

pub fn dtype_tag(dtype: Dtype) -> (r: Result<u8, DataError>)
    ensures
        r == (match tag_of(dtype) {
            Some(t) => Ok::<u8, DataError>(t),
            None => Err(DataError::UnsupportedDtype(dtype)),
        }),
{
    match dtype {
        Dtype::Float32 => Ok(0),
        Dtype::Float64 => Ok(1),
        Dtype::Int64 => Ok(2),
        _ => Err(DataError::UnsupportedDtype(dtype)),
    }
}

pub fn tag_dtype(tag: u8) -> (r: Result<Dtype, DataError>)
    ensures
        r == (match dtype_of(tag) {
            Some(d) => Ok::<Dtype, DataError>(d),
            None => Err(DataError::UnknownDtypeTag(tag)),
        }),
{
    if tag == 0 {
        Ok(Dtype::Float32)
    } else if tag == 1 {
        Ok(Dtype::Float64)
    } else if tag == 2 {
        Ok(Dtype::Int64)
    } else {
        Err(DataError::UnknownDtypeTag(tag))
    }
}

pub fn elem_size(dtype: Dtype) -> (r: usize)
    ensures
        r == width_of(dtype),
{
    match dtype {
        Dtype::Float32 => 4,
        Dtype::Float64 => 8,
        Dtype::Int64 => 8,
        _ => 0,
    }
}

/// A tag names the type it was made from.
pub proof fn tags_read_back(dtype: Dtype)
    ensures
        tag_of(dtype) matches Some(t) ==> dtype_of(t) == Some(dtype),
{
}

// ── Sizes ────────────────────────────────────────────────────────────────

/// The product of the dimensions.
pub open spec fn element_count(shape: Seq<u64>) -> nat
    decreases shape.len(),
{
    if shape.len() == 0 {
        1
    } else {
        element_count(shape.drop_last()) * (shape.last() as nat)
    }
}

/// Every dimension, and every product of leading ones, is a signed 64-bit
/// number.
pub open spec fn shape_fits(shape: Seq<u64>) -> bool
    decreases shape.len(),
{
    if shape.len() == 0 {
        true
    } else {
        &&& shape_fits(shape.drop_last())
        &&& shape.last() <= i64::MAX
        &&& element_count(shape) <= i64::MAX
    }
}

/// The bytes of a payload, if they can be counted.
pub open spec fn payload_size(shape: Seq<u64>, dtype: Dtype) -> Option<nat> {
    let n = element_count(shape) * width_of(dtype);
    if shape_fits(shape) && n <= usize::MAX {
        Some(n)
    } else {
        None
    }
}

fn count_payload(shape: &Vec<u64>, dtype: Dtype) -> (r: Option<usize>)
    ensures
        match r {
            Some(n) => payload_size(shape@, dtype) == Some(n as nat),
            None => payload_size(shape@, dtype) is None,
        },
{
    let mut n: u128 = 1;
    let mut ok = true;
    let mut i: usize = 0;
    while i < shape.len()
        invariant
            i <= shape@.len(),
            ok == shape_fits(shape@.take(i as int)),
            ok ==> n == element_count(shape@.take(i as int)),
            ok ==> n <= i64::MAX,
        decreases shape@.len() - i,
    {
        assert(shape@.take(i + 1).drop_last() =~= shape@.take(i as int));
        let d: u64 = shape[i];
        if ok {
            if d > 0x7fff_ffff_ffff_ffff {
                ok = false;
            } else {
                assert(n * d <= 0x7fff_ffff_ffff_ffff * 0x7fff_ffff_ffff_ffff) by (nonlinear_arith)
                    requires
                        n <= 0x7fff_ffff_ffff_ffff,
                        d <= 0x7fff_ffff_ffff_ffff,
                ;
                n = n * (d as u128);
                if n > 0x7fff_ffff_ffff_ffff {
                    ok = false;
                }
            }
        }
        i = i + 1;
    }
    assert(shape@.take(shape@.len() as int) =~= shape@);
    let total: u128 = if ok {
        let w: u128 = elem_size(dtype) as u128;
        assert(n * w <= 0x7fff_ffff_ffff_ffff * 8) by (nonlinear_arith)
            requires
                n <= 0x7fff_ffff_ffff_ffff,
                w <= 8,
        ;
        n * w
    } else {
        0
    };
    if ok && total <= usize::MAX as u128 {
        Some(total as usize)
    } else {
        None
    }
}

// ── Writing ──────────────────────────────────────────────────────────────

pub open spec fn magic() -> Seq<u8> {
    seq![71u8, 82u8, 65u8, 49u8]
}

/// The dimensions, eight bytes each.
pub open spec fn shape_bytes(shape: Seq<u64>) -> Seq<u8>
    decreases shape.len(),
{
    if shape.len() == 0 {
        Seq::empty()
    } else {
        shape_bytes(shape.drop_last()) + spec_u64_to_le_bytes(shape.last())
    }
}

/// The whole file.
pub open spec fn file_bytes(tag: u8, shape: Seq<u64>, bytes: Seq<u8>) -> Seq<u8> {
    magic() + seq![tag] + spec_u64_to_le_bytes(shape.len() as u64) + shape_bytes(shape) + bytes
}

/// The file of a tensor.
pub fn encode_tensor(t: &TensorBlob) -> (r: Result<Vec<u8>, DataError>)
    ensures
        match (r, tag_of(t.dtype)) {
            (Ok(out), Some(tag)) => out@ == file_bytes(tag, t.shape@, t.bytes@),
            (Err(e), None) => e == DataError::UnsupportedDtype(t.dtype),
            _ => false,
        },
{
    let tag: u8 = match dtype_tag(t.dtype) {
        Ok(tag) => tag,
        Err(e) => {
            return Err(e);
        },
    };
    let mut out: Vec<u8> = vec![71, 82, 65, 49];
    assert(out@ =~= magic());
    out.push(tag);
    assert(out@ =~= magic() + seq![tag]);
    let mut ndim = u64_to_le_bytes(t.shape.len() as u64);
    out.append(&mut ndim);
    let ghost head = out@;
    let mut i: usize = 0;
    assert(t.shape@.take(0) =~= Seq::empty());
    assert(head =~= head + shape_bytes(t.shape@.take(0)));
    while i < t.shape.len()
        invariant
            i <= t.shape@.len(),
            out@ == head + shape_bytes(t.shape@.take(i as int)),
        decreases t.shape@.len() - i,
    {
        assert(t.shape@.take(i + 1).drop_last() =~= t.shape@.take(i as int));
        let mut d = u64_to_le_bytes(t.shape[i]);
        let ghost before = out@;
        out.append(&mut d);
        assert(out@ =~= head + shape_bytes(t.shape@.take(i + 1)));
        i = i + 1;
    }
    assert(t.shape@.take(t.shape@.len() as int) =~= t.shape@);
    let mut k: usize = 0;
    let ghost front = out@;
    assert(front =~= front + t.bytes@.take(0));
    while k < t.bytes.len()
        invariant
            k <= t.bytes@.len(),
            out@ == front + t.bytes@.take(k as int),
        decreases t.bytes@.len() - k,
    {
        out.push(t.bytes[k]);
        assert(out@ =~= front + t.bytes@.take(k + 1));
        k = k + 1;
    }
    assert(t.bytes@.take(t.bytes@.len() as int) =~= t.bytes@);
    Ok(out)
}

// ── Reading ──────────────────────────────────────────────────────────────

/// The number at `at`.
pub open spec fn number_at(b: Seq<u8>, at: int) -> u64 {
    spec_u64_from_le_bytes(b.subrange(at, at + 8))
}

/// The dimensions that a header announces.
pub open spec fn shape_at(b: Seq<u8>) -> Seq<u64> {
    Seq::new(number_at(b, 5) as nat, |i: int| number_at(b, 13 + 8 * i))
}

/// Where the elements begin.
pub open spec fn payload_at(b: Seq<u8>) -> int {
    13 + 8 * number_at(b, 5)
}

/// What is wrong with a file, if anything.
pub open spec fn file_error(b: Seq<u8>) -> Option<DataError> {
    if b.len() < 9 || b.take(4) != magic() {
        Some(DataError::BadMagic)
    } else if dtype_of(b[4]) is None {
        Some(DataError::UnknownDtypeTag(b[4]))
    } else if b.len() < 13 || b.len() < payload_at(b) {
        Some(DataError::Truncated)
    } else {
        match payload_size(shape_at(b), dtype_of(b[4])->0) {
            None => Some(DataError::Oversized),
            Some(n) => if payload_at(b) + n != b.len() {
                Some(
                    DataError::SizeMismatch {
                        expected: n as usize,
                        found: (b.len() - payload_at(b)) as usize,
                    },
                )
            } else {
                None
            },
        }
    }
}

fn has_magic(b: &Vec<u8>) -> (r: bool)
    requires
        b@.len() >= 4,
    ensures
        r == (b@.take(4) == magic()),
{
    let r = b[0] == 71 && b[1] == 82 && b[2] == 65 && b[3] == 49;
    proof {
        let t = b@.take(4);
        if r {
            assert(t =~= magic());
        } else {
            assert(t[0] == b@[0] && t[1] == b@[1] && t[2] == b@[2] && t[3] == b@[3]);
        }
    }
    r
}

/// Reads a tensor file.
pub fn decode_tensor(b: &Vec<u8>) -> (r: Result<TensorBlob, DataError>)
    ensures
        match (r, file_error(b@)) {
            (Ok(t), None) => {
                &&& t.dtype == dtype_of(b@[4])->0
                &&& t.shape@ == shape_at(b@)
                &&& t.bytes@ == b@.skip(payload_at(b@))
            },
            (Err(e), Some(x)) => e == x,
            _ => false,
        },
{
    if b.len() < 9 || !has_magic(b) {
        return Err(DataError::BadMagic);
    }
    let dtype = match tag_dtype(b[4]) {
        Ok(d) => d,
        Err(e) => {
            return Err(e);
        },
    };
    if b.len() < 13 {
        return Err(DataError::Truncated);
    }
    let ndim: u64 = u64_from_le_bytes(slice_subrange(b.as_slice(), 5, 13));
    assert(ndim == number_at(b@, 5));
    let total: usize = b.len();
    let room: usize = (total - 13) / 8;
    if ndim > room as u64 {
        return Err(DataError::Truncated);
    }
    let n: usize = ndim as usize;
    let mut shape: Vec<u64> = Vec::new();
    let mut i: usize = 0;
    while i < n
        invariant
            i <= n,
            n == ndim,
            ndim == number_at(b@, 5),
            total == b@.len(),
            13 + 8 * n <= total,
            shape@ =~= shape_at(b@).take(i as int),
        decreases n - i,
    {
        let at: usize = 13 + 8 * i;
        shape.push(u64_from_le_bytes(slice_subrange(b.as_slice(), at, at + 8)));
        i = i + 1;
    }
    assert(shape@ =~= shape_at(b@));
    let off: usize = 13 + 8 * n;
    match count_payload(&shape, dtype) {
        None => Err(DataError::Oversized),
        Some(expected) => {
            if b.len() - off != expected {
                return Err(DataError::SizeMismatch { expected, found: b.len() - off });
            }
            let mut bytes: Vec<u8> = Vec::new();
            let mut k: usize = off;
            while k < b.len()
                invariant
                    off <= k <= b@.len(),
                    bytes@ =~= b@.subrange(off as int, k as int),
                decreases b@.len() - k,
            {
                bytes.push(b[k]);
                k = k + 1;
            }
            assert(bytes@ =~= b@.skip(payload_at(b@)));
            Ok(TensorBlob { dtype, shape, bytes })
        },
    }
}

// ── Laws ─────────────────────────────────────────────────────────────────

proof fn shape_bytes_layout(shape: Seq<u64>)
    ensures
        shape_bytes(shape).len() == 8 * shape.len(),
        forall|i: int|
            0 <= i < shape.len() ==> shape_bytes(shape).subrange(8 * i, 8 * i + 8)
                == spec_u64_to_le_bytes(#[trigger] shape[i]),
    decreases shape.len(),
{
    lemma_auto_spec_u64_to_from_le_bytes();
    if shape.len() > 0 {
        let rest = shape.drop_last();
        shape_bytes_layout(rest);
        assert(spec_u64_to_le_bytes(shape.last()).len() == 8);
        assert forall|i: int| 0 <= i < shape.len() implies shape_bytes(shape).subrange(
            8 * i,
            8 * i + 8,
        ) == spec_u64_to_le_bytes(#[trigger] shape[i]) by {
            if i < rest.len() {
                assert(rest[i] == shape[i]);
                assert(shape_bytes(shape).subrange(8 * i, 8 * i + 8) =~= shape_bytes(
                    rest,
                ).subrange(8 * i, 8 * i + 8));
            } else {
                assert(shape_bytes(shape).subrange(8 * i, 8 * i + 8) =~= spec_u64_to_le_bytes(
                    shape.last(),
                ));
            }
        }
    }
}

/// What a read gives back is what was written: every tensor whose bytes agree
/// with its shape goes through a file without loss.
pub proof fn tensors_read_back(dtype: Dtype, shape: Seq<u64>, bytes: Seq<u8>)
    requires
        tag_of(dtype) is Some,
        shape.len() <= u64::MAX,
        payload_size(shape, dtype) == Some(bytes.len()),
    ensures
        ({
            let b = file_bytes(tag_of(dtype)->0, shape, bytes);
            &&& file_error(b) is None
            &&& dtype_of(b[4]) == Some(dtype)
            &&& shape_at(b) == shape
            &&& b.skip(payload_at(b)) == bytes
        }),
{
    lemma_auto_spec_u64_to_from_le_bytes();
    let tag = tag_of(dtype)->0;
    let b = file_bytes(tag, shape, bytes);
    let count = spec_u64_to_le_bytes(shape.len() as u64);
    shape_bytes_layout(shape);
    assert(count.len() == 8);
    assert(b.take(4) =~= magic());
    assert(b[4] == tag);
    assert(b.subrange(5, 13) =~= count);
    assert(number_at(b, 5) == shape.len());
    assert forall|i: int| 0 <= i < shape.len() implies number_at(b, 13 + 8 * i)
        == #[trigger] shape[i] by {
        assert(b.subrange(13 + 8 * i, 13 + 8 * i + 8) =~= shape_bytes(shape).subrange(
            8 * i,
            8 * i + 8,
        ));
    }
    assert(shape_at(b) =~= shape);
    assert(b.skip(payload_at(b)) =~= bytes);
}

/// A file is read as one tensor only: two readable files with the same content
/// are the same file.
pub proof fn files_are_canonical(a: Seq<u8>, b: Seq<u8>)
    requires
        file_error(a) is None,
        file_error(b) is None,
        dtype_of(a[4]) == dtype_of(b[4]),
        shape_at(a) == shape_at(b),
        a.skip(payload_at(a)) == b.skip(payload_at(b)),
    ensures
        a == b,
{
    lemma_auto_spec_u64_to_from_le_bytes();
    assert(a.take(4) == b.take(4));
    assert(shape_at(a).len() == shape_at(b).len());
    assert(spec_u64_to_le_bytes(number_at(a, 5)) == a.subrange(5, 13));
    assert(spec_u64_to_le_bytes(number_at(b, 5)) == b.subrange(5, 13));
    let p = payload_at(a);
    assert(a.len() - p == a.skip(p).len());
    assert(b.len() - p == b.skip(p).len());
    assert forall|i: int| 0 <= i < a.len() implies a[i] == b[i] by {
        if i < 4 {
            assert(a[i] == a.take(4)[i]);
            assert(b[i] == b.take(4)[i]);
        } else if i == 4 {
        } else if i < 13 {
            assert(a[i] == a.subrange(5, 13)[i - 5]);
            assert(b[i] == b.subrange(5, 13)[i - 5]);
        } else if i < p {
            let k = (i - 13) / 8;
            assert(0 <= k < number_at(a, 5));
            assert(shape_at(a)[k] == number_at(a, 13 + 8 * k));
            assert(shape_at(b)[k] == number_at(b, 13 + 8 * k));
            let sa = a.subrange(13 + 8 * k, 13 + 8 * k + 8);
            let sb = b.subrange(13 + 8 * k, 13 + 8 * k + 8);
            assert(number_at(a, 13 + 8 * k) == number_at(b, 13 + 8 * k));
            assert(spec_u64_to_le_bytes(spec_u64_from_le_bytes(sa)) == sa);
            assert(spec_u64_to_le_bytes(spec_u64_from_le_bytes(sb)) == sb);
            assert(a[i] == sa[i - 13 - 8 * k]);
            assert(b[i] == sb[i - 13 - 8 * k]);
        } else {
            assert(a[i] == a.skip(p)[i - p]);
            assert(b[i] == b.skip(p)[i - p]);
        }
    }
    assert(a =~= b);
}

/// A file is refused for the first thing that is wrong with it: that it does not
/// begin as a tensor file does, that its element type is unknown, that it ends
/// before its payload, or that the payload has another size than its shape says.
pub proof fn a_refused_file_says_why(b: Seq<u8>)
    requires
        b.len() <= usize::MAX,
    ensures
        file_error(b) == Some(DataError::BadMagic) <==> b.len() < 9 || b[0] != 71 || b[1] != 82
            || b[2] != 65 || b[3] != 49,
        file_error(b) matches Some(DataError::UnknownDtypeTag(t)) ==> t == b[4] && t > 2,
        b.len() >= 9 && b[4] > 2 ==> file_error(b) is Some && (file_error(b)
            == Some(DataError::BadMagic) || file_error(b) == Some(DataError::UnknownDtypeTag(b[4]))),
        file_error(b) is None ==> b.len() >= 13 && b[4] <= 2 && payload_at(b) <= b.len(),
        file_error(b) == Some(DataError::Truncated) ==> b.len() < 13 || b.len() < payload_at(b),
        file_error(b) matches Some(DataError::SizeMismatch { expected, found }) ==> expected != found
            && found == b.len() - payload_at(b),
{
    if b.len() >= 4 {
        let t = b.take(4);
        assert(t[0] == b[0] && t[1] == b[1] && t[2] == b[2] && t[3] == b[3]);
        if b[0] == 71 && b[1] == 82 && b[2] == 65 && b[3] == 49 {
            assert(t =~= magic());
        }
    }
}

} // verus!
