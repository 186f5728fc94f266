//! Byte-level readers: fixed-width little-endian integers, the 7-bit-group
//! variable-length integer and the length-prefixed UTF-8 string.
use vstd::prelude::*;

use vstd::utf8::{decode_utf8, valid_utf8};

use crate::error::DecodeError;

verus! {

/// A forward-only cursor over an owned byte buffer.
pub struct Stream {
    data: Vec<u8>,
    pos: usize,
}

impl View for Stream {
    type V = Seq<u8>;

    /// The bytes that have not been consumed yet.
    closed spec fn view(&self) -> Seq<u8> {
        self.data@.subrange(self.pos as int, self.data.len() as int)
    }
}

impl Stream {
    pub closed spec fn wf(&self) -> bool {
        self.pos <= self.data.len()
    }

    pub fn new(data: Vec<u8>) -> (s: Stream)
        ensures
            s.wf(),
            s@ == data@,
    {
        let s = Stream { data, pos: 0 };
        assert(s@ =~= s.data@);
        s
    }

    /// Number of bytes not consumed yet.
    pub fn remaining(&self) -> (r: usize)
        requires
            self.wf(),
        ensures
            r == self@.len(),
    {
        self.data.len() - self.pos
    }
}

/// 256 to the power `n`.
pub open spec fn pow256(n: nat) -> nat
    decreases n,
{
    if n == 0 {
        1
    } else {
        256 * pow256((n - 1) as nat)
    }
}

/// The unsigned value of `b` read as a little-endian number.
pub open spec fn le_nat(b: Seq<u8>) -> nat
    decreases b.len(),
{
    if b.len() == 0 {
        0
    } else {
        b[0] as nat + 256 * le_nat(b.drop_first())
    }
}

/// Two's-complement reading of an unsigned value `x` of `n` bytes.
pub open spec fn signed(x: nat, n: nat) -> int {
    if x < pow256(n) / 2 {
        x as int
    } else {
        x - pow256(n)
    }
}

/// The first `n` bytes of `b` as a little-endian number, and what follows them.
pub open spec fn take_le(b: Seq<u8>, n: nat) -> Result<(nat, Seq<u8>), DecodeError> {
    if b.len() < n {
        Err(DecodeError::UnexpectedEnd)
    } else {
        Ok((le_nat(b.take(n as int)), b.skip(n as int)))
    }
}

pub open spec fn spec_u8(b: Seq<u8>) -> Result<(u8, Seq<u8>), DecodeError> {
    match take_le(b, 1) {
        Ok((x, r)) => Ok((x as u8, r)),
        Err(e) => Err(e),
    }
}

pub open spec fn spec_i8(b: Seq<u8>) -> Result<(i8, Seq<u8>), DecodeError> {
    match take_le(b, 1) {
        Ok((x, r)) => Ok((signed(x, 1) as i8, r)),
        Err(e) => Err(e),
    }
}

pub open spec fn spec_u16(b: Seq<u8>) -> Result<(u16, Seq<u8>), DecodeError> {
    match take_le(b, 2) {
        Ok((x, r)) => Ok((x as u16, r)),
        Err(e) => Err(e),
    }
}

pub open spec fn spec_i16(b: Seq<u8>) -> Result<(i16, Seq<u8>), DecodeError> {
    match take_le(b, 2) {
        Ok((x, r)) => Ok((signed(x, 2) as i16, r)),
        Err(e) => Err(e),
    }
}

pub open spec fn spec_u32(b: Seq<u8>) -> Result<(u32, Seq<u8>), DecodeError> {
    match take_le(b, 4) {
        Ok((x, r)) => Ok((x as u32, r)),
        Err(e) => Err(e),
    }
}

pub open spec fn spec_i32(b: Seq<u8>) -> Result<(i32, Seq<u8>), DecodeError> {
    match take_le(b, 4) {
        Ok((x, r)) => Ok((signed(x, 4) as i32, r)),
        Err(e) => Err(e),
    }
}

pub open spec fn spec_u64(b: Seq<u8>) -> Result<(u64, Seq<u8>), DecodeError> {
    match take_le(b, 8) {
        Ok((x, r)) => Ok((x as u64, r)),
        Err(e) => Err(e),
    }
}

pub open spec fn spec_i64(b: Seq<u8>) -> Result<(i64, Seq<u8>), DecodeError> {
    match take_le(b, 8) {
        Ok((x, r)) => Ok((signed(x, 8) as i64, r)),
        Err(e) => Err(e),
    }
}

/// A reader's effect on the stream: on success it consumed what the spec
/// says, on failure the stream is left as it was.
pub open spec fn read_effect<T>(
    before: Seq<u8>,
    after: Seq<u8>,
    r: Result<T, DecodeError>,
    spec_r: Result<(T, Seq<u8>), DecodeError>,
) -> bool {
    match r {
        Ok(x) => spec_r == Ok::<(T, Seq<u8>), DecodeError>((x, after)),
        Err(e) => spec_r == Err::<(T, Seq<u8>), DecodeError>(e) && after == before,
    }
}

pub proof fn lemma_le_nat_bound(b: Seq<u8>)
    ensures
        le_nat(b) < pow256(b.len()),
    decreases b.len(),
{
    if b.len() > 0 {
        lemma_le_nat_bound(b.drop_first());
        let x = le_nat(b.drop_first());
        let p = pow256((b.len() - 1) as nat);
        assert(b[0] as nat + 256 * x < 256 * p) by (nonlinear_arith)
            requires
                x < p,
                b[0] < 256,
        ;
    }
}

proof fn lemma_pow256_values()
    ensures
        pow256(1) == 0x100,
        pow256(2) == 0x1_0000,
        pow256(4) == 0x1_0000_0000,
        pow256(8) == 0x1_0000_0000_0000_0000,
{
    reveal_with_fuel(pow256, 9);
}

/// Consumes `n` bytes and returns their little-endian value.
fn read_le(stream: &mut Stream, n: usize) -> (r: Result<u64, DecodeError>)
    requires
        old(stream).wf(),
        1 <= n <= 8,
    ensures
        final(stream).wf(),
        final(stream)@.len() <= old(stream)@.len(),
        match r {
            Ok(x) => take_le(old(stream)@, n as nat) == Ok::<(nat, Seq<u8>), DecodeError>(
                (x as nat, final(stream)@),
            ),
            Err(e) => take_le(old(stream)@, n as nat) == Err::<(nat, Seq<u8>), DecodeError>(e)
                && final(stream)@ == old(stream)@,
        },
{
    if stream.data.len() - stream.pos < n {
        return Err(DecodeError::UnexpectedEnd);
    }
    let ghost bytes = stream@.take(n as int);
    let mut acc: u64 = 0;
    let mut i: usize = n;
    proof {
        lemma_pow256_values();
        reveal_with_fuel(pow256, 9);
        assert(bytes.subrange(n as int, n as int) =~= Seq::<u8>::empty());
    }
    while i > 0
        invariant
            0 <= i <= n <= 8,
            stream.wf(),
            stream.pos + n <= stream.data.len(),
            bytes == stream@.take(n as int),
            acc as nat == le_nat(bytes.subrange(i as int, n as int)),
            pow256(8) == 0x1_0000_0000_0000_0000,
        decreases i,
    {
        let ghost tail = bytes.subrange(i as int, n as int);
        let ghost longer = bytes.subrange(i - 1, n as int);
        assert(longer.drop_first() =~= tail);
        proof {
            lemma_le_nat_bound(tail);
            lemma_pow_mono(tail.len(), 7);
        }
        let b = stream.data[stream.pos + i - 1];
        assert(b == longer[0]);
        assert(acc * 256 + b < 0x1_0000_0000_0000_0000) by (nonlinear_arith)
            requires
                acc < pow256(7),
                pow256(8) == 256 * pow256(7),
                pow256(8) == 0x1_0000_0000_0000_0000,
                b < 256,
        {}
        acc = acc * 256 + b as u64;
        i = i - 1;
    }
    assert(bytes.subrange(0, n as int) =~= bytes);
    let ghost before = stream@;
    stream.pos = stream.pos + n;
    assert(stream@ =~= before.skip(n as int));
    Ok(acc)
}

proof fn lemma_pow_mono(a: nat, b: nat)
    requires
        a <= b,
    ensures
        pow256(a) <= pow256(b),
    decreases b,
{
    if a < b {
        lemma_pow_mono(a, (b - 1) as nat);
    }
}

/// The value of the variable-length integer at the front of `b`: each byte
/// gives its low seven bits, the first byte the lowest, and a set high bit
/// says that another byte follows.
pub open spec fn spec_varint(b: Seq<u8>) -> Result<(nat, Seq<u8>), DecodeError>
    decreases b.len(),
{
    if b.len() == 0 {
        Err(DecodeError::UnexpectedEnd)
    } else if b[0] < 128 {
        Ok((b[0] as nat, b.drop_first()))
    } else {
        match spec_varint(b.drop_first()) {
            Ok((v, r)) => Ok((((b[0] - 128) + 128 * v) as nat, r)),
            Err(e) => Err(e),
        }
    }
}

/// A variable-length integer as `read_variable_length` reads it: any number
/// of bytes, refused only when the value does not fit in `usize`.
pub open spec fn spec_variable_length(b: Seq<u8>) -> Result<(usize, Seq<u8>), DecodeError> {
    match spec_varint(b) {
        Ok((v, r)) => if v <= usize::MAX {
            Ok((v as usize, r))
        } else {
            Err(DecodeError::BadVariableLength)
        },
        Err(e) => Err(e),
    }
}

/// A length-prefixed string: a variable-length byte count, then that many
/// bytes of UTF-8.
pub open spec fn spec_lps(b: Seq<u8>) -> Result<(Seq<char>, Seq<u8>), DecodeError> {
    match spec_variable_length(b) {
        Ok((n, r)) => if r.len() < n {
            Err(DecodeError::UnexpectedEnd)
        } else if valid_utf8(r.take(n as int)) {
            Ok((decode_utf8(r.take(n as int)), r.skip(n as int)))
        } else {
            Err(DecodeError::InvalidUtf8)
        },
        Err(e) => Err(e),
    }
}

/// Like `read_effect`, but says nothing of the stream after a failure.
pub open spec fn read_result<T>(
    after: Seq<u8>,
    r: Result<T, DecodeError>,
    spec_r: Result<(T, Seq<u8>), DecodeError>,
) -> bool {
    match r {
        Ok(x) => spec_r == Ok::<(T, Seq<u8>), DecodeError>((x, after)),
        Err(e) => spec_r == Err::<(T, Seq<u8>), DecodeError>(e),
    }
}

pub fn read_u8(stream: &mut Stream) -> (r: Result<u8, DecodeError>)
    requires
        old(stream).wf(),
    ensures
        final(stream).wf(),
        final(stream)@.len() <= old(stream)@.len(),
        read_effect(old(stream)@, final(stream)@, r, spec_u8(old(stream)@)),
{
    let x = read_le(stream, 1)?;
    proof {
        lemma_le_nat_bound(old(stream)@.take(1));
        lemma_pow256_values();
    }
    Ok(x as u8)
}

pub fn read_i8(stream: &mut Stream) -> (r: Result<i8, DecodeError>)
    requires
        old(stream).wf(),
    ensures
        final(stream).wf(),
        final(stream)@.len() <= old(stream)@.len(),
        read_effect(old(stream)@, final(stream)@, r, spec_i8(old(stream)@)),
{
    let x = read_le(stream, 1)?;
    proof {
        lemma_le_nat_bound(old(stream)@.take(1));
        lemma_pow256_values();
    }
    if x < 0x80 {
        Ok(x as i8)
    } else {
        Ok((x as i16 - 0x100) as i8)
    }
}

pub fn read_u16(stream: &mut Stream) -> (r: Result<u16, DecodeError>)
    requires
        old(stream).wf(),
    ensures
        final(stream).wf(),
        final(stream)@.len() <= old(stream)@.len(),
        read_effect(old(stream)@, final(stream)@, r, spec_u16(old(stream)@)),
{
    let x = read_le(stream, 2)?;
    proof {
        lemma_le_nat_bound(old(stream)@.take(2));
        lemma_pow256_values();
    }
    Ok(x as u16)
}

pub fn read_i16(stream: &mut Stream) -> (r: Result<i16, DecodeError>)
    requires
        old(stream).wf(),
    ensures
        final(stream).wf(),
        final(stream)@.len() <= old(stream)@.len(),
        read_effect(old(stream)@, final(stream)@, r, spec_i16(old(stream)@)),
{
    let x = read_le(stream, 2)?;
    proof {
        lemma_le_nat_bound(old(stream)@.take(2));
        lemma_pow256_values();
    }
    if x < 0x8000 {
        Ok(x as i16)
    } else {
        Ok((x as i32 - 0x1_0000) as i16)
    }
}

pub fn read_u32(stream: &mut Stream) -> (r: Result<u32, DecodeError>)
    requires
        old(stream).wf(),
    ensures
        final(stream).wf(),
        final(stream)@.len() <= old(stream)@.len(),
        read_effect(old(stream)@, final(stream)@, r, spec_u32(old(stream)@)),
{
    let x = read_le(stream, 4)?;
    proof {
        lemma_le_nat_bound(old(stream)@.take(4));
        lemma_pow256_values();
    }
    Ok(x as u32)
}

pub fn read_i32(stream: &mut Stream) -> (r: Result<i32, DecodeError>)
    requires
        old(stream).wf(),
    ensures
        final(stream).wf(),
        final(stream)@.len() <= old(stream)@.len(),
        read_effect(old(stream)@, final(stream)@, r, spec_i32(old(stream)@)),
{
    let x = read_le(stream, 4)?;
    proof {
        lemma_le_nat_bound(old(stream)@.take(4));
        lemma_pow256_values();
    }
    if x < 0x8000_0000 {
        Ok(x as i32)
    } else {
        Ok((x as i64 - 0x1_0000_0000) as i32)
    }
}

pub fn read_u64(stream: &mut Stream) -> (r: Result<u64, DecodeError>)
    requires
        old(stream).wf(),
    ensures
        final(stream).wf(),
        final(stream)@.len() <= old(stream)@.len(),
        read_effect(old(stream)@, final(stream)@, r, spec_u64(old(stream)@)),
{
    let x = read_le(stream, 8)?;
    Ok(x)
}

pub fn read_i64(stream: &mut Stream) -> (r: Result<i64, DecodeError>)
    requires
        old(stream).wf(),
    ensures
        final(stream).wf(),
        final(stream)@.len() <= old(stream)@.len(),
        read_effect(old(stream)@, final(stream)@, r, spec_i64(old(stream)@)),
{
    let x = read_le(stream, 8)?;
    proof {
        lemma_le_nat_bound(old(stream)@.take(8));
        lemma_pow256_values();
    }
    if x < 0x8000_0000_0000_0000 {
        Ok(x as i64)
    } else {
        Ok((x as i128 - 0x1_0000_0000_0000_0000) as i64)
    }
}

/// `spec_varint(b)` with its value scaled by `p` and raised by `base`.
pub open spec fn lift(
    r: Result<(nat, Seq<u8>), DecodeError>,
    base: nat,
    p: nat,
) -> Result<(nat, Seq<u8>), DecodeError> {
    match r {
        Ok((v, rest)) => Ok((base + p * v, rest)),
        Err(e) => Err(e),
    }
}

/// Reads a variable-length unsigned integer.
pub fn read_variable_length(stream: &mut Stream) -> (r: Result<usize, DecodeError>)
    requires
        old(stream).wf(),
    ensures
        final(stream).wf(),
        final(stream)@.len() <= old(stream)@.len(),
        read_result(final(stream)@, r, spec_variable_length(old(stream)@)),
{
    // `base` and `p` are the value of the groups read so far and the weight
    // of the next group; `acc` and `weight` hold them while they fit.
    let ghost start = stream@;
    let ghost mut base: nat = 0;
    let ghost mut p: nat = 1;
    let mut acc: usize = 0;
    let mut weight: usize = 1;
    let mut too_big: bool = false;
    let mut weight_big: bool = false;
    assert(lift(spec_varint(start), 0, 1) == spec_varint(start)) by {
        match spec_varint(start) {
            Ok((v, rest)) => assert(0 + 1 * v == v),
            Err(_) => {},
        }
    }
    loop
        invariant
            stream.wf(),
            start == old(stream)@,
            stream@.len() <= start.len(),
            spec_varint(start) == lift(spec_varint(stream@), base, p),
            p >= 1,
            !too_big ==> acc as nat == base,
            too_big ==> base > usize::MAX,
            !weight_big ==> weight as nat == p,
            weight_big ==> p > usize::MAX,
        decreases stream@.len(),
    {
        let ghost cur = stream@;
        let byte = read_u8(stream)?;
        proof {
            reveal_with_fuel(le_nat, 2);
            assert(cur.take(1).drop_first() =~= Seq::<u8>::empty());
            assert(stream@ =~= cur.drop_first());
        }
        let low: usize = if byte < 128 {
            byte as usize
        } else {
            (byte - 128) as usize
        };
        // The value so far plus this group's part.
        let ghost next_base: nat = (base + p * low) as nat;
        if !too_big && low != 0 {
            if weight_big {
                assert(p * low >= p) by (nonlinear_arith)
                    requires
                        low >= 1,
                ;
                too_big = true;
            } else {
                match weight.checked_mul(low) {
                    Some(part) => match acc.checked_add(part) {
                        Some(sum) => {
                            acc = sum;
                        },
                        None => {
                            too_big = true;
                        },
                    },
                    None => {
                        assert(base + p * low >= p * low);
                        too_big = true;
                    },
                }
            }
        }
        assert(too_big ==> next_base > usize::MAX);
        assert(!too_big ==> acc as nat == next_base);
        if byte < 128 {
            assert(spec_varint(cur) == Ok::<(nat, Seq<u8>), DecodeError>((byte as nat, stream@)));
            if too_big {
                return Err(DecodeError::BadVariableLength);
            }
            return Ok(acc);
        }
        proof {
            let rest_r = spec_varint(stream@);
            match rest_r {
                Ok((v, r2)) => {
                    assert(base + p * ((byte - 128) + 128 * v) == next_base + (p * 128) * v)
                        by (nonlinear_arith)
                        requires
                            next_base == base + p * low,
                            low == byte - 128,
                    ;
                },
                Err(_) => {},
            }
            assert(p * 128 >= 1) by (nonlinear_arith)
                requires
                    p >= 1,
            ;
            assert(p * 128 >= p) by (nonlinear_arith)
                requires
                    p >= 1,
            ;
        }
        if !weight_big {
            match weight.checked_mul(128) {
                Some(w) => {
                    weight = w;
                },
                None => {
                    weight_big = true;
                },
            }
        }
        proof {
            base = next_base;
            p = (p * 128) as nat;
        }
    }
}

/// Consumes exactly `n` bytes and hands them back.
fn read_exact(stream: &mut Stream, n: usize) -> (r: Result<Vec<u8>, DecodeError>)
    requires
        old(stream).wf(),
    ensures
        final(stream).wf(),
        final(stream)@.len() <= old(stream)@.len(),
        match r {
            Ok(v) => {
                &&& old(stream)@.len() >= n
                &&& v@ == old(stream)@.take(n as int)
                &&& final(stream)@ == old(stream)@.skip(n as int)
            },
            Err(e) => {
                &&& old(stream)@.len() < n
                &&& e == DecodeError::UnexpectedEnd
                &&& final(stream)@ == old(stream)@
            },
        },
{
    if stream.data.len() - stream.pos < n {
        return Err(DecodeError::UnexpectedEnd);
    }
    let mut out: Vec<u8> = Vec::with_capacity(n);
    let mut i: usize = 0;
    while i < n
        invariant
            stream.wf(),
            stream.pos + n <= stream.data.len(),
            i <= n,
            out@ == stream@.take(i as int),
        decreases n - i,
    {
        out.push(stream.data[stream.pos + i]);
        assert(out@ =~= stream@.take(i + 1));
        i = i + 1;
    }
    let ghost before = stream@;
    stream.pos = stream.pos + n;
    assert(stream@ =~= before.skip(n as int));
    Ok(out)
}

/// Relies on String::from_utf8: it succeeds exactly on valid UTF-8 and
/// then holds the characters those bytes encode.
#[verifier::external_body]
fn string_from_utf8(b: Vec<u8>) -> (r: Option<String>)
    ensures
        r is Some <==> valid_utf8(b@),
        r is Some ==> r->0@ == decode_utf8(b@),
{
    String::from_utf8(b).ok()
}

/// Reads a length-prefixed UTF-8 string.
pub fn read_lps(stream: &mut Stream) -> (r: Result<String, DecodeError>)
    requires
        old(stream).wf(),
    ensures
        final(stream).wf(),
        final(stream)@.len() <= old(stream)@.len(),
        match r {
            Ok(s) => spec_lps(old(stream)@) == Ok::<(Seq<char>, Seq<u8>), DecodeError>(
                (s@, final(stream)@),
            ),
            Err(e) => spec_lps(old(stream)@) == Err::<(Seq<char>, Seq<u8>), DecodeError>(e),
        },
{
    let n = read_variable_length(stream)?;
    let data = read_exact(stream, n)?;
    match string_from_utf8(data) {
        Some(s) => Ok(s),
        None => Err(DecodeError::InvalidUtf8),
    }
}

} // verus!
