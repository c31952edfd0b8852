//! Strict binary wire encoding: fixed-width little-endian integers and
//! length-prefixed variable-size fields. A "small" field takes a 2-byte
//! length prefix, a "medium" field a 3-byte prefix bounding it to
//! `2^24 - 1` bytes — the size ceiling of one transport packet.

use vstd::prelude::*;
use vstd::bytes::*;
use vstd::slice::{slice_subrange, slice_to_vec};
use vstd::pervasive::proof_from_false;

verus! {

broadcast use vstd::seq_lib::group_seq_lib_default, vstd::array::group_array_axioms;

/// Largest byte length a medium (3-byte prefixed) field can carry.
pub const MAX_MEDIUM_LEN: u32 = 0xFF_FFFF;

/// Error raised by decoding malformed or truncated wire bytes; always
/// recoverable locally by rejecting the frame.
#[derive(Copy, Clone, Debug, PartialEq, Eq, Structural)]
pub enum DecodeError {
    /// The input ended before the field under decode was complete.
    Truncated,
    /// A byte that must be ASCII is not.
    NonAscii,
    /// A collection that must be strictly ascending is not.
    UnorderedSet,
    /// A length prefix exceeds the ceiling its field allows.
    Oversize,
    /// A protocol message carries an unknown type code.
    UnknownType,
    /// A decoded frame left unconsumed trailing bytes.
    TrailingBytes,
}

// --- Unsigned integers, little endian ---

/// Encoding of a byte: itself.
pub open spec fn enc_u8(x: u8) -> Seq<u8> {
    seq![x]
}

/// Decode a byte at position `i`.
pub open spec fn dec_u8_at(s: Seq<u8>, i: int) -> Result<(u8, int), DecodeError> {
    if 0 <= i && i + 1 <= s.len() {
        Ok((s[i], i + 1))
    } else {
        Err(DecodeError::Truncated)
    }
}

/// Encoding of a 16-bit integer: two bytes, little endian.
pub open spec fn enc_u16(x: u16) -> Seq<u8> {
    spec_u16_to_le_bytes(x)
}

/// Decode a 16-bit little-endian integer at position `i`.
pub open spec fn dec_u16_at(s: Seq<u8>, i: int) -> Result<(u16, int), DecodeError> {
    if 0 <= i && i + 2 <= s.len() {
        Ok((spec_u16_from_le_bytes(s.subrange(i, i + 2)), i + 2))
    } else {
        Err(DecodeError::Truncated)
    }
}

/// Encoding of a 24-bit integer: three bytes, little endian.
pub open spec fn enc_u24(x: u32) -> Seq<u8>
    recommends
        x <= MAX_MEDIUM_LEN,
{
    seq![(x & 0xff) as u8, ((x >> 8) & 0xff) as u8, ((x >> 16) & 0xff) as u8]
}

/// The 24-bit integer held by three little-endian bytes.
pub open spec fn u24_of_bytes(b0: u8, b1: u8, b2: u8) -> u32 {
    (b0 as u32) | ((b1 as u32) << 8) | ((b2 as u32) << 16)
}

/// Decode a 24-bit little-endian integer at position `i`.
pub open spec fn dec_u24_at(s: Seq<u8>, i: int) -> Result<(u32, int), DecodeError> {
    if 0 <= i && i + 3 <= s.len() {
        Ok((u24_of_bytes(s[i], s[i + 1], s[i + 2]), i + 3))
    } else {
        Err(DecodeError::Truncated)
    }
}

/// Encoding of a 64-bit integer: eight bytes, little endian.
pub open spec fn enc_u64(x: u64) -> Seq<u8> {
    spec_u64_to_le_bytes(x)
}

/// Decode a 64-bit little-endian integer at position `i`.
pub open spec fn dec_u64_at(s: Seq<u8>, i: int) -> Result<(u64, int), DecodeError> {
    if 0 <= i && i + 8 <= s.len() {
        Ok((spec_u64_from_le_bytes(s.subrange(i, i + 8)), i + 8))
    } else {
        Err(DecodeError::Truncated)
    }
}

// --- Byte strings with a length prefix ---

/// Encoding of a small byte string: 2-byte length, then the bytes.
pub open spec fn enc_bytes16(b: Seq<u8>) -> Seq<u8>
    recommends
        b.len() <= u16::MAX,
{
    enc_u16(b.len() as u16) + b
}

/// Decode a small byte string at position `i`.
pub open spec fn dec_bytes16_at(s: Seq<u8>, i: int) -> Result<(Seq<u8>, int), DecodeError> {
    match dec_u16_at(s, i) {
        Err(e) => Err(e),
        Ok((n, j)) => if j + n <= s.len() {
            Ok((s.subrange(j, j + n), j + n))
        } else {
            Err(DecodeError::Truncated)
        },
    }
}

/// Encoding of a medium byte string: 3-byte length, then the bytes.
pub open spec fn enc_bytes24(b: Seq<u8>) -> Seq<u8>
    recommends
        b.len() <= MAX_MEDIUM_LEN,
{
    enc_u24(b.len() as u32) + b
}

/// Decode a medium byte string at position `i`.
pub open spec fn dec_bytes24_at(s: Seq<u8>, i: int) -> Result<(Seq<u8>, int), DecodeError> {
    match dec_u24_at(s, i) {
        Err(e) => Err(e),
        Ok((n, j)) => if j + n <= s.len() {
            Ok((s.subrange(j, j + n), j + n))
        } else {
            Err(DecodeError::Truncated)
        },
    }
}

// --- Fixed-width 32-byte identifiers ---

/// Decode 32 raw bytes at position `i`; identifiers encode without a prefix.
pub open spec fn dec_id32_at(s: Seq<u8>, i: int) -> Result<(Seq<u8>, int), DecodeError> {
    if 0 <= i && i + 32 <= s.len() {
        Ok((s.subrange(i, i + 32), i + 32))
    } else {
        Err(DecodeError::Truncated)
    }
}

// --- Executable writers ---

/// Appends one byte.
pub fn write_u8(out: &mut Vec<u8>, x: u8)
    ensures
        final(out)@ == old(out)@ + enc_u8(x),
{
    out.push(x);
    assert(out@ =~= old(out)@ + enc_u8(x));
}

/// Appends a 16-bit integer, little endian.
pub fn write_u16(out: &mut Vec<u8>, x: u16)
    ensures
        final(out)@ == old(out)@ + enc_u16(x),
{
    let mut le = u16_to_le_bytes(x);
    out.append(&mut le);
}

/// Appends a 24-bit integer, little endian.
pub fn write_u24(out: &mut Vec<u8>, x: u32)
    requires
        x <= MAX_MEDIUM_LEN,
    ensures
        final(out)@ == old(out)@ + enc_u24(x),
{
    out.push((x & 0xff) as u8);
    out.push(((x >> 8) & 0xff) as u8);
    out.push(((x >> 16) & 0xff) as u8);
    assert(out@ =~= old(out)@ + enc_u24(x));
}

/// Appends a 64-bit integer, little endian.
pub fn write_u64(out: &mut Vec<u8>, x: u64)
    ensures
        final(out)@ == old(out)@ + enc_u64(x),
{
    let mut le = u64_to_le_bytes(x);
    out.append(&mut le);
}

/// Appends raw bytes with no prefix.
pub fn write_raw(out: &mut Vec<u8>, b: &[u8])
    ensures
        final(out)@ == old(out)@ + b@,
{
    let n = b.len();
    let mut k: usize = 0;
    while k < n
        invariant
            k <= n,
            n == b@.len(),
            out@ == old(out)@ + b@.subrange(0, k as int),
        decreases n - k,
    {
        out.push(b[k]);
        k += 1;
        assert(out@ =~= old(out)@ + b@.subrange(0, k as int));
    }
    assert(out@ =~= old(out)@ + b@);
}

/// Appends a small byte string: 2-byte length, then the bytes.
pub fn write_bytes16(out: &mut Vec<u8>, b: &Vec<u8>)
    requires
        b@.len() <= u16::MAX,
    ensures
        final(out)@ == old(out)@ + enc_bytes16(b@),
{
    write_u16(out, b.len() as u16);
    write_raw(out, b.as_slice());
    assert(out@ =~= old(out)@ + enc_bytes16(b@));
}

/// Appends a medium byte string: 3-byte length, then the bytes.
pub fn write_bytes24(out: &mut Vec<u8>, b: &Vec<u8>)
    requires
        b@.len() <= MAX_MEDIUM_LEN,
    ensures
        final(out)@ == old(out)@ + enc_bytes24(b@),
{
    write_u24(out, b.len() as u32);
    write_raw(out, b.as_slice());
    assert(out@ =~= old(out)@ + enc_bytes24(b@));
}

// --- Executable readers ---

/// Reads one byte.
pub fn read_u8(buf: &Vec<u8>, pos: &mut usize) -> (r: Result<u8, DecodeError>)
    ensures
        match dec_u8_at(buf@, *old(pos) as int) {
            Ok(v) => r == Ok::<u8, DecodeError>(v.0) && *final(pos) == v.1,
            Err(e) => r == Err::<u8, DecodeError>(e) && *final(pos) == *old(pos),
        },
{
    if *pos < buf.len() {
        let b = buf[*pos];
        *pos += 1;
        Ok(b)
    } else {
        Err(DecodeError::Truncated)
    }
}

/// Reads a 16-bit little-endian integer.
pub fn read_u16(buf: &Vec<u8>, pos: &mut usize) -> (r: Result<u16, DecodeError>)
    ensures
        match dec_u16_at(buf@, *old(pos) as int) {
            Ok(v) => r == Ok::<u16, DecodeError>(v.0) && *final(pos) == v.1,
            Err(e) => r == Err::<u16, DecodeError>(e) && *final(pos) == *old(pos),
        },
{
    if *pos <= buf.len() && buf.len() - *pos >= 2 {
        let sub = slice_subrange(buf.as_slice(), *pos, *pos + 2);
        let x = u16_from_le_bytes(sub);
        *pos += 2;
        Ok(x)
    } else {
        Err(DecodeError::Truncated)
    }
}

/// Reads a 24-bit little-endian integer.
pub fn read_u24(buf: &Vec<u8>, pos: &mut usize) -> (r: Result<u32, DecodeError>)
    ensures
        match dec_u24_at(buf@, *old(pos) as int) {
            Ok(v) => r == Ok::<u32, DecodeError>(v.0) && *final(pos) == v.1 && v.0 <= MAX_MEDIUM_LEN,
            Err(e) => r == Err::<u32, DecodeError>(e) && *final(pos) == *old(pos),
        },
{
    if *pos <= buf.len() && buf.len() - *pos >= 3 {
        let b0 = buf[*pos];
        let b1 = buf[*pos + 1];
        let b2 = buf[*pos + 2];
        let x = (b0 as u32) | ((b1 as u32) << 8) | ((b2 as u32) << 16);
        proof {
            let v0 = b0 as u32;
            let v1 = b1 as u32;
            let v2 = b2 as u32;
            assert(v0 < 256 && v1 < 256 && v2 < 256 ==> (v0 | (v1 << 8) | (v2 << 16))
                <= 0xFF_FFFFu32) by (bit_vector);
        }
        *pos += 3;
        Ok(x)
    } else {
        Err(DecodeError::Truncated)
    }
}

/// Reads a 64-bit little-endian integer.
pub fn read_u64(buf: &Vec<u8>, pos: &mut usize) -> (r: Result<u64, DecodeError>)
    ensures
        match dec_u64_at(buf@, *old(pos) as int) {
            Ok(v) => r == Ok::<u64, DecodeError>(v.0) && *final(pos) == v.1,
            Err(e) => r == Err::<u64, DecodeError>(e) && *final(pos) == *old(pos),
        },
{
    if *pos <= buf.len() && buf.len() - *pos >= 8 {
        let sub = slice_subrange(buf.as_slice(), *pos, *pos + 8);
        let x = u64_from_le_bytes(sub);
        *pos += 8;
        Ok(x)
    } else {
        Err(DecodeError::Truncated)
    }
}

/// Reads a small byte string: 2-byte length, then the bytes.
pub fn read_bytes16(buf: &Vec<u8>, pos: &mut usize) -> (r: Result<Vec<u8>, DecodeError>)
    ensures
        match dec_bytes16_at(buf@, *old(pos) as int) {
            Ok(v) => r matches Ok(b) && b@ == v.0 && *final(pos) == v.1,
            Err(e) => r matches Err(e2) && e2 == e,
        },
{
    let n = match read_u16(buf, pos) {
        Ok(n) => n,
        Err(e) => { return Err(e); },
    };
    if *pos <= buf.len() && buf.len() - *pos >= n as usize {
        let sub = slice_subrange(buf.as_slice(), *pos, *pos + n as usize);
        let v = slice_to_vec(sub);
        *pos += n as usize;
        Ok(v)
    } else {
        Err(DecodeError::Truncated)
    }
}

/// Reads a medium byte string: 3-byte length, then the bytes.
pub fn read_bytes24(buf: &Vec<u8>, pos: &mut usize) -> (r: Result<Vec<u8>, DecodeError>)
    ensures
        match dec_bytes24_at(buf@, *old(pos) as int) {
            Ok(v) => r matches Ok(b) && b@ == v.0 && *final(pos) == v.1 && v.0.len() <= MAX_MEDIUM_LEN,
            Err(e) => r matches Err(e2) && e2 == e,
        },
{
    let n = match read_u24(buf, pos) {
        Ok(n) => n,
        Err(e) => { return Err(e); },
    };
    if *pos <= buf.len() && buf.len() - *pos >= n as usize {
        let sub = slice_subrange(buf.as_slice(), *pos, *pos + n as usize);
        let v = slice_to_vec(sub);
        *pos += n as usize;
        Ok(v)
    } else {
        Err(DecodeError::Truncated)
    }
}

/// Appends a 32-byte identifier, raw.
pub fn write_id32(out: &mut Vec<u8>, id: &[u8; 32])
    ensures
        final(out)@ == old(out)@ + id@,
{
    write_raw(out, id.as_slice());
}

/// Reads a 32-byte identifier.
pub fn read_id32(buf: &Vec<u8>, pos: &mut usize) -> (r: Result<[u8; 32], DecodeError>)
    ensures
        match dec_id32_at(buf@, *old(pos) as int) {
            Ok(v) => r matches Ok(a) && a@ == v.0 && *final(pos) == v.1,
            Err(e) => r matches Err(e2) && e2 == e && *final(pos) == *old(pos),
        },
{
    if *pos <= buf.len() && buf.len() - *pos >= 32 {
        let p: usize = *pos;
        let n: usize = buf.len();
        let mut arr = [0u8; 32];
        let mut k: usize = 0;
        while k < 32
            invariant
                k <= 32,
                p + 32 <= n,
                n == buf@.len(),
                arr@.len() == 32,
                forall|m: int| 0 <= m < k ==> arr@[m] == buf@[p + m],
            decreases 32 - k,
        {
            arr[k] = buf[p + k];
            k += 1;
        }
        assert(arr@ =~= buf@.subrange(p as int, p as int + 32));
        *pos = p + 32;
        Ok(arr)
    } else {
        Err(DecodeError::Truncated)
    }
}

// --- Lists of 32-byte identifiers ---

/// A 32-byte wire identifier: 32 raw bytes on the wire, with a total
/// lexicographic order where a protocol field demands a sorted set.
pub trait WireId where Self: Sized {
    /// The identifier's 32 digest bytes, as the contracts speak of them.
    spec fn idv(&self) -> Seq<u8>;

    /// Borrows the raw digest bytes.
    fn raw(&self) -> (r: &[u8; 32])
        ensures
            r@ == self.idv(),
    ;

    /// Wraps raw digest bytes.
    fn from_raw(a: [u8; 32]) -> (r: Self)
        ensures
            r.idv() == a@,
    ;
}

/// The views of a list of identifiers.
pub open spec fn id_views<T: WireId>(ids: Seq<T>) -> Seq<Seq<u8>> {
    ids.map_values(|t: T| t.idv())
}

/// Compares two identifier lists for equality.
pub fn eq_ids<T: WireId>(a: &Vec<T>, b: &Vec<T>) -> (r: bool)
    ensures
        r == (id_views(a@) == id_views(b@)),
{
    if a.len() != b.len() {
        assert(id_views(a@).len() != id_views(b@).len());
        return false;
    }
    let n = a.len();
    let mut k: usize = 0;
    while k < n
        invariant
            k <= n,
            n == a@.len(),
            n == b@.len(),
            forall|m: int| 0 <= m < k ==> #[trigger] id_views(a@)[m] == id_views(b@)[m],
        decreases n - k,
    {
        if !eq32(a[k].raw(), b[k].raw()) {
            assert(id_views(a@)[k as int] != id_views(b@)[k as int]);
            return false;
        }
        k += 1;
    }
    assert(id_views(a@) =~= id_views(b@));
    true
}

/// Compares two 32-byte identifiers for equality.
pub fn eq32(a: &[u8; 32], b: &[u8; 32]) -> (r: bool)
    ensures
        r == (a@ == b@),
{
    let mut k: usize = 0;
    while k < 32
        invariant
            k <= 32,
            forall|m: int| 0 <= m < k ==> a@[m] == b@[m],
        decreases 32 - k,
    {
        if a[k] != b[k] {
            assert(a@ != b@);
            return false;
        }
        k += 1;
    }
    assert(a@ =~= b@);
    true
}

/// Concatenation of identifiers, each 32 raw bytes.
pub open spec fn enc_ids(ids: Seq<Seq<u8>>) -> Seq<u8>
    decreases ids.len(),
{
    if ids.len() == 0 {
        Seq::empty()
    } else {
        ids[0] + enc_ids(ids.skip(1))
    }
}

/// Decode `n` identifiers of 32 raw bytes each at position `i`.
pub open spec fn dec_ids_at(s: Seq<u8>, i: int, n: nat) -> Result<(Seq<Seq<u8>>, int), DecodeError>
    decreases n,
{
    if n == 0 {
        Ok((Seq::empty(), i))
    } else {
        match dec_id32_at(s, i) {
            Err(e) => Err(e),
            Ok((a, j)) => match dec_ids_at(s, j, (n - 1) as nat) {
                Err(e) => Err(e),
                Ok((rest, k)) => Ok((seq![a] + rest, k)),
            },
        }
    }
}

/// The concatenation of identifier encodings is 32 bytes per identifier.
pub proof fn lemma_enc_ids_len(ids: Seq<Seq<u8>>)
    requires
        forall|k: int| 0 <= k < ids.len() ==> #[trigger] ids[k].len() == 32,
    ensures
        enc_ids(ids).len() == 32 * ids.len(),
    decreases ids.len(),
{
    if ids.len() > 0 {
        lemma_enc_ids_len(ids.skip(1));
    }
}

/// A list of identifiers decodes back from wherever its encoding sits.
pub proof fn lemma_dec_ids(s: Seq<u8>, i: int, ids: Seq<Seq<u8>>)
    requires
        0 <= i,
        forall|k: int| 0 <= k < ids.len() ==> #[trigger] ids[k].len() == 32,
        i + 32 * ids.len() <= s.len(),
        s.subrange(i, i + 32 * ids.len()) == enc_ids(ids),
    ensures
        dec_ids_at(s, i, ids.len()) == Ok::<(Seq<Seq<u8>>, int), DecodeError>(
            (ids, i + 32 * ids.len()),
        ),
    decreases ids.len(),
{
    if ids.len() > 0 {
        let head = ids[0];
        let rest = ids.skip(1);
        lemma_enc_ids_len(rest);
        lemma_subrange_split(s, i, head, enc_ids(rest));
        lemma_dec_id32(s, i, head);
        lemma_dec_ids(s, i + 32, rest);
        assert(seq![head] + rest =~= ids);
    } else {
        assert(dec_ids_at(s, i, 0) == Ok::<(Seq<Seq<u8>>, int), DecodeError>(
            (Seq::<Seq<u8>>::empty(), i),
        ));
        assert(ids =~= Seq::<Seq<u8>>::empty());
    }
}

/// Appends a list of identifiers, raw and unprefixed.
pub fn write_ids<T: WireId>(out: &mut Vec<u8>, ids: &Vec<T>)
    ensures
        final(out)@ == old(out)@ + enc_ids(id_views(ids@)),
{
    let n = ids.len();
    let mut k: usize = 0;
    while k < n
        invariant
            k <= n,
            n == ids@.len(),
            out@ == old(out)@ + enc_ids(id_views(ids@.subrange(0, k as int))),
        decreases n - k,
    {
        proof {
            lemma_enc_ids_snoc(id_views(ids@.subrange(0, k as int)), ids@[k as int].idv());
            assert(id_views(ids@.subrange(0, k + 1)) =~= id_views(ids@.subrange(0, k as int)).push(
                ids@[k as int].idv(),
            ));
        }
        write_id32(out, ids[k].raw());
        k += 1;
    }
    assert(ids@.subrange(0, n as int) =~= ids@);
}

/// Appending one identifier to a list extends the concatenation by its bytes.
pub proof fn lemma_enc_ids_snoc(ids: Seq<Seq<u8>>, a: Seq<u8>)
    ensures
        enc_ids(ids.push(a)) == enc_ids(ids) + a,
    decreases ids.len(),
{
    if ids.len() == 0 {
        assert(ids.push(a)[0] == a);
        assert(ids.push(a).skip(1) =~= Seq::<Seq<u8>>::empty());
        assert(enc_ids(Seq::<Seq<u8>>::empty()) == Seq::<u8>::empty());
        assert(enc_ids(ids.push(a)) == a + Seq::<u8>::empty());
        assert(a + Seq::<u8>::empty() =~= a);
        assert(enc_ids(ids) + a =~= a);
    } else {
        assert(ids.push(a)[0] == ids[0]);
        assert(ids.push(a).skip(1) =~= ids.skip(1).push(a));
        lemma_enc_ids_snoc(ids.skip(1), a);
        assert(enc_ids(ids.push(a)) == ids[0] + (enc_ids(ids.skip(1)) + a));
        assert(ids[0] + (enc_ids(ids.skip(1)) + a) =~= (ids[0] + enc_ids(ids.skip(1))) + a);
    }
}

/// Reads `n` identifiers of 32 raw bytes each.
pub fn read_ids<T: WireId>(buf: &Vec<u8>, pos: &mut usize, n: usize) -> (r: Result<
    Vec<T>,
    DecodeError,
>)
    ensures
        match dec_ids_at(buf@, *old(pos) as int, n as nat) {
            Ok(v) => r matches Ok(ids) && id_views(ids@) == v.0 && ids@.len() == n && *final(pos)
                == v.1,
            Err(e) => r matches Err(e2) && e2 == e,
        },
{
    let mut ids: Vec<T> = Vec::new();
    let mut k: usize = 0;
    proof {
        assert(id_views(ids@) =~= Seq::<Seq<u8>>::empty());
    }
    while k < n
        invariant
            k <= n,
            ids@.len() == k,
            dec_ids_at(buf@, *old(pos) as int, k as nat) == Ok::<(Seq<Seq<u8>>, int), DecodeError>(
                (id_views(ids@), *pos as int),
            ),
        decreases n - k,
    {
        let a = match read_id32(buf, pos) {
            Ok(a) => a,
            Err(e) => {
                proof {
                    lemma_dec_ids_prefix_err(buf@, *old(pos) as int, k as nat, n as nat, id_views(
                        ids@,
                    ), *pos as int, e);
                }
                return Err(e);
            },
        };
        let ghost prev = ids@;
        let t = T::from_raw(a);
        ids.push(t);
        k += 1;
        proof {
            lemma_dec_ids_prefix_step(buf@, *old(pos) as int, (k - 1) as nat, id_views(prev), a@);
            assert(id_views(ids@) =~= id_views(prev).push(a@));
        }
    }
    Ok(ids)
}

/// If `k` identifiers decode and the next one fails, decoding more than `k`
/// fails the same way.
proof fn lemma_dec_ids_prefix_err(
    s: Seq<u8>,
    i: int,
    k: nat,
    n: nat,
    pre: Seq<Seq<u8>>,
    j: int,
    e: DecodeError,
)
    requires
        k < n,
        dec_ids_at(s, i, k) == Ok::<(Seq<Seq<u8>>, int), DecodeError>((pre, j)),
        dec_id32_at(s, j) == Err::<(Seq<u8>, int), DecodeError>(e),
    ensures
        dec_ids_at(s, i, n) == Err::<(Seq<Seq<u8>>, int), DecodeError>(e),
    decreases k,
{
    if k == 0 {
        lemma_dec_ids_err_propagates(s, j, (n - 1) as nat, e);
    } else {
        let (a, j1) = match dec_id32_at(s, i) {
            Ok(v) => v,
            Err(_) => { proof_from_false() },
        };
        let (rest, _) = match dec_ids_at(s, j1, (k - 1) as nat) {
            Ok(v) => v,
            Err(_) => { proof_from_false() },
        };
        lemma_dec_ids_prefix_err(s, j1, (k - 1) as nat, (n - 1) as nat, rest, j, e);
    }
}

/// A failing head identifier fails the whole list decode with its error.
proof fn lemma_dec_ids_err_propagates(s: Seq<u8>, j: int, m: nat, e: DecodeError)
    requires
        dec_id32_at(s, j) == Err::<(Seq<u8>, int), DecodeError>(e),
    ensures
        dec_ids_at(s, j, (m + 1) as nat) == Err::<(Seq<Seq<u8>>, int), DecodeError>(e),
{
}

/// Decoding `k + 1` identifiers extends decoding `k` by one more.
proof fn lemma_dec_ids_prefix_step(s: Seq<u8>, i: int, k: nat, pre: Seq<Seq<u8>>, a: Seq<u8>)
    requires
        dec_ids_at(s, i, k) matches Ok(v) && v.0 == pre,
        dec_id32_at(s, dec_ids_at(s, i, k)->Ok_0.1) matches Ok(w) && w.0 == a,
    ensures
        dec_ids_at(s, i, (k + 1) as nat) == Ok::<(Seq<Seq<u8>>, int), DecodeError>(
            (pre.push(a), dec_id32_at(s, dec_ids_at(s, i, k)->Ok_0.1)->Ok_0.1),
        ),
    decreases k,
{
    let j = dec_ids_at(s, i, k)->Ok_0.1;
    let nxt = dec_id32_at(s, j)->Ok_0.1;
    if k == 0 {
        assert(j == i && pre == Seq::<Seq<u8>>::empty());
        assert(dec_ids_at(s, nxt, 0) == Ok::<(Seq<Seq<u8>>, int), DecodeError>(
            (Seq::<Seq<u8>>::empty(), nxt),
        ));
        assert(dec_ids_at(s, i, 1) == Ok::<(Seq<Seq<u8>>, int), DecodeError>(
            (seq![a] + Seq::<Seq<u8>>::empty(), nxt),
        ));
        assert(seq![a] + Seq::<Seq<u8>>::empty() =~= pre.push(a));
    } else {
        let (h, j1) = match dec_id32_at(s, i) {
            Ok(v) => v,
            Err(_) => { proof_from_false() },
        };
        let (rest, _) = match dec_ids_at(s, j1, (k - 1) as nat) {
            Ok(v) => v,
            Err(_) => { proof_from_false() },
        };
        assert(pre == seq![h] + rest);
        lemma_dec_ids_prefix_step(s, j1, (k - 1) as nat, rest, a);
        assert(dec_ids_at(s, i, (k + 1) as nat) == Ok::<(Seq<Seq<u8>>, int), DecodeError>(
            (seq![h] + rest.push(a), nxt),
        ));
        assert(seq![h] + rest.push(a) =~= (seq![h] + rest).push(a));
    }
}

// --- Lexicographic order on identifiers ---

/// Strict lexicographic byte order, the order a sorted identifier set is
/// serialized in.
pub open spec fn lex_lt(a: Seq<u8>, b: Seq<u8>) -> bool
    decreases a.len() + b.len(),
{
    if b.len() == 0 {
        false
    } else if a.len() == 0 {
        true
    } else if a[0] < b[0] {
        true
    } else if a[0] > b[0] {
        false
    } else {
        lex_lt(a.skip(1), b.skip(1))
    }
}

/// A list of identifier views is strictly ascending.
pub open spec fn sorted_ids(ids: Seq<Seq<u8>>) -> bool {
    forall|k: int| 0 <= k && k + 1 < ids.len() ==> lex_lt(#[trigger] ids[k], ids[k + 1])
}

/// Compares two 32-byte identifiers from position `k` on.
fn lex_lt32_from(a: &[u8; 32], b: &[u8; 32], k: usize) -> (r: bool)
    requires
        k <= 32,
    ensures
        r == lex_lt(a@.skip(k as int), b@.skip(k as int)),
    decreases 32 - k,
{
    if k == 32 {
        assert(b@.skip(32).len() == 0);
        false
    } else {
        assert(a@.skip(k as int)[0] == a@[k as int]);
        assert(b@.skip(k as int)[0] == b@[k as int]);
        if a[k] < b[k] {
            true
        } else if a[k] > b[k] {
            false
        } else {
            let r = lex_lt32_from(a, b, k + 1);
            proof {
                assert(a@.skip(k as int).skip(1) =~= a@.skip(k + 1));
                assert(b@.skip(k as int).skip(1) =~= b@.skip(k + 1));
            }
            r
        }
    }
}

/// Compares two 32-byte identifiers in strict lexicographic order.
pub fn lex_lt32(a: &[u8; 32], b: &[u8; 32]) -> (r: bool)
    ensures
        r == lex_lt(a@, b@),
{
    let r = lex_lt32_from(a, b, 0);
    proof {
        assert(a@.skip(0) =~= a@);
        assert(b@.skip(0) =~= b@);
    }
    r
}

/// The lexicographic order is irreflexive and total: distinct sequences of
/// equal length compare one way or the other, never both.
pub proof fn lemma_lex_lt_trichotomy(a: Seq<u8>, b: Seq<u8>)
    requires
        a.len() == b.len(),
    ensures
        a == b <==> !lex_lt(a, b) && !lex_lt(b, a),
        !(lex_lt(a, b) && lex_lt(b, a)),
    decreases a.len(),
{
    if a.len() == 0 {
        assert(a =~= b);
    } else {
        lemma_lex_lt_trichotomy(a.skip(1), b.skip(1));
        if a[0] == b[0] && a.skip(1) == b.skip(1) {
            assert forall|k: int| 0 <= k < a.len() implies a[k] == b[k] by {
                if k > 0 {
                    assert(a.skip(1)[k - 1] == b.skip(1)[k - 1]);
                }
            }
            assert(a =~= b);
        }
        if a == b {
            assert(a.skip(1) =~= b.skip(1));
        }
    }
}

/// The lexicographic order is transitive.
pub proof fn lemma_lex_lt_transitive(a: Seq<u8>, b: Seq<u8>, c: Seq<u8>)
    requires
        a.len() == b.len(),
        b.len() == c.len(),
        lex_lt(a, b),
        lex_lt(b, c),
    ensures
        lex_lt(a, c),
    decreases a.len(),
{
    if a.len() > 0 {
        if a[0] == b[0] && b[0] == c[0] {
            lemma_lex_lt_transitive(a.skip(1), b.skip(1), c.skip(1));
        }
    }
}

/// Inserts an identifier into a strictly ascending list, keeping it
/// strictly ascending. An identifier already present is left alone, so the
/// list behaves as a sorted set.
pub fn insert_sorted_id<T: WireId>(ids: &mut Vec<T>, id: T)
    requires
        sorted_ids(id_views(old(ids)@)),
        forall|m: int| 0 <= m < old(ids)@.len() ==> (#[trigger] old(ids)@[m].idv()).len() == 32,
        id.idv().len() == 32,
    ensures
        sorted_ids(id_views(final(ids)@)),
        forall|m: int| 0 <= m < final(ids)@.len() ==> (#[trigger] final(ids)@[m].idv()).len() == 32,
        id_views(final(ids)@).contains(id.idv()),
        forall|v: Seq<u8>|
            #[trigger] id_views(final(ids)@).contains(v) <==> id_views(old(ids)@).contains(v) || v
                == id.idv(),
        final(ids)@.len() <= old(ids)@.len() + 1,
{
    let n = ids.len();
    let mut k: usize = 0;
    while k < n
        invariant
            k <= n,
            n == ids@.len(),
            ids@ == old(ids)@,
            sorted_ids(id_views(ids@)),
            forall|m: int| 0 <= m < ids@.len() ==> (#[trigger] ids@[m].idv()).len() == 32,
            id.idv().len() == 32,
            forall|m: int| 0 <= m < k ==> lex_lt(#[trigger] id_views(ids@)[m], id.idv()),
        decreases n - k,
    {
        if !lex_lt32(ids[k].raw(), id.raw()) {
            if eq32(ids[k].raw(), id.raw()) {
                assert(id_views(ids@)[k as int] == id.idv());
                assert(id_views(ids@).contains(id.idv()));
                return ;
            }
            proof {
                lemma_lex_lt_trichotomy(ids@[k as int].idv(), id.idv());
                lemma_insert_sorted_facts(id_views(ids@), id.idv(), k as int);
            }
            ids.insert(k, id);
            proof {
                assert(id_views(ids@) =~= id_views(old(ids)@).insert(k as int, id.idv()));
            }
            return ;
        }
        k += 1;
    }
    proof {
        lemma_insert_sorted_facts(id_views(ids@), id.idv(), n as int);
    }
    ids.push(id);
    proof {
        assert(id_views(ids@) =~= id_views(old(ids)@).insert(n as int, id.idv()));
    }
}

/// Inserting a fresh identifier at its order position keeps a list
/// strictly ascending, and the new list holds exactly the old views plus
/// the inserted one.
proof fn lemma_insert_sorted_facts(views: Seq<Seq<u8>>, v: Seq<u8>, p: int)
    requires
        sorted_ids(views),
        v.len() == 32,
        forall|m: int| 0 <= m < views.len() ==> (#[trigger] views[m]).len() == 32,
        0 <= p <= views.len(),
        forall|m: int| 0 <= m < p ==> lex_lt(#[trigger] views[m], v),
        p < views.len() ==> lex_lt(v, views[p]),
    ensures
        sorted_ids(views.insert(p, v)),
        views.insert(p, v).contains(v),
        forall|w: Seq<u8>|
            #[trigger] views.insert(p, v).contains(w) <==> views.contains(w) || w == v,
{
    let out = views.insert(p, v);
    assert(out[p] == v);
    assert(out.contains(v));
    assert forall|k: int| 0 <= k && k + 1 < out.len() implies lex_lt(#[trigger] out[k], out[k + 1])
        by {
        if k + 1 < p {
            assert(out[k] == views[k] && out[k + 1] == views[k + 1]);
        } else if k + 1 == p {
            assert(out[k] == views[k]);
        } else if k == p {
            assert(out[k + 1] == views[k]);
        } else {
            assert(out[k] == views[k - 1] && out[k + 1] == views[k]);
        }
    }
    assert forall|w: Seq<u8>| #[trigger] out.contains(w) implies views.contains(w) || w == v by {
        let k = choose|k: int| 0 <= k < out.len() && out[k] == w;
        if k < p {
            assert(views[k] == w);
        } else if k > p {
            assert(views[k - 1] == w);
        }
    }
    assert forall|w: Seq<u8>| views.contains(w) implies #[trigger] out.contains(w) by {
        let k = choose|k: int| 0 <= k < views.len() && views[k] == w;
        if k < p {
            assert(out[k] == w);
        } else {
            assert(out[k + 1] == w);
        }
    }
}

/// Checks that a list of identifiers is strictly ascending.
pub fn check_sorted_ids<T: WireId>(ids: &Vec<T>) -> (r: bool)
    ensures
        r == sorted_ids(id_views(ids@)),
{
    let n = ids.len();
    if n <= 1 {
        return true;
    }
    let mut k: usize = 0;
    while k + 1 < n
        invariant
            k + 1 <= n,
            n == ids@.len(),
            forall|m: int| 0 <= m && m + 1 < k + 1 ==> lex_lt(#[trigger] id_views(ids@)[m],
                id_views(ids@)[m + 1]),
        decreases n - k,
    {
        if !lex_lt32(ids[k].raw(), ids[k + 1].raw()) {
            assert(!lex_lt(id_views(ids@)[k as int], id_views(ids@)[k as int + 1]));
            return false;
        }
        k += 1;
    }
    true
}

// --- Round-trip lemmas for the primitives ---

/// Splitting a subrange that holds a concatenation yields the parts.
pub proof fn lemma_subrange_split(s: Seq<u8>, i: int, a: Seq<u8>, b: Seq<u8>)
    requires
        0 <= i,
        i + a.len() + b.len() <= s.len(),
        s.subrange(i, i + a.len() + b.len()) == a + b,
    ensures
        s.subrange(i, i + a.len()) == a,
        s.subrange(i + a.len(), i + a.len() + b.len()) == b,
{
    let ab = a + b;
    assert forall|k: int| 0 <= k < a.len() implies s[i + k] == a[k] by {
        assert(s.subrange(i, i + ab.len() as int)[k] == ab[k]);
    }
    assert forall|k: int| 0 <= k < b.len() implies s[i + a.len() + k] == b[k] by {
        assert(s.subrange(i, i + ab.len() as int)[a.len() + k] == ab[a.len() + k]);
    }
    assert(s.subrange(i, i + a.len() as int) =~= a);
    assert(s.subrange(i + a.len(), i + a.len() + b.len() as int) =~= b);
}

/// A 16-bit integer decodes back from wherever its encoding sits.
pub proof fn lemma_dec_u16(s: Seq<u8>, i: int, x: u16)
    requires
        0 <= i,
        i + 2 <= s.len(),
        s.subrange(i, i + 2) == enc_u16(x),
    ensures
        dec_u16_at(s, i) == Ok::<(u16, int), DecodeError>((x, i + 2)),
{
    lemma_auto_spec_u16_to_from_le_bytes();
    assert(spec_u16_to_le_bytes(x).len() == 2);
    assert(spec_u16_from_le_bytes(spec_u16_to_le_bytes(x)) == x);
}

/// A 24-bit integer decodes back from wherever its encoding sits.
pub proof fn lemma_dec_u24(s: Seq<u8>, i: int, x: u32)
    requires
        0 <= i,
        i + 3 <= s.len(),
        x <= MAX_MEDIUM_LEN,
        s.subrange(i, i + 3) == enc_u24(x),
    ensures
        dec_u24_at(s, i) == Ok::<(u32, int), DecodeError>((x, i + 3)),
{
    let e = enc_u24(x);
    assert(s[i] == e[0] && s[i + 1] == e[1] && s[i + 2] == e[2]) by {
        assert(s.subrange(i, i + 3)[0] == e[0]);
        assert(s.subrange(i, i + 3)[1] == e[1]);
        assert(s.subrange(i, i + 3)[2] == e[2]);
    }
    assert(x <= 0xFF_FFFFu32 ==> ((x & 0xff) as u8 as u32) | ((((x >> 8) & 0xff) as u8 as u32)
        << 8) | ((((x >> 16) & 0xff) as u8 as u32) << 16) == x) by (bit_vector);
}

/// A 64-bit integer decodes back from wherever its encoding sits.
pub proof fn lemma_dec_u64(s: Seq<u8>, i: int, x: u64)
    requires
        0 <= i,
        i + 8 <= s.len(),
        s.subrange(i, i + 8) == enc_u64(x),
    ensures
        dec_u64_at(s, i) == Ok::<(u64, int), DecodeError>((x, i + 8)),
{
    lemma_auto_spec_u64_to_from_le_bytes();
    assert(spec_u64_to_le_bytes(x).len() == 8);
    assert(spec_u64_from_le_bytes(spec_u64_to_le_bytes(x)) == x);
}

/// A small byte string decodes back from wherever its encoding sits.
pub proof fn lemma_dec_bytes16(s: Seq<u8>, i: int, b: Seq<u8>)
    requires
        0 <= i,
        b.len() <= u16::MAX,
        i + enc_bytes16(b).len() <= s.len(),
        s.subrange(i, i + enc_bytes16(b).len()) == enc_bytes16(b),
    ensures
        dec_bytes16_at(s, i) == Ok::<(Seq<u8>, int), DecodeError>((b, i + enc_bytes16(b).len())),
{
    let n = b.len() as u16;
    lemma_subrange_split(s, i, enc_u16(n), b);
    lemma_auto_spec_u16_to_from_le_bytes();
    lemma_dec_u16(s, i, n);
}

/// A medium byte string decodes back from wherever its encoding sits.
pub proof fn lemma_dec_bytes24(s: Seq<u8>, i: int, b: Seq<u8>)
    requires
        0 <= i,
        b.len() <= MAX_MEDIUM_LEN,
        i + enc_bytes24(b).len() <= s.len(),
        s.subrange(i, i + enc_bytes24(b).len()) == enc_bytes24(b),
    ensures
        dec_bytes24_at(s, i) == Ok::<(Seq<u8>, int), DecodeError>((b, i + enc_bytes24(b).len())),
{
    let n = b.len() as u32;
    lemma_subrange_split(s, i, enc_u24(n), b);
    lemma_dec_u24(s, i, n);
}

/// A 32-byte identifier decodes back from wherever it sits.
pub proof fn lemma_dec_id32(s: Seq<u8>, i: int, a: Seq<u8>)
    requires
        0 <= i,
        a.len() == 32,
        i + 32 <= s.len(),
        s.subrange(i, i + 32) == a,
    ensures
        dec_id32_at(s, i) == Ok::<(Seq<u8>, int), DecodeError>((a, i + 32)),
{
}

} // verus!
