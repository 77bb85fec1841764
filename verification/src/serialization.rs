//! Byte-level primitives shared by every TZE entity codec: little-endian
//! integer encodings, the canonical `CompactSize` variable-length integer
//! codec, and the error taxonomy of the decoders.

use vstd::prelude::*;

verus! {

/// Every way a TZE decode can fail.
///
/// Encoding never fails; each decoder returns exactly one of these, determined
/// by the input bytes alone.
#[derive(Clone, Copy, Debug, PartialEq, Eq, Structural)]
pub enum SerializationError {
    /// The stream ended before a required field was fully read.
    UnexpectedEof,
    /// A variable-length integer used more bytes than the minimal form.
    NonCanonical,
    /// A field decoded to a value outside its semantic invariant
    /// (a negative amount).
    MalformedValue,
    /// A collection's count prefix exceeds the type's preallocation bound.
    DisallowedVectorLength,
}

/// 256^k: the number of values representable in k bytes.
pub open spec fn pow256(k: nat) -> nat
    decreases k,
{
    if k == 0 {
        1
    } else {
        256 * pow256((k - 1) as nat)
    }
}

/// The little-endian encoding of `v` in exactly `k` bytes
/// (high bits beyond `k` bytes are discarded).
pub open spec fn le_bytes(v: nat, k: nat) -> Seq<u8>
    decreases k,
{
    if k == 0 {
        Seq::empty()
    } else {
        seq![(v % 256) as u8] + le_bytes(v / 256, (k - 1) as nat)
    }
}

/// The value of a byte sequence read as a little-endian integer.
pub open spec fn le_val(s: Seq<u8>) -> nat
    decreases s.len(),
{
    if s.len() == 0 {
        0
    } else {
        (s[0] + 256 * le_val(s.skip(1))) as nat
    }
}

pub proof fn lemma_le_bytes_len(v: nat, k: nat)
    ensures
        le_bytes(v, k).len() == k,
    decreases k,
{
    if k > 0 {
        lemma_le_bytes_len(v / 256, (k - 1) as nat);
    }
}

/// A value below 256^k survives the round trip through its k-byte encoding.
pub proof fn lemma_le_val_of_le_bytes(v: nat, k: nat)
    requires
        v < pow256(k),
    ensures
        le_val(le_bytes(v, k)) == v,
    decreases k,
{
    if k > 0 {
        let rest = le_bytes(v / 256, (k - 1) as nat);
        assert(le_bytes(v, k).skip(1) =~= rest);
        assert(v / 256 < pow256((k - 1) as nat)) by {
            lemma_le_bytes_len(v / 256, (k - 1) as nat);
            assert(pow256(k) == 256 * pow256((k - 1) as nat));
            assert(v < 256 * pow256((k - 1) as nat));
            assert(v / 256 < pow256((k - 1) as nat)) by (nonlinear_arith)
                requires
                    v < 256 * pow256((k - 1) as nat),
            ;
        }
        lemma_le_val_of_le_bytes(v / 256, (k - 1) as nat);
        assert(v % 256 + 256 * (v / 256) == v) by (nonlinear_arith);
    }
}

/// Every byte sequence is the encoding of its own value: little-endian
/// decoding has exactly one preimage of each length.
pub proof fn lemma_le_bytes_of_le_val(s: Seq<u8>)
    ensures
        le_bytes(le_val(s), s.len()) =~= s,
    decreases s.len(),
{
    if s.len() > 0 {
        let t = s.skip(1);
        let v = le_val(s);
        assert(v == s[0] + 256 * le_val(t));
        assert(v % 256 == s[0] && v / 256 == le_val(t)) by (nonlinear_arith)
            requires
                v == s[0] + 256 * le_val(t),
                0 <= s[0] < 256,
        ;
        lemma_le_bytes_of_le_val(t);
        assert(le_bytes(v, s.len()).skip(1) =~= le_bytes(le_val(t), t.len()));
        assert(le_bytes(v, s.len())[0] == s[0]);
    }
}

/// The value of a byte sequence fits in as many bytes as it has.
pub proof fn lemma_le_val_bound(s: Seq<u8>)
    ensures
        le_val(s) < pow256(s.len()),
    decreases s.len(),
{
    if s.len() > 0 {
        let t = s.skip(1);
        lemma_le_val_bound(t);
        assert(s[0] + 256 * le_val(t) < 256 * pow256(t.len())) by (nonlinear_arith)
            requires
                le_val(t) < pow256(t.len()),
                0 <= s[0] < 256,
        ;
    }
}

/// The concrete powers of 256 the codec's length classes rest on.
pub proof fn lemma_pow256_values()
    ensures
        pow256(0) == 1,
        pow256(1) == 256,
        pow256(2) == 0x1_0000,
        pow256(4) == 0x1_0000_0000,
        pow256(7) == 0x100_0000_0000_0000,
        pow256(8) == 0x1_0000_0000_0000_0000,
{
    assert(pow256(0) == 1);
    assert(pow256(1) == 256);
    assert(pow256(2) == 0x1_0000);
    assert(pow256(3) == 0x100_0000);
    assert(pow256(4) == 0x1_0000_0000);
    assert(pow256(5) == 0x100_0000_0000);
    assert(pow256(6) == 0x1_0000_0000_0000);
    assert(pow256(7) == 0x100_0000_0000_0000);
    assert(pow256(8) == 0x1_0000_0000_0000_0000);
}

/// 256^k for k <= 8 fits the u64 range.
pub proof fn lemma_pow256_le_8(k: nat)
    requires
        k <= 8,
    ensures
        pow256(k) <= 0x1_0000_0000_0000_0000,
        k <= 2 ==> pow256(k) <= 0x1_0000,
        k <= 4 ==> pow256(k) <= 0x1_0000_0000,
        k <= 7 ==> pow256(k) <= 0x100_0000_0000_0000,
{
    assert(pow256(0) == 1);
    assert(pow256(1) == 256);
    assert(pow256(2) == 0x1_0000);
    assert(pow256(3) == 0x100_0000);
    assert(pow256(4) == 0x1_0000_0000);
    assert(pow256(5) == 0x100_0000_0000);
    assert(pow256(6) == 0x1_0000_0000_0000);
    assert(pow256(7) == 0x100_0000_0000_0000);
    assert(pow256(8) == 0x1_0000_0000_0000_0000);
}

/// Appends the `k`-byte little-endian encoding of `v` to `out`.
pub fn write_le_bytes(out: &mut Vec<u8>, v: u64, k: usize)
    requires
        k <= 8,
    ensures
        final(out)@ == old(out)@ + le_bytes(v as nat, k as nat),
{
    let ghost start = out@;
    let ghost total = le_bytes(v as nat, k as nat);
    proof {
        lemma_le_bytes_len(v as nat, k as nat);
    }
    let mut cur: u64 = v;
    let mut i: usize = 0;
    while i < k
        invariant
            i <= k,
            k <= 8,
            total.len() == k,
            total == le_bytes(v as nat, k as nat),
            out@ == start + total.take(i as int),
            total.skip(i as int) == le_bytes(cur as nat, (k - i) as nat),
        decreases k - i,
    {
        let b: u8 = (cur % 256) as u8;
        proof {
            let rest = le_bytes(cur as nat / 256, (k - i - 1) as nat);
            assert(le_bytes(cur as nat, (k - i) as nat) == seq![b] + rest);
            assert(total[i as int] == total.skip(i as int)[0]);
            assert(total[i as int] == b);
            assert(total.skip(i + 1) =~= total.skip(i as int).skip(1));
            assert((seq![b] + rest).skip(1) =~= rest);
        }
        out.push(b);
        cur = cur / 256;
        i = i + 1;
        proof {
            assert(out@ =~= start + total.take(i as int));
        }
    }
    proof {
        assert(total.take(k as int) =~= total);
    }
}

/// Reads `k` bytes of `buf` starting at `pos` as a little-endian integer.
pub fn read_le_bytes(buf: &Vec<u8>, pos: usize, k: usize) -> (r: u64)
    requires
        k <= 8,
        pos + k <= buf@.len(),
    ensures
        r == le_val(buf@.subrange(pos as int, (pos + k) as int)),
{
    let blen = buf.len();
    let mut acc: u64 = 0;
    let mut j: usize = k;
    while j > 0
        invariant
            j <= k,
            k <= 8,
            pos + k <= blen == buf@.len(),
            acc == le_val(buf@.subrange((pos + j) as int, (pos + k) as int)),
            acc < pow256((k - j) as nat),
        decreases j,
    {
        j = j - 1;
        let b = buf[pos + j];
        proof {
            let s = buf@.subrange((pos + j) as int, (pos + k) as int);
            assert(s.len() == k - j);
            assert(s[0] == buf@[(pos + j) as int]);
            assert(s.skip(1) =~= buf@.subrange((pos + j + 1) as int, (pos + k) as int));
            lemma_le_val_bound(s);
            lemma_pow256_le_8((k - j) as nat);
            lemma_pow256_le_8((k - j - 1) as nat);
            assert(b + 256 * acc < pow256((k - j) as nat)) by (nonlinear_arith)
                requires
                    acc < pow256((k - j - 1) as nat),
                    0 <= b < 256,
                    pow256((k - j) as nat) == 256 * pow256((k - j - 1) as nat),
            ;
        }
        acc = b as u64 + 256 * acc;
    }
    acc
}

/// Appends all of `src` to `out`.
pub fn write_bytes(out: &mut Vec<u8>, src: &Vec<u8>)
    ensures
        final(out)@ == old(out)@ + src@,
{
    let ghost start = out@;
    let n = src.len();
    let mut i: usize = 0;
    while i < n
        invariant
            i <= n == src@.len(),
            out@ == start + src@.take(i as int),
        decreases n - i,
    {
        out.push(src[i]);
        i = i + 1;
        proof {
            assert(out@ =~= start + src@.take(i as int));
        }
    }
    proof {
        assert(src@.take(n as int) =~= src@);
    }
}

/// Copies `n` bytes of `buf` starting at `pos` into a fresh vector.
pub fn read_bytes(buf: &Vec<u8>, pos: usize, n: usize) -> (r: Vec<u8>)
    requires
        pos + n <= buf@.len(),
    ensures
        r@ == buf@.subrange(pos as int, (pos + n) as int),
{
    let blen = buf.len();
    let mut r: Vec<u8> = Vec::new();
    let mut i: usize = 0;
    while i < n
        invariant
            i <= n,
            pos + n <= blen == buf@.len(),
            r@ == buf@.subrange(pos as int, (pos + i) as int),
        decreases n - i,
    {
        r.push(buf[pos + i]);
        i = i + 1;
        proof {
            assert(r@ =~= buf@.subrange(pos as int, (pos + i) as int));
        }
    }
    r
}

/// The canonical `CompactSize` encoding of `n`: the shortest of the four
/// length classes that can hold the value.
pub open spec fn spec_compact_size(n: nat) -> Seq<u8> {
    if n < 253 {
        seq![n as u8]
    } else if n < 0x1_0000 {
        seq![253u8] + le_bytes(n, 2)
    } else if n < 0x1_0000_0000 {
        seq![254u8] + le_bytes(n, 4)
    } else {
        seq![255u8] + le_bytes(n, 8)
    }
}

/// What decoding a `CompactSize` from the front of `s` yields: the value and
/// the number of bytes consumed, or the exact error.  A length class whose
/// value field is truncated is `UnexpectedEof`; a value that fits a shorter
/// class is `NonCanonical`.
pub open spec fn dec_compact(s: Seq<u8>) -> Result<(nat, nat), SerializationError> {
    if s.len() < 1 {
        Err(SerializationError::UnexpectedEof)
    } else if s[0] < 253 {
        Ok((s[0] as nat, 1))
    } else if s[0] == 253 {
        if s.len() < 3 {
            Err(SerializationError::UnexpectedEof)
        } else if le_val(s.subrange(1, 3)) < 253 {
            Err(SerializationError::NonCanonical)
        } else {
            Ok((le_val(s.subrange(1, 3)), 3))
        }
    } else if s[0] == 254 {
        if s.len() < 5 {
            Err(SerializationError::UnexpectedEof)
        } else if le_val(s.subrange(1, 5)) < 0x1_0000 {
            Err(SerializationError::NonCanonical)
        } else {
            Ok((le_val(s.subrange(1, 5)), 5))
        }
    } else {
        if s.len() < 9 {
            Err(SerializationError::UnexpectedEof)
        } else if le_val(s.subrange(1, 9)) < 0x1_0000_0000 {
            Err(SerializationError::NonCanonical)
        } else {
            Ok((le_val(s.subrange(1, 9)), 9))
        }
    }
}

/// Appends the canonical `CompactSize` encoding of `n` to `out`.
pub fn write_compact_size(out: &mut Vec<u8>, n: u64)
    ensures
        final(out)@ == old(out)@ + spec_compact_size(n as nat),
{
    let ghost start = out@;
    if n < 253 {
        out.push(n as u8);
        proof {
            assert(out@ =~= start + spec_compact_size(n as nat));
        }
    } else if n <= 0xFFFF {
        out.push(253u8);
        write_le_bytes(out, n, 2);
        proof {
            assert(out@ =~= start + spec_compact_size(n as nat));
        }
    } else if n <= 0xFFFF_FFFF {
        out.push(254u8);
        write_le_bytes(out, n, 4);
        proof {
            assert(out@ =~= start + spec_compact_size(n as nat));
        }
    } else {
        out.push(255u8);
        write_le_bytes(out, n, 8);
        proof {
            assert(out@ =~= start + spec_compact_size(n as nat));
        }
    }
}

/// Decodes a `CompactSize` from `buf` at `pos`; returns the value and the
/// position just past it.
pub fn read_compact_size(buf: &Vec<u8>, pos: usize) -> (r: Result<(u64, usize), SerializationError>)
    requires
        pos <= buf@.len(),
    ensures
        (match r {
            Ok(p) => {
                &&& pos < p.1 <= buf@.len()
                &&& dec_compact(buf@.skip(pos as int)) == Ok::<(nat, nat), SerializationError>(
                    (p.0 as nat, (p.1 - pos) as nat),
                )
            },
            Err(e) => dec_compact(buf@.skip(pos as int)) == Err::<(nat, nat), SerializationError>(
                e,
            ),
        }),
{
    let ghost s = buf@.skip(pos as int);
    let len = buf.len();
    if pos >= len {
        return Err(SerializationError::UnexpectedEof);
    }
    let tag = buf[pos];
    proof {
        assert(s[0] == buf@[pos as int]);
    }
    if tag < 253 {
        Ok((tag as u64, pos + 1))
    } else if tag == 253 {
        if len - pos < 3 {
            Err(SerializationError::UnexpectedEof)
        } else {
            let v = read_le_bytes(buf, pos + 1, 2);
            proof {
                assert(s.subrange(1, 3) =~= buf@.subrange((pos + 1) as int, (pos + 3) as int));
            }
            if v < 253 {
                Err(SerializationError::NonCanonical)
            } else {
                Ok((v, pos + 3))
            }
        }
    } else if tag == 254 {
        if len - pos < 5 {
            Err(SerializationError::UnexpectedEof)
        } else {
            let v = read_le_bytes(buf, pos + 1, 4);
            proof {
                assert(s.subrange(1, 5) =~= buf@.subrange((pos + 1) as int, (pos + 5) as int));
            }
            if v < 0x1_0000 {
                Err(SerializationError::NonCanonical)
            } else {
                Ok((v, pos + 5))
            }
        }
    } else {
        if len - pos < 9 {
            Err(SerializationError::UnexpectedEof)
        } else {
            let v = read_le_bytes(buf, pos + 1, 8);
            proof {
                assert(s.subrange(1, 9) =~= buf@.subrange((pos + 1) as int, (pos + 9) as int));
            }
            if v < 0x1_0000_0000 {
                Err(SerializationError::NonCanonical)
            } else {
                Ok((v, pos + 9))
            }
        }
    }
}

/// The length of the canonical encoding: 1, 3, 5 or 9 bytes by value class.
pub proof fn lemma_compact_size_len(n: nat)
    ensures
        1 <= spec_compact_size(n).len() <= 9,
        n < 253 ==> spec_compact_size(n).len() == 1,
        253 <= n < 0x1_0000 ==> spec_compact_size(n).len() == 3,
        0x1_0000 <= n < 0x1_0000_0000 ==> spec_compact_size(n).len() == 5,
        0x1_0000_0000 <= n ==> spec_compact_size(n).len() == 9,
{
    lemma_le_bytes_len(n, 2);
    lemma_le_bytes_len(n, 4);
    lemma_le_bytes_len(n, 8);
}

/// Round trip: the canonical encoding of `n`, followed by anything, decodes
/// back to `n`, consuming exactly the encoding.
pub proof fn lemma_compact_roundtrip(n: nat, rest: Seq<u8>)
    requires
        n < pow256(8),
    ensures
        dec_compact(spec_compact_size(n) + rest) == Ok::<(nat, nat), SerializationError>(
            (n, spec_compact_size(n).len() as nat),
        ),
{
    let e = spec_compact_size(n);
    let s = e + rest;
    lemma_compact_size_len(n);
    lemma_pow256_values();
    if n < 253 {
        assert(s[0] == n as u8);
        assert((n as u8) as nat == n);
    } else if n < 0x1_0000 {
        assert(s[0] == 253u8);
        assert(s.subrange(1, 3) =~= le_bytes(n, 2));
        lemma_le_val_of_le_bytes(n, 2);
    } else if n < 0x1_0000_0000 {
        assert(s[0] == 254u8);
        assert(s.subrange(1, 5) =~= le_bytes(n, 4));
        lemma_le_val_of_le_bytes(n, 4);
    } else {
        assert(s[0] == 255u8);
        assert(s.subrange(1, 9) =~= le_bytes(n, 8));
        lemma_le_val_of_le_bytes(n, 8);
    }
}

/// Canonical minimality: whenever a decode succeeds, the bytes consumed are
/// exactly the canonical encoding of the value read, so no value has a second
/// accepted encoding.
pub proof fn lemma_compact_canonical(s: Seq<u8>)
    ensures
        dec_compact(s) matches Ok(p) ==> {
            &&& p.1 <= s.len()
            &&& p.0 < pow256(8)
            &&& s.take(p.1 as int) == spec_compact_size(p.0)
            &&& p.1 == spec_compact_size(p.0).len()
        },
{
    lemma_pow256_values();
    if dec_compact(s) is Ok {
        let p = dec_compact(s)->Ok_0;
        if s[0] < 253 {
            assert(s.take(1) =~= seq![s[0]]);
        } else if s[0] == 253 {
            let sub = s.subrange(1, 3);
            lemma_le_val_bound(sub);
            lemma_pow256_le_8(2);
            lemma_le_bytes_of_le_val(sub);
            assert(s.take(3) =~= seq![253u8] + sub);
        } else if s[0] == 254 {
            let sub = s.subrange(1, 5);
            lemma_le_val_bound(sub);
            lemma_pow256_le_8(4);
            lemma_le_bytes_of_le_val(sub);
            assert(s.take(5) =~= seq![254u8] + sub);
        } else {
            let sub = s.subrange(1, 9);
            lemma_le_val_bound(sub);
            lemma_pow256_le_8(8);
            lemma_le_bytes_of_le_val(sub);
            assert(s.take(9) =~= seq![255u8] + sub);
        }
        lemma_compact_size_len(p.0);
    }
}

} // verus!
