//! Canonical binary encoding primitives: little-endian integers, tag bytes
//! and length-prefixed byte strings. Every composite codec in the crate is
//! built from these, and each decoder is proved to invert its encoder.

use vstd::prelude::*;

verus! {

/// Canonical encoding of a `u64`: eight bytes, little endian.
pub open spec fn enc_u64(x: u64) -> Seq<u8> {
    seq![
        (x & 0xff) as u8,
        ((x >> 8) & 0xff) as u8,
        ((x >> 16) & 0xff) as u8,
        ((x >> 24) & 0xff) as u8,
        ((x >> 32) & 0xff) as u8,
        ((x >> 40) & 0xff) as u8,
        ((x >> 48) & 0xff) as u8,
        ((x >> 56) & 0xff) as u8,
    ]
}

/// The `u64` read back from eight little-endian bytes.
pub open spec fn dec_u64_at(s: Seq<u8>, i: int) -> u64 {
    (s[i] as u64
        | (s[i + 1] as u64) << 8
        | (s[i + 2] as u64) << 16
        | (s[i + 3] as u64) << 24
        | (s[i + 4] as u64) << 32
        | (s[i + 5] as u64) << 40
        | (s[i + 6] as u64) << 48
        | (s[i + 7] as u64) << 56) as u64
}

/// Reading eight bytes written by `enc_u64` yields the value written.
pub proof fn lemma_u64_roundtrip(x: u64, s: Seq<u8>, i: int)
    requires
        0 <= i,
        i + 8 <= s.len(),
        s.subrange(i, i + 8) == enc_u64(x),
    ensures
        dec_u64_at(s, i) == x,
{
    assert(s[i] == enc_u64(x)[0]);
    assert(s[i + 1] == enc_u64(x)[1]);
    assert(s[i + 2] == enc_u64(x)[2]);
    assert(s[i + 3] == enc_u64(x)[3]);
    assert(s[i + 4] == enc_u64(x)[4]);
    assert(s[i + 5] == enc_u64(x)[5]);
    assert(s[i + 6] == enc_u64(x)[6]);
    assert(s[i + 7] == enc_u64(x)[7]);
    assert((((x & 0xff) as u8) as u64
        | ((((x >> 8) & 0xff) as u8) as u64) << 8
        | ((((x >> 16) & 0xff) as u8) as u64) << 16
        | ((((x >> 24) & 0xff) as u8) as u64) << 24
        | ((((x >> 32) & 0xff) as u8) as u64) << 32
        | ((((x >> 40) & 0xff) as u8) as u64) << 40
        | ((((x >> 48) & 0xff) as u8) as u64) << 48
        | ((((x >> 56) & 0xff) as u8) as u64) << 56) == x) by (bit_vector);
}

/// Append the canonical encoding of `x` to `out`.
pub fn write_u64(out: &mut Vec<u8>, x: u64)
    ensures
        final(out)@ == old(out)@ + enc_u64(x),
{
    let b0: u8 = (x & 0xff) as u8;
    let b1: u8 = ((x >> 8) & 0xff) as u8;
    let b2: u8 = ((x >> 16) & 0xff) as u8;
    let b3: u8 = ((x >> 24) & 0xff) as u8;
    let b4: u8 = ((x >> 32) & 0xff) as u8;
    let b5: u8 = ((x >> 40) & 0xff) as u8;
    let b6: u8 = ((x >> 48) & 0xff) as u8;
    let b7: u8 = ((x >> 56) & 0xff) as u8;
    out.push(b0);
    out.push(b1);
    out.push(b2);
    out.push(b3);
    out.push(b4);
    out.push(b5);
    out.push(b6);
    out.push(b7);
    assert(out@ =~= old(out)@ + enc_u64(x));
}

/// Read a `u64` at position `*pos`, advancing the position.
pub fn read_u64(bytes: &Vec<u8>, pos: &mut usize) -> (r: Option<u64>)
    ensures
        match r {
            Some(x) => {
                &&& *old(pos) + 8 <= bytes@.len()
                &&& x == dec_u64_at(bytes@, *old(pos) as int)
                &&& *final(pos) == *old(pos) + 8
            },
            None => {
                &&& *old(pos) + 8 > bytes@.len()
                &&& *final(pos) == *old(pos)
            },
        },
{
    if bytes.len() < 8 || *pos > bytes.len() - 8 {
        return None;
    }
    let i = *pos;
    let x: u64 = bytes[i] as u64
        | (bytes[i + 1] as u64) << 8u64
        | (bytes[i + 2] as u64) << 16u64
        | (bytes[i + 3] as u64) << 24u64
        | (bytes[i + 4] as u64) << 32u64
        | (bytes[i + 5] as u64) << 40u64
        | (bytes[i + 6] as u64) << 48u64
        | (bytes[i + 7] as u64) << 56u64;
    *pos = i + 8;
    Some(x)
}

/// Canonical encoding of a byte string: length then raw bytes.
pub open spec fn enc_bytes(b: Seq<u8>) -> Seq<u8> {
    enc_u64(b.len() as u64) + b
}

/// Append the canonical encoding of `b` to `out`.
pub fn write_bytes(out: &mut Vec<u8>, b: &Vec<u8>)
    ensures
        final(out)@ == old(out)@ + enc_bytes(b@),
{
    write_u64(out, b.len() as u64);
    let mut i: usize = 0;
    while i < b.len()
        invariant
            i <= b@.len(),
            out@ == old(out)@ + enc_u64(b@.len() as u64) + b@.subrange(0, i as int),
        decreases b@.len() - i,
    {
        out.push(b[i]);
        i = i + 1;
        assert(out@ =~= old(out)@ + enc_u64(b@.len() as u64) + b@.subrange(0, i as int));
    }
    assert(b@.subrange(0, b@.len() as int) =~= b@);
}

/// Read a length-prefixed byte string at `*pos`, advancing the position.
///
/// Sound: a parsed string is the exact encoding consumed. Complete: an
/// input that continues with an encoded string parses to that string.
pub fn read_bytes(bytes: &Vec<u8>, pos: &mut usize) -> (r: Option<Vec<u8>>)
    ensures
        match r {
            Some(v) => {
                &&& *final(pos) <= bytes@.len()
                &&& *old(pos) + 8 <= *final(pos)
                &&& bytes@.subrange(*old(pos) as int, *final(pos) as int) == enc_bytes(v@)
            },
            None => *final(pos) == *old(pos),
        },
        forall|s: Seq<u8>|
            (*old(pos) + 8 + s.len() <= bytes@.len() && bytes@.subrange(
                *old(pos) as int,
                *old(pos) + 8 + s.len(),
            ) == enc_bytes(s)) ==> (r matches Some(v) && v@ == s && *final(pos) == *old(pos) + 8
                + s.len()),
{
    let start = *pos;
    proof {
        assert forall|s: Seq<u8>|
            (start + 8 + s.len() <= bytes@.len() && bytes@.subrange(
                start as int,
                start + 8 + s.len(),
            ) == enc_bytes(s)) implies dec_u64_at(bytes@, start as int) == s.len() as u64 by {
            assert(bytes@.subrange(start as int, start + 8) =~= enc_u64(s.len() as u64));
            lemma_u64_roundtrip(s.len() as u64, bytes@, start as int);
        }
    }
    match read_u64(bytes, pos) {
        None => None,
        Some(len) => {
            if len > (bytes.len() as u64) || (*pos as u64) > (bytes.len() as u64) - len {
                *pos = start;
                return None;
            }
            let n = len as usize;
            assert(start + 8 + n <= bytes.len());
            let mut v: Vec<u8> = Vec::new();
            let mut i: usize = 0;
            while i < n
                invariant
                    i <= n,
                    start + 8 + n <= bytes@.len(),
                    bytes@.len() <= usize::MAX,
                    v@ == bytes@.subrange(start + 8, start + 8 + i),
                decreases n - i,
            {
                v.push(bytes[start + 8 + i]);
                i = i + 1;
                assert(v@ =~= bytes@.subrange(start + 8, start + 8 + i));
            }
            *pos = start + 8 + n;
            proof {
                assert(bytes@.subrange(start as int, start + 8) =~= enc_u64(len)) by {
                    lemma_u64_roundtrip_inverse(bytes@, start as int, len);
                }
                assert(bytes@.subrange(start as int, *pos as int) =~= enc_u64(len) + v@);
                assert forall|s: Seq<u8>|
                    (start + 8 + s.len() <= bytes@.len() && bytes@.subrange(
                        start as int,
                        start + 8 + s.len(),
                    ) == enc_bytes(s)) implies (v@ == s && *pos == start + 8 + s.len()) by {
                    assert(s.len() as u64 == len);
                    assert(n == s.len());
                    assert forall|j: int| 0 <= j < n implies v@[j] == s[j] by {
                        assert(bytes@.subrange(start as int, start + 8 + s.len())[8 + j]
                            == enc_bytes(s)[8 + j]);
                    }
                    assert(v@ =~= s);
                }
            }
            Some(v)
        },
    }
}

/// Eight bytes that read back as `x` are exactly `enc_u64(x)`.
pub proof fn lemma_u64_roundtrip_inverse(s: Seq<u8>, i: int, x: u64)
    requires
        0 <= i,
        i + 8 <= s.len(),
        dec_u64_at(s, i) == x,
    ensures
        s.subrange(i, i + 8) =~= enc_u64(x),
{
    let b0 = s[i];
    let b1 = s[i + 1];
    let b2 = s[i + 2];
    let b3 = s[i + 3];
    let b4 = s[i + 4];
    let b5 = s[i + 5];
    let b6 = s[i + 6];
    let b7 = s[i + 7];
    assert({
        let y = (b0 as u64 | (b1 as u64) << 8 | (b2 as u64) << 16 | (b3 as u64) << 24
            | (b4 as u64) << 32 | (b5 as u64) << 40 | (b6 as u64) << 48 | (b7 as u64) << 56)
            as u64;
        b0 == (y & 0xff) as u8 && b1 == ((y >> 8) & 0xff) as u8 && b2 == ((y >> 16) & 0xff) as u8
            && b3 == ((y >> 24) & 0xff) as u8 && b4 == ((y >> 32) & 0xff) as u8
            && b5 == ((y >> 40) & 0xff) as u8 && b6 == ((y >> 48) & 0xff) as u8
            && b7 == ((y >> 56) & 0xff) as u8
    }) by (bit_vector);
}

/// Append a single tag byte.
pub fn write_tag(out: &mut Vec<u8>, t: u8)
    ensures
        final(out)@ == old(out)@ + seq![t],
{
    out.push(t);
}

/// Read a single byte at `*pos`, advancing the position.
pub fn read_tag(bytes: &Vec<u8>, pos: &mut usize) -> (r: Option<u8>)
    ensures
        match r {
            Some(t) => {
                &&& *old(pos) < bytes@.len()
                &&& t == bytes@[*old(pos) as int]
                &&& *final(pos) == *old(pos) + 1
            },
            None => {
                &&& *old(pos) >= bytes@.len()
                &&& *final(pos) == *old(pos)
            },
        },
{
    if *pos < bytes.len() {
        let t = bytes[*pos];
        *pos = *pos + 1;
        Some(t)
    } else {
        None
    }
}

/// Canonical encoding of an optional byte string: tag 0 or tag 1 + payload.
pub open spec fn enc_opt_bytes(b: Option<Seq<u8>>) -> Seq<u8> {
    match b {
        None => seq![0u8],
        Some(s) => seq![1u8] + enc_bytes(s),
    }
}

/// Append the canonical encoding of an optional byte string.
pub fn write_opt_bytes(out: &mut Vec<u8>, b: &Option<Vec<u8>>)
    ensures
        final(out)@ == old(out)@ + enc_opt_bytes(opt_view(b)),
{
    match b {
        None => {
            write_tag(out, 0);
        },
        Some(v) => {
            write_tag(out, 1);
            write_bytes(out, v);
            assert(out@ =~= old(out)@ + enc_opt_bytes(opt_view(b)));
        },
    }
}

/// View of an optional byte vector.
pub open spec fn opt_view(b: &Option<Vec<u8>>) -> Option<Seq<u8>> {
    match b {
        None => None,
        Some(v) => Some(v@),
    }
}

/// Read an optional byte string at `*pos`, advancing the position.
///
/// Sound and complete in the same sense as `read_bytes`.
pub fn read_opt_bytes(bytes: &Vec<u8>, pos: &mut usize) -> (r: Option<Option<Vec<u8>>>)
    ensures
        match r {
            Some(v) => {
                &&& *final(pos) <= bytes@.len()
                &&& *old(pos) < *final(pos)
                &&& bytes@.subrange(*old(pos) as int, *final(pos) as int) == enc_opt_bytes(opt_view(&v))
            },
            None => *final(pos) == *old(pos),
        },
        forall|o: Option<Seq<u8>>|
            starts_with(bytes@, *old(pos) as int, enc_opt_bytes(o)) ==> (r matches Some(v)
                && opt_view(&v) == o && *final(pos) == *old(pos) + enc_opt_bytes(o).len()),
{
    let start = *pos;
    let r = match read_tag(bytes, pos) {
        None => None,
        Some(0) => {
            assert(bytes@.subrange(start as int, start + 1) =~= seq![0u8]);
            Some(None)
        },
        Some(1) => {
            match read_bytes(bytes, pos) {
                None => {
                    *pos = start;
                    None
                },
                Some(v) => {
                    assert(bytes@.subrange(start as int, *pos as int) =~= seq![1u8] + bytes@
                        .subrange(start + 1, *pos as int));
                    Some(Some(v))
                },
            }
        },
        Some(_) => {
            *pos = start;
            None
        },
    };
    proof {
        assert forall|o: Option<Seq<u8>>|
            starts_with(bytes@, start as int, enc_opt_bytes(o)) implies (r matches Some(v)
            && opt_view(&v) == o && *pos == start + enc_opt_bytes(o).len()) by {
            assert(bytes@[start as int] == enc_opt_bytes(o)[0]) by {
                assert(bytes@.subrange(start as int, start + enc_opt_bytes(o).len())[0]
                    == enc_opt_bytes(o)[0]);
            }
            match o {
                None => {},
                Some(s) => {
                    lemma_starts_with_split(bytes@, start as int, seq![1u8], enc_bytes(s));
                },
            }
        }
    }
    r
}

/// The input continues at `i` with the byte string `t`.
pub open spec fn starts_with(bytes: Seq<u8>, i: int, t: Seq<u8>) -> bool {
    0 <= i && i + t.len() <= bytes.len() && bytes.subrange(i, i + t.len()) == t
}

/// A continuation with `t1 + t2` is a continuation with `t1`, then `t2`.
pub proof fn lemma_starts_with_split(bytes: Seq<u8>, i: int, t1: Seq<u8>, t2: Seq<u8>)
    requires
        starts_with(bytes, i, t1 + t2),
    ensures
        starts_with(bytes, i, t1),
        starts_with(bytes, i + t1.len(), t2),
{
    assert(bytes.subrange(i, i + t1.len()) =~= t1) by {
        assert forall|j: int| 0 <= j < t1.len() implies bytes[i + j] == t1[j] by {
            assert(bytes.subrange(i, i + (t1 + t2).len())[j] == (t1 + t2)[j]);
        }
    }
    assert(bytes.subrange(i + t1.len(), i + t1.len() + t2.len()) =~= t2) by {
        assert forall|j: int| 0 <= j < t2.len() implies bytes[i + t1.len() + j] == t2[j] by {
            assert(bytes.subrange(i, i + (t1 + t2).len())[t1.len() + j] == (t1 + t2)[t1.len()
                + j]);
        }
    }
}

/// Two encoded byte strings agree only when the payloads agree.
pub proof fn lemma_enc_bytes_injective(a: Seq<u8>, b: Seq<u8>)
    requires
        enc_bytes(a) == enc_bytes(b),
    ensures
        a == b,
{
    assert(a =~= enc_bytes(a).subrange(8, enc_bytes(a).len() as int));
    assert(b =~= enc_bytes(b).subrange(8, enc_bytes(b).len() as int));
}

} // verus!
