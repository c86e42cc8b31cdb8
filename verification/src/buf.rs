//! Output-buffer building blocks shared by the patch formats.
use vstd::prelude::*;

verus! {

/// `n` zero bytes.
pub open spec fn zero_seq(n: int) -> Seq<u8> {
    Seq::new(n as nat, |i: int| 0u8)
}

/// `out` with `data` written over it starting at `at` (the caller keeps the
/// write inside `out`).
pub open spec fn splice(out: Seq<u8>, at: int, data: Seq<u8>) -> Seq<u8> {
    out.take(at) + data + out.skip(at + data.len())
}

/// `out` padded with zeros up to `len` bytes; never shortened.
pub open spec fn grow(out: Seq<u8>, len: int) -> Seq<u8> {
    if out.len() < len {
        out + zero_seq(len - out.len())
    } else {
        out
    }
}

/// Writes `data` at `offset`, first growing `out` with zeros so that it fits.
pub open spec fn write_at(out: Seq<u8>, offset: int, data: Seq<u8>) -> Seq<u8> {
    splice(grow(out, offset + data.len()), offset, data)
}

/// A `len`-byte buffer that starts with the first `len` bytes of `src` and is
/// zero past the end of `src`.
pub open spec fn prefix_fill(src: Seq<u8>, len: int) -> Seq<u8> {
    Seq::new(len as nat, |i: int| if i < src.len() { src[i] } else { 0u8 })
}

/// `n` copies of `b`.
pub open spec fn repeat(b: u8, n: int) -> Seq<u8> {
    Seq::new(n as nat, |i: int| b)
}

/// `data` XOR-ed byte by byte onto `src[at..]`, where bytes past the end of
/// `src` count as zero.
pub open spec fn xor_onto(src: Seq<u8>, at: int, data: Seq<u8>) -> Seq<u8> {
    Seq::new(data.len(), |i: int| (if at + i < src.len() { src[at + i] } else { 0u8 }) ^ data[i])
}

/// True when `data` begins with `prefix`.
pub open spec fn has_prefix(data: Seq<u8>, prefix: Seq<u8>) -> bool {
    prefix.len() <= data.len() && data.take(prefix.len() as int) == prefix
}

/// `slice::starts_with`.
pub fn starts_with(data: &[u8], prefix: &[u8]) -> (r: bool)
    ensures
        r == has_prefix(data@, prefix@),
{
    if prefix.len() > data.len() {
        return false;
    }
    let mut i: usize = 0;
    while i < prefix.len()
        invariant
            i <= prefix@.len() <= data@.len(),
            forall|j: int| 0 <= j < i ==> data@[j] == prefix@[j],
        decreases prefix@.len() - i,
    {
        if data[i] != prefix[i] {
            proof {
                assert(data@.take(prefix@.len() as int)[i as int] != prefix@[i as int]);
            }
            return false;
        }
        i = i + 1;
    }
    proof {
        assert(data@.take(prefix@.len() as int) =~= prefix@);
    }
    true
}

/// Byte-wise equality of two slices.
pub fn bytes_eq(a: &[u8], b: &[u8]) -> (r: bool)
    ensures
        r == (a@ == b@),
{
    if a.len() != b.len() {
        return false;
    }
    let r = starts_with(a, b);
    proof {
        assert(a@.take(b@.len() as int) =~= a@);
    }
    r
}

/// A vector of `n` zero bytes.
pub fn zeros(n: usize) -> (v: Vec<u8>)
    ensures
        v@ == zero_seq(n as int),
{
    let mut v: Vec<u8> = Vec::with_capacity(n);
    let mut i: usize = 0;
    while i < n
        invariant
            i <= n,
            v@ == zero_seq(i as int),
        decreases n - i,
    {
        v.push(0u8);
        proof {
            assert(v@ =~= zero_seq(i + 1));
        }
        i = i + 1;
    }
    v
}

/// A copy of the bytes of `src`.
pub fn to_vec(src: &[u8]) -> (v: Vec<u8>)
    ensures
        v@ == src@,
{
    let mut v: Vec<u8> = Vec::with_capacity(src.len());
    let mut i: usize = 0;
    while i < src.len()
        invariant
            i <= src@.len(),
            v@ == src@.take(i as int),
        decreases src@.len() - i,
    {
        v.push(src[i]);
        proof {
            assert(v@ =~= src@.take(i + 1));
        }
        i = i + 1;
    }
    proof {
        assert(src@.take(src@.len() as int) =~= src@);
    }
    v
}

/// Writes `src` into `out` at `at`.
pub fn copy_into(out: &mut Vec<u8>, at: usize, src: &[u8])
    requires
        at + src@.len() <= old(out)@.len(),
    ensures
        final(out)@ == splice(old(out)@, at as int, src@),
{
    let ghost o = out@;
    let olen = out.len();
    let mut i: usize = 0;
    while i < src.len()
        invariant
            i <= src@.len(),
            at + src@.len() <= o.len(),
            out@.len() == o.len(),
            olen == o.len(),
            out@ == splice(o, at as int, src@.take(i as int)),
        decreases src@.len() - i,
    {
        out.set(at + i, src[i]);
        proof {
            assert(out@ =~= splice(o, at as int, src@.take(i + 1)));
        }
        i = i + 1;
    }
    proof {
        assert(src@.take(src@.len() as int) =~= src@);
    }
}

/// Fills `out[at..at + n]` with `b`.
pub fn fill_into(out: &mut Vec<u8>, at: usize, n: usize, b: u8)
    requires
        at + n <= old(out)@.len(),
    ensures
        final(out)@ == splice(old(out)@, at as int, repeat(b, n as int)),
{
    let ghost o = out@;
    let olen = out.len();
    let mut i: usize = 0;
    while i < n
        invariant
            i <= n,
            at + n <= o.len(),
            out@.len() == o.len(),
            olen == o.len(),
            out@ == splice(o, at as int, repeat(b, i as int)),
        decreases n - i,
    {
        out.set(at + i, b);
        proof {
            assert(out@ =~= splice(o, at as int, repeat(b, i + 1)));
        }
        i = i + 1;
    }
}

/// Pads `out` with zeros up to `len` bytes (`Vec::resize` when growing).
pub fn grow_to(out: &mut Vec<u8>, len: usize)
    ensures
        final(out)@ == grow(old(out)@, len as int),
{
    let ghost o = out@;
    if out.len() < len {
        let mut i = out.len();
        while i < len
            invariant
                o.len() <= i <= len,
                out@ == o + zero_seq(i - o.len()),
            decreases len - i,
        {
            out.push(0u8);
            proof {
                assert(out@ =~= o + zero_seq(i + 1 - o.len()));
            }
            i = i + 1;
        }
    }
}

/// Writes `data` at `offset`, growing `out` with zeros first when needed.
pub fn write_record(out: &mut Vec<u8>, offset: usize, data: &[u8])
    requires
        offset + data@.len() <= usize::MAX,
    ensures
        final(out)@ == write_at(old(out)@, offset as int, data@),
{
    grow_to(out, offset + data.len());
    copy_into(out, offset, data);
}

/// A `len`-byte buffer holding the first bytes of `src`, zero past its end.
pub fn prefix_filled(src: &[u8], len: usize) -> (v: Vec<u8>)
    ensures
        v@ == prefix_fill(src@, len as int),
{
    let mut v = zeros(len);
    let copy_len = if src.len() < len {
        src.len()
    } else {
        len
    };
    copy_into(&mut v, 0, &src[0..copy_len]);
    proof {
        assert(v@ =~= prefix_fill(src@, len as int));
    }
    v
}

/// XOR-s `data` onto `src[at..]` and writes the result to `out[at..]`.
pub fn xor_into(out: &mut Vec<u8>, at: usize, src: &[u8], data: &[u8])
    requires
        at + data@.len() <= old(out)@.len(),
    ensures
        final(out)@ == splice(old(out)@, at as int, xor_onto(src@, at as int, data@)),
{
    let ghost o = out@;
    let olen = out.len();
    let mut i: usize = 0;
    while i < data.len()
        invariant
            i <= data@.len(),
            at + data@.len() <= o.len(),
            out@.len() == o.len(),
            olen == o.len(),
            out@ == splice(o, at as int, xor_onto(src@, at as int, data@.take(i as int))),
        decreases data@.len() - i,
    {
        let s = if at + i < src.len() {
            src[at + i]
        } else {
            0u8
        };
        out.set(at + i, s ^ data[i]);
        proof {
            assert(out@ =~= splice(o, at as int, xor_onto(src@, at as int, data@.take(i + 1))));
        }
        i = i + 1;
    }
    proof {
        assert(data@.take(data@.len() as int) =~= data@);
    }
}

/// `out` with `len` bytes written at `at`, each copied from `period` bytes
/// earlier (`period = at - from`), so that a copy that overlaps its own output
/// repeats the `period` bytes that precede `at`.
pub open spec fn rle_copy(out: Seq<u8>, at: int, from: int, len: int) -> Seq<u8> {
    Seq::new(
        out.len(),
        |k: int|
            if at <= k < at + len {
                out[from + (k - at) % (at - from)]
            } else {
                out[k]
            },
    )
}

/// Copies `len` bytes byte by byte from `out[from..]` to `out[at..]`, where
/// `from < at`; overlapping copies repeat the earlier bytes.
pub fn rle_copy_into(out: &mut Vec<u8>, at: usize, from: usize, len: usize)
    requires
        from < at,
        at + len <= old(out)@.len(),
    ensures
        final(out)@ == rle_copy(old(out)@, at as int, from as int, len as int),
{
    let ghost o = out@;
    let ghost d = at - from;
    let olen = out.len();
    let mut i: usize = 0;
    while i < len
        invariant
            from < at,
            d == at - from,
            i <= len,
            at + len <= o.len(),
            olen == o.len(),
            out@.len() == o.len(),
            out@ == rle_copy(o, at as int, from as int, i as int),
        decreases len - i,
    {
        let b = out[from + i];
        proof {
            if from + i < at {
                vstd::arithmetic::div_mod::lemma_small_mod(i as nat, d as nat);
                assert(b == o[from + i]);
            } else {
                let k = from + i;
                assert(at <= k < at + i);
                assert(k - at == i - d);
                vstd::arithmetic::div_mod::lemma_mod_sub_multiples_vanish(i as int, d as int);
                assert(b == o[from + (i as int) % (d as int)]);
            }
        }
        out.set(at + i, b);
        proof {
            assert(out@ =~= rle_copy(o, at as int, from as int, i + 1));
        }
        i = i + 1;
    }
}

} // verus!
