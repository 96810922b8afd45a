//! Little-endian byte encodings shared by the container codec and the
//! telemetry layout models.

use vstd::prelude::*;

verus! {

use vstd::bytes::{
    lemma_auto_spec_u16_to_from_le_bytes, lemma_auto_spec_u32_to_from_le_bytes,
    lemma_auto_spec_u64_to_from_le_bytes, spec_u16_from_le_bytes, spec_u16_to_le_bytes,
    spec_u32_from_le_bytes, spec_u32_to_le_bytes, spec_u64_from_le_bytes, spec_u64_to_le_bytes,
    u16_from_le_bytes, u16_to_le_bytes, u32_from_le_bytes, u32_to_le_bytes, u64_from_le_bytes,
    u64_to_le_bytes,
};
use vstd::slice::{slice_subrange, slice_to_vec};

/// The little-endian encoding of a signed 32-bit value: the encoding of
/// its two's-complement bit pattern.
pub open spec fn spec_i32_to_le_bytes(x: i32) -> Seq<u8> {
    spec_u32_to_le_bytes(x as u32)
}

/// The signed 32-bit value whose two's-complement bit pattern is stored
/// little-endian in the four given bytes.
pub open spec fn spec_i32_from_le_bytes(s: Seq<u8>) -> i32 {
    spec_u32_from_le_bytes(s) as i32
}

pub proof fn lemma_i32_le_bytes_round_trip()
    ensures
        forall|x: i32| (#[trigger] spec_i32_to_le_bytes(x)).len() == 4,
        forall|x: i32| spec_i32_from_le_bytes(#[trigger] spec_i32_to_le_bytes(x)) == x,
        forall|s: Seq<u8>|
            s.len() == 4 ==> spec_i32_to_le_bytes(#[trigger] spec_i32_from_le_bytes(s)) == s,
{
    lemma_auto_spec_u32_to_from_le_bytes();
    assert forall|x: i32| (#[trigger] spec_i32_to_le_bytes(x)).len() == 4 by {
        assert(spec_u32_to_le_bytes(x as u32).len() == 4);
    };
    assert forall|x: i32| spec_i32_from_le_bytes(#[trigger] spec_i32_to_le_bytes(x)) == x by {
        assert(spec_u32_to_le_bytes(x as u32).len() == 4);
        assert((x as u32) as i32 == x) by (bit_vector);
    };
    assert forall|s: Seq<u8>| s.len() == 4 implies spec_i32_to_le_bytes(
        #[trigger] spec_i32_from_le_bytes(s),
    ) == s by {
        let v = spec_u32_from_le_bytes(s);
        assert(spec_u32_to_le_bytes(spec_u32_from_le_bytes(s)) == s);
        assert(((v as i32) as u32) == v) by (bit_vector);
    };
}

/// Appends every byte of `src` to `out`, in order.
pub fn push_bytes(out: &mut Vec<u8>, src: &[u8])
    ensures
        final(out)@ == old(out)@ + src@,
{
    let mut i: usize = 0;
    while i < src.len()
        invariant
            i <= src@.len(),
            out@ == old(out)@ + src@.subrange(0, i as int),
        decreases src@.len() - i,
    {
        out.push(src[i]);
        i = i + 1;
        proof {
            assert(src@.subrange(0, i as int) =~= src@.subrange(0, i - 1).push(src@[i - 1]));
        }
    }
    proof {
        assert(src@.subrange(0, src@.len() as int) =~= src@);
    }
}

/// Appends `n` copies of `byte` to `out`.
pub fn push_repeated(out: &mut Vec<u8>, byte: u8, n: usize)
    ensures
        final(out)@ == old(out)@ + Seq::new(n as nat, |i: int| byte),
{
    let mut i: usize = 0;
    while i < n
        invariant
            i <= n,
            out@ == old(out)@ + Seq::new(i as nat, |j: int| byte),
        decreases n - i,
    {
        out.push(byte);
        i = i + 1;
        proof {
            assert(Seq::new(i as nat, |j: int| byte) =~= Seq::new((i - 1) as nat, |j: int| byte)
                .push(byte));
        }
    }
}

pub fn push_u32_le(out: &mut Vec<u8>, x: u32)
    ensures
        final(out)@ == old(out)@ + spec_u32_to_le_bytes(x),
{
    let mut b = u32_to_le_bytes(x);
    out.append(&mut b);
}

pub fn push_i32_le(out: &mut Vec<u8>, x: i32)
    ensures
        final(out)@ == old(out)@ + spec_i32_to_le_bytes(x),
{
    push_u32_le(out, x as u32);
}

pub fn push_u64_le(out: &mut Vec<u8>, x: u64)
    ensures
        final(out)@ == old(out)@ + spec_u64_to_le_bytes(x),
{
    let mut b = u64_to_le_bytes(x);
    out.append(&mut b);
}

pub fn read_u32_le(bytes: &[u8], pos: usize) -> (r: u32)
    requires
        pos + 4 <= bytes@.len(),
    ensures
        r == spec_u32_from_le_bytes(bytes@.subrange(pos as int, pos as int + 4)),
{
    proof {
        vstd::slice::axiom_spec_len::<u8>(bytes);
    }
    let s = slice_subrange(bytes, pos, pos + 4);
    u32_from_le_bytes(s)
}

pub fn read_i32_le(bytes: &[u8], pos: usize) -> (r: i32)
    requires
        pos + 4 <= bytes@.len(),
    ensures
        r == spec_i32_from_le_bytes(bytes@.subrange(pos as int, pos as int + 4)),
{
    read_u32_le(bytes, pos) as i32
}

pub fn read_u64_le(bytes: &[u8], pos: usize) -> (r: u64)
    requires
        pos + 8 <= bytes@.len(),
    ensures
        r == spec_u64_from_le_bytes(bytes@.subrange(pos as int, pos as int + 8)),
{
    proof {
        vstd::slice::axiom_spec_len::<u8>(bytes);
    }
    let s = slice_subrange(bytes, pos, pos + 8);
    u64_from_le_bytes(s)
}

/// Copies the bytes of `src` in positions `from..to` into a fresh vector.
pub fn copy_range(src: &[u8], from: usize, to: usize) -> (r: Vec<u8>)
    requires
        from <= to <= src@.len(),
    ensures
        r@ == src@.subrange(from as int, to as int),
{
    slice_to_vec(slice_subrange(src, from, to))
}

pub fn push_u16_le(out: &mut Vec<u8>, x: u16)
    ensures
        final(out)@ == old(out)@ + spec_u16_to_le_bytes(x),
{
    let mut b = u16_to_le_bytes(x);
    out.append(&mut b);
}

pub fn read_u16_le(bytes: &[u8], pos: usize) -> (r: u16)
    requires
        pos + 2 <= bytes@.len(),
    ensures
        r == spec_u16_from_le_bytes(bytes@.subrange(pos as int, pos as int + 2)),
{
    proof {
        vstd::slice::axiom_spec_len::<u8>(bytes);
    }
    let s = slice_subrange(bytes, pos, pos + 2);
    u16_from_le_bytes(s)
}

pub proof fn lemma_u16_le_bytes_round_trip()
    ensures
        forall|x: u16| (#[trigger] spec_u16_to_le_bytes(x)).len() == 2,
        forall|x: u16| spec_u16_from_le_bytes(#[trigger] spec_u16_to_le_bytes(x)) == x,
        forall|s: Seq<u8>|
            s.len() == 2 ==> spec_u16_to_le_bytes(#[trigger] spec_u16_from_le_bytes(s)) == s,
{
    lemma_auto_spec_u16_to_from_le_bytes();
    assert forall|x: u16| (#[trigger] spec_u16_to_le_bytes(x)).len() == 2
        && spec_u16_from_le_bytes(spec_u16_to_le_bytes(x)) == x by {
        assert(spec_u16_to_le_bytes(x).len() == 2);
    };
    assert forall|s: Seq<u8>| s.len() == 2 implies spec_u16_to_le_bytes(
        #[trigger] spec_u16_from_le_bytes(s),
    ) == s by {
        assert(spec_u16_to_le_bytes(spec_u16_from_le_bytes(s)) == s);
    };
}

/// The little-endian encoding of a sequence of 16-bit values, laid end
/// to end.
pub open spec fn spec_u16s_le_bytes(v: Seq<u16>) -> Seq<u8>
    decreases v.len(),
{
    if v.len() == 0 {
        Seq::empty()
    } else {
        spec_u16_to_le_bytes(v[0]) + spec_u16s_le_bytes(v.drop_first())
    }
}

/// The 16-bit values stored little-endian, two bytes each, in `s`.
pub open spec fn spec_u16s_from_le_bytes(s: Seq<u8>) -> Seq<u16> {
    Seq::new((s.len() / 2) as nat, |i: int| spec_u16_from_le_bytes(s.subrange(2 * i, 2 * i + 2)))
}

pub proof fn lemma_u16s_le_bytes_len(v: Seq<u16>)
    ensures
        spec_u16s_le_bytes(v).len() == 2 * v.len(),
    decreases v.len(),
{
    lemma_u16_le_bytes_round_trip();
    if v.len() > 0 {
        lemma_u16s_le_bytes_len(v.drop_first());
    }
}

pub proof fn lemma_u16s_le_bytes_push(v: Seq<u16>, x: u16)
    ensures
        spec_u16s_le_bytes(v.push(x)) == spec_u16s_le_bytes(v) + spec_u16_to_le_bytes(x),
    decreases v.len(),
{
    if v.len() == 0 {
        assert(v.push(x)[0] == x);
        assert(v.push(x).drop_first() =~= Seq::<u16>::empty());
        assert(spec_u16_to_le_bytes(x) + spec_u16s_le_bytes(Seq::<u16>::empty())
            =~= spec_u16_to_le_bytes(x));
        assert(spec_u16s_le_bytes(v) + spec_u16_to_le_bytes(x) =~= spec_u16_to_le_bytes(x));
    } else {
        lemma_u16s_le_bytes_push(v.drop_first(), x);
        assert(v.push(x)[0] == v[0]);
        assert(v.push(x).drop_first() =~= v.drop_first().push(x));
        assert(spec_u16_to_le_bytes(v[0]) + (spec_u16s_le_bytes(v.drop_first())
            + spec_u16_to_le_bytes(x)) =~= (spec_u16_to_le_bytes(v[0]) + spec_u16s_le_bytes(
            v.drop_first(),
        )) + spec_u16_to_le_bytes(x));
    }
}

pub proof fn lemma_u16s_le_bytes_round_trip(v: Seq<u16>)
    ensures
        spec_u16s_from_le_bytes(spec_u16s_le_bytes(v)) == v,
    decreases v.len(),
{
    lemma_u16_le_bytes_round_trip();
    lemma_u16s_le_bytes_len(v);
    let s = spec_u16s_le_bytes(v);
    if v.len() == 0 {
        assert(spec_u16s_from_le_bytes(s) =~= v);
    } else {
        let first = spec_u16_to_le_bytes(v[0]);
        let rest = spec_u16s_le_bytes(v.drop_first());
        lemma_u16s_le_bytes_len(v.drop_first());
        lemma_u16s_le_bytes_round_trip(v.drop_first());
        assert(s == first + rest);
        assert(first.len() == 2);
        assert forall|i: int| 0 <= i < v.len() implies spec_u16s_from_le_bytes(s)[i] == v[i] by {
            if i == 0 {
                assert(s.subrange(0, 2) =~= first);
            } else {
                assert(s.subrange(2 * i, 2 * i + 2) =~= rest.subrange(
                    2 * (i - 1),
                    2 * (i - 1) + 2,
                ));
                assert(spec_u16s_from_le_bytes(rest)[i - 1] == v.drop_first()[i - 1]);
                assert(v.drop_first()[i - 1] == v[i]);
            }
        }
        assert(spec_u16s_from_le_bytes(s) =~= v);
    }
}

/// Appends the little-endian encoding of every value of `vals` to `out`.
pub fn push_u16s_le(out: &mut Vec<u8>, vals: &Vec<u16>)
    ensures
        final(out)@ == old(out)@ + spec_u16s_le_bytes(vals@),
{
    let mut i: usize = 0;
    while i < vals.len()
        invariant
            i <= vals@.len(),
            out@ == old(out)@ + spec_u16s_le_bytes(vals@.subrange(0, i as int)),
        decreases vals@.len() - i,
    {
        push_u16_le(out, vals[i]);
        i = i + 1;
        proof {
            lemma_u16s_le_bytes_push(vals@.subrange(0, i - 1), vals@[i - 1]);
            assert(vals@.subrange(0, i as int) =~= vals@.subrange(0, i - 1).push(vals@[i - 1]));
        }
    }
    proof {
        assert(vals@.subrange(0, vals@.len() as int) =~= vals@);
    }
}

/// Reads `count` 16-bit values stored little-endian at `pos`.
pub fn read_u16s_le(bytes: &[u8], pos: usize, count: usize) -> (r: Vec<u16>)
    requires
        pos + 2 * count <= bytes@.len(),
    ensures
        r@ == spec_u16s_from_le_bytes(bytes@.subrange(pos as int, pos as int + 2 * count)),
        r@.len() == count,
{
    let ghost sub = bytes@.subrange(pos as int, pos as int + 2 * count);
    proof {
        vstd::slice::axiom_spec_len::<u8>(bytes);
    }
    let mut r: Vec<u16> = Vec::new();
    let mut i: usize = 0;
    while i < count
        invariant
            i <= count,
            pos + 2 * count <= bytes@.len(),
            bytes@.len() <= usize::MAX,
            sub == bytes@.subrange(pos as int, pos as int + 2 * count),
            r@.len() == i,
            forall|j: int|
                0 <= j < i ==> r@[j] == spec_u16_from_le_bytes(
                    #[trigger] sub.subrange(2 * j, 2 * j + 2),
                ),
        decreases count - i,
    {
        let v = read_u16_le(bytes, pos + 2 * i);
        proof {
            assert(bytes@.subrange(
                pos as int + 2 * (i as int),
                pos as int + 2 * (i as int) + 2,
            ) =~= sub.subrange(2 * (i as int), 2 * (i as int) + 2));
        }
        r.push(v);
        i = i + 1;
    }
    proof {
        assert(r@ =~= spec_u16s_from_le_bytes(sub));
    }
    r
}

/// A vector of `n` zero bytes.
pub fn zero_bytes(n: usize) -> (r: Vec<u8>)
    ensures
        r@ == Seq::new(n as nat, |i: int| 0u8),
{
    let mut r: Vec<u8> = Vec::new();
    push_repeated(&mut r, 0, n);
    proof {
        assert(Seq::<u8>::empty() + Seq::new(n as nat, |i: int| 0u8) =~= Seq::new(
            n as nat,
            |i: int| 0u8,
        ));
    }
    r
}

/// A vector of `n` zero 16-bit values.
pub fn zero_u16s(n: usize) -> (r: Vec<u16>)
    ensures
        r@ == Seq::new(n as nat, |i: int| 0u16),
{
    let mut r: Vec<u16> = Vec::new();
    let mut i: usize = 0;
    while i < n
        invariant
            i <= n,
            r@ =~= Seq::new(i as nat, |j: int| 0u16),
        decreases n - i,
    {
        r.push(0);
        i = i + 1;
    }
    proof {
        assert(r@ =~= Seq::new(n as nat, |i: int| 0u16));
    }
    r
}

pub proof fn lemma_u32_le_bytes_round_trip()
    ensures
        forall|x: u32| (#[trigger] spec_u32_to_le_bytes(x)).len() == 4,
        forall|x: u32| spec_u32_from_le_bytes(#[trigger] spec_u32_to_le_bytes(x)) == x,
        forall|s: Seq<u8>|
            s.len() == 4 ==> spec_u32_to_le_bytes(#[trigger] spec_u32_from_le_bytes(s)) == s,
{
    lemma_auto_spec_u32_to_from_le_bytes();
    assert forall|x: u32| (#[trigger] spec_u32_to_le_bytes(x)).len() == 4
        && spec_u32_from_le_bytes(spec_u32_to_le_bytes(x)) == x by {
        assert(spec_u32_to_le_bytes(x).len() == 4);
    };
    assert forall|s: Seq<u8>| s.len() == 4 implies spec_u32_to_le_bytes(
        #[trigger] spec_u32_from_le_bytes(s),
    ) == s by {
        assert(spec_u32_to_le_bytes(spec_u32_from_le_bytes(s)) == s);
    };
}

pub proof fn lemma_u64_le_bytes_round_trip()
    ensures
        forall|x: u64| (#[trigger] spec_u64_to_le_bytes(x)).len() == 8,
        forall|x: u64| spec_u64_from_le_bytes(#[trigger] spec_u64_to_le_bytes(x)) == x,
        forall|s: Seq<u8>|
            s.len() == 8 ==> spec_u64_to_le_bytes(#[trigger] spec_u64_from_le_bytes(s)) == s,
{
    lemma_auto_spec_u64_to_from_le_bytes();
    assert forall|x: u64| (#[trigger] spec_u64_to_le_bytes(x)).len() == 8
        && spec_u64_from_le_bytes(spec_u64_to_le_bytes(x)) == x by {
        assert(spec_u64_to_le_bytes(x).len() == 8);
    };
    assert forall|s: Seq<u8>| s.len() == 8 implies spec_u64_to_le_bytes(
        #[trigger] spec_u64_from_le_bytes(s),
    ) == s by {
        assert(spec_u64_to_le_bytes(spec_u64_from_le_bytes(s)) == s);
    };
}

} // verus!
