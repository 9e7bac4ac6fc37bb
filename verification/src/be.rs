//! Fixed-width big-endian integers: the primitive codec.
//!
//! Every field of a table header is an unsigned integer stored big-endian.
//! `be_val` gives the value of a byte run, `be_bytes` the byte run of a
//! value, and the lemmas here show the two are inverse to each other.

use vstd::prelude::*;

verus! {

/// The value of a byte sequence read as a big-endian unsigned integer.
pub open spec fn be_val(s: Seq<u8>) -> nat
    decreases s.len(),
{
    if s.len() == 0 {
        0
    } else {
        be_val(s.drop_last()) * 256 + s.last() as nat
    }
}

/// The big-endian encoding of `v` in exactly `w` bytes.
pub open spec fn be_bytes(v: nat, w: nat) -> Seq<u8>
    decreases w,
{
    if w == 0 {
        Seq::empty()
    } else {
        be_bytes(v / 256, (w - 1) as nat).push((v % 256) as u8)
    }
}

/// `256^w`: the number of values a `w`-byte field can hold.
pub open spec fn pow256(w: nat) -> nat
    decreases w,
{
    if w == 0 {
        1
    } else {
        256 * pow256((w - 1) as nat)
    }
}

pub broadcast proof fn lemma_be_bytes_len(v: nat, w: nat)
    ensures
        (#[trigger] be_bytes(v, w)).len() == w,
    decreases w,
{
    if w > 0 {
        lemma_be_bytes_len(v / 256, (w - 1) as nat);
    }
}

pub broadcast proof fn lemma_be_val_bound(s: Seq<u8>)
    ensures
        #[trigger] be_val(s) < pow256(s.len()),
    decreases s.len(),
{
    if s.len() > 0 {
        lemma_be_val_bound(s.drop_last());
        assert(be_val(s.drop_last()) * 256 + s.last() < 256 * pow256(s.drop_last().len())) by (nonlinear_arith)
            requires
                be_val(s.drop_last()) < pow256(s.drop_last().len()),
                s.last() < 256,
        ;
    }
}

/// Decoding the encoding of a value that fits in `w` bytes gives the value back.
pub proof fn lemma_be_val_be_bytes(v: nat, w: nat)
    requires
        v < pow256(w),
    ensures
        be_val(be_bytes(v, w)) == v,
    decreases w,
{
    if w > 0 {
        assert(v / 256 < pow256((w - 1) as nat)) by (nonlinear_arith)
            requires
                v < 256 * pow256((w - 1) as nat),
        ;
        lemma_be_val_be_bytes(v / 256, (w - 1) as nat);
        let prefix = be_bytes(v / 256, (w - 1) as nat);
        let s = prefix.push((v % 256) as u8);
        assert(s.drop_last() =~= prefix);
        assert(s.last() == (v % 256) as u8);
        assert(v / 256 * 256 + v % 256 == v) by (nonlinear_arith);
    }
}

/// Encoding the value of a byte run at its own length gives the bytes back.
pub proof fn lemma_be_bytes_be_val(s: Seq<u8>)
    ensures
        be_bytes(be_val(s), s.len()) == s,
    decreases s.len(),
{
    if s.len() > 0 {
        let prefix = s.drop_last();
        let b = be_val(prefix);
        let v = b * 256 + s.last();
        assert(v / 256 == b && v % 256 == s.last()) by (nonlinear_arith)
            requires
                v == b * 256 + s.last(),
                s.last() < 256,
        ;
        lemma_be_bytes_be_val(prefix);
        assert(be_bytes(v as nat, s.len()) =~= s);
    }
}

/// Appends the big-endian encoding of `v` in exactly `w` bytes.
pub fn push_be(out: &mut Vec<u8>, v: u64, w: usize)
    requires
        v < pow256(w as nat),
    ensures
        final(out)@ == old(out)@ + be_bytes(v as nat, w as nat),
    decreases w,
{
    if w == 0 {
        proof {
            assert(out@ + be_bytes(v as nat, 0) =~= out@);
        }
    } else {
        proof {
            assert(v / 256 < pow256((w - 1) as nat)) by (nonlinear_arith)
                requires
                    v < 256 * pow256((w - 1) as nat),
            ;
        }
        push_be(out, v / 256, w - 1);
        out.push((v % 256) as u8);
        proof {
            assert(out@ =~= old(out)@ + be_bytes(v as nat, w as nat));
        }
    }
}

/// Reads up to four bytes as one big-endian unsigned value.
pub fn be_value_of(bytes: &Vec<u8>) -> (r: u64)
    requires
        bytes@.len() <= 4,
    ensures
        r == be_val(bytes@),
        r < pow256(bytes@.len()),
{
    proof {
        broadcast use lemma_be_val_bound;

        assert(pow256(4) == 0x1_0000_0000) by {
            reveal_with_fuel(pow256, 5);
        }
    }
    let mut val: u64 = 0;
    let mut i: usize = 0;
    while i < bytes.len()
        invariant
            bytes@.len() <= 4,
            i <= bytes@.len(),
            val == be_val(bytes@.subrange(0, i as int)),
            val < pow256(i as nat),
            pow256(4) == 0x1_0000_0000,
        decreases bytes@.len() - i,
    {
        proof {
            assert(bytes@.subrange(0, i + 1).drop_last() =~= bytes@.subrange(0, i as int));
            assert(pow256((i + 1) as nat) <= pow256(4)) by {
                reveal_with_fuel(pow256, 5);
            }
            assert(val * 256 + bytes@[i as int] < 256 * pow256(i as nat)) by (nonlinear_arith)
                requires
                    val < pow256(i as nat),
                    bytes@[i as int] < 256,
            ;
        }
        val = val * 256 + (bytes[i] as u64);
        i = i + 1;
    }
    proof {
        assert(bytes@.subrange(0, bytes@.len() as int) =~= bytes@);
    }
    val
}

} // verus!
