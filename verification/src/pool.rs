//! Offset-pooled optional-field codec: the core algorithm.
//!
//! Zero or more optional variable-length payloads are laid out contiguously
//! in a pool after the fixed header, in declaration order, skipping absent
//! ones.  Each field's `(offset, length)` pair goes into the header, with
//! offset 0 as the sentinel for "absent" — so a present field's offset is
//! always at least the header size, and the two cases can never be
//! confused.  Offsets are relative to the table's own origin, which is what
//! lets a table be relocated inside an enclosing buffer without re-deriving
//! any offset.

use vstd::prelude::*;

use crate::cursor::Cursor;
use crate::errors::CodecError;

verus! {

/// The payload of one optional field, or nothing for an absent field.
pub open spec fn payload_of(f: Option<Vec<u8>>) -> Seq<u8> {
    match f {
        Some(p) => p@,
        None => Seq::empty(),
    }
}

/// The pool: the concatenation of the present payloads in declaration
/// order, with no gaps or padding.
pub open spec fn pool_concat(fields: Seq<Option<Vec<u8>>>) -> Seq<u8>
    decreases fields.len(),
{
    if fields.len() == 0 {
        Seq::empty()
    } else {
        payload_of(fields[0]) + pool_concat(fields.drop_first())
    }
}

/// The header offset of field `i`'s payload: the header size plus the
/// lengths of all earlier present payloads.
pub open spec fn pool_offset(header_size: nat, fields: Seq<Option<Vec<u8>>>, i: int) -> nat {
    header_size + pool_concat(fields.take(i)).len()
}

pub proof fn lemma_pool_concat_concat(a: Seq<Option<Vec<u8>>>, b: Seq<Option<Vec<u8>>>)
    ensures
        pool_concat(a + b) == pool_concat(a) + pool_concat(b),
    decreases a.len(),
{
    if a.len() == 0 {
        assert(a + b =~= b);
        assert(pool_concat(a) + pool_concat(b) =~= pool_concat(b));
    } else {
        assert((a + b).drop_first() =~= a.drop_first() + b);
        lemma_pool_concat_concat(a.drop_first(), b);
        assert(pool_concat(a + b) =~= pool_concat(a) + pool_concat(b));
    }
}

pub proof fn lemma_pool_concat_snoc(fields: Seq<Option<Vec<u8>>>, f: Option<Vec<u8>>)
    ensures
        pool_concat(fields.push(f)) == pool_concat(fields) + payload_of(f),
{
    reveal_with_fuel(pool_concat, 3);
    lemma_pool_concat_concat(fields, seq![f]);
    assert(fields.push(f) =~= fields + seq![f]);
    assert(seq![f].drop_first() =~= Seq::<Option<Vec<u8>>>::empty());
    assert(pool_concat(seq![f]) =~= payload_of(f));
}

/// No field's payload starts past the end of the pool.
pub proof fn lemma_pool_offset_le(header_size: nat, fields: Seq<Option<Vec<u8>>>, i: int)
    requires
        0 <= i <= fields.len(),
    ensures
        pool_offset(header_size, fields, i) <= header_size + pool_concat(fields).len(),
        i < fields.len() ==> pool_offset(header_size, fields, i) + payload_of(fields[i]).len()
            <= header_size + pool_concat(fields).len(),
{
    lemma_pool_concat_concat(fields.take(i), fields.skip(i));
    assert(fields.take(i) + fields.skip(i) =~= fields);
    if i < fields.len() {
        lemma_pool_concat_concat(fields.take(i + 1), fields.skip(i + 1));
        assert(fields.take(i + 1) + fields.skip(i + 1) =~= fields);
        lemma_pool_concat_snoc(fields.take(i as int), fields[i]);
        assert(fields.take(i + 1) =~= fields.take(i as int).push(fields[i]));
    }
}

/// Lays the present payloads out as a contiguous pool and computes each
/// field's `(offset, length)` header pair: `(0, 0)` for an absent field,
/// and for a present one the running offset — header size plus the lengths
/// of all earlier present payloads — with the payload's own length.
pub fn layout_pool(header_size: usize, fields: &Vec<Option<Vec<u8>>>) -> (r: (
    Vec<(usize, usize)>,
    Vec<u8>,
))
    requires
        header_size + pool_concat(fields@).len() <= usize::MAX,
    ensures
        r.0@.len() == fields@.len(),
        forall|i: int|
            0 <= i < fields@.len() ==> #[trigger] r.0@[i] == (match fields@[i] {
                Some(p) => (
                    pool_offset(header_size as nat, fields@, i) as usize,
                    p@.len() as usize,
                ),
                None => (0usize, 0usize),
            }),
        r.1@ == pool_concat(fields@),
{
    let mut pairs: Vec<(usize, usize)> = Vec::new();
    let mut pool: Vec<u8> = Vec::new();
    let mut offset: usize = header_size;
    let mut i: usize = 0;
    while i < fields.len()
        invariant
            i <= fields@.len(),
            header_size + pool_concat(fields@).len() <= usize::MAX,
            pairs@.len() == i,
            offset == pool_offset(header_size as nat, fields@, i as int),
            pool@ == pool_concat(fields@.take(i as int)),
            forall|j: int|
                0 <= j < i ==> #[trigger] pairs@[j] == (match fields@[j] {
                    Some(p) => (
                        pool_offset(header_size as nat, fields@, j) as usize,
                        p@.len() as usize,
                    ),
                    None => (0usize, 0usize),
                }),
        decreases fields@.len() - i,
    {
        proof {
            lemma_pool_offset_le(header_size as nat, fields@, i as int);
            lemma_pool_concat_snoc(fields@.take(i as int), fields@[i as int]);
            assert(fields@.take(i + 1) =~= fields@.take(i as int).push(fields@[i as int]));
        }
        match &fields[i] {
            Some(p) => {
                pairs.push((offset, p.len()));
                append_bytes(&mut pool, p);
                offset = offset + p.len();
            },
            None => {
                pairs.push((0, 0));
            },
        }
        i = i + 1;
    }
    proof {
        assert(fields@.take(fields@.len() as int) =~= fields@);
    }
    (pairs, pool)
}

/// Appends a copy of `src` to `out`.
pub fn append_bytes(out: &mut Vec<u8>, src: &Vec<u8>)
    ensures
        final(out)@ == old(out)@ + src@,
{
    let mut i: usize = 0;
    while i < src.len()
        invariant
            i <= src@.len(),
            out@ =~= old(out)@ + src@.subrange(0, i as int),
        decreases src@.len() - i,
    {
        proof {
            assert((old(out)@ + src@.subrange(0, i as int)).push(src@[i as int]) =~= old(out)@
                + src@.subrange(0, i + 1));
        }
        out.push(src[i]);
        i = i + 1;
    }
    proof {
        assert(src@.subrange(0, src@.len() as int) =~= src@);
    }
}

/// A fresh copy of `src`, so that a decoded payload outlives the buffer it
/// was read from.
pub fn copy_bytes(src: &Vec<u8>) -> (r: Vec<u8>)
    ensures
        r@ == src@,
{
    let mut out: Vec<u8> = Vec::new();
    append_bytes(&mut out, src);
    proof {
        assert(Seq::<u8>::empty() + src@ =~= src@);
    }
    out
}

/// Resolves one optional field from its header `(offset, length)` pair, by
/// the sentinel convention: offset 0 means absent; a nonzero offset is
/// taken relative to the origin of the table being decoded, and exactly
/// `length` bytes are read there.  Fields are resolved independently; the
/// origin stack is never disturbed.
pub fn read_optional_field(c: &mut Cursor, data: &Vec<u8>, offset: usize, length: usize) -> (r:
    Result<Option<Vec<u8>>, CodecError>)
    requires
        old(c).origins@.len() > 0,
    ensures
        final(c).origins == old(c).origins,
        match r {
            Ok(opt) => match opt {
                Some(b) => {
                    &&& offset > 0
                    &&& old(c).origins@.last() + offset + length <= data@.len()
                    &&& b@ == data@.subrange(
                        old(c).origins@.last() + offset,
                        old(c).origins@.last() + offset + length,
                    )
                    &&& final(c).pos == old(c).origins@.last() + offset + length
                },
                None => {
                    &&& offset == 0
                    &&& *final(c) == *old(c)
                },
            },
            Err(e) => {
                &&& offset > 0
                &&& old(c).origins@.last() + offset + length > data@.len()
                &&& e == (CodecError::OutOfData {
                    requested: length,
                    available: (if old(c).origins@.last() + offset <= data@.len() {
                        data@.len() - old(c).origins@.last() - offset
                    } else {
                        0
                    }) as usize,
                })
            },
        },
{
    if offset == 0 {
        return Ok(None);
    }
    let base = c.top_of_table();
    if base > data.len() || offset > data.len() - base {
        return Err(CodecError::OutOfData { requested: length, available: 0 });
    }
    c.seek(base + offset);
    match c.read_counted(data, length) {
        Ok(b) => Ok(Some(b)),
        Err(e) => Err(e),
    }
}

} // verus!
