//! Fixed-layout record codec.
//!
//! A table header is an ordered list of named, fixed-width, big-endian
//! unsigned fields.  Decoding consumes exactly the sum of the field widths
//! and yields one value per field; encoding appends exactly that many
//! bytes.  This layer knows nothing about variable-length data: it only
//! establishes the header shape that the offset-pool codec annotates.

use vstd::prelude::*;

use crate::be::{be_bytes, be_val, be_value_of, pow256, push_be};
use crate::be::lemma_be_bytes_len;
use crate::cursor::Cursor;
use crate::errors::CodecError;

verus! {

/// Byte width of one unsigned header field (1, 2 or 4 bytes).
#[derive(Clone, Copy, Debug, PartialEq, Eq, Structural)]
pub enum FieldWidth {
    W1,
    W2,
    W4,
}

/// The width in bytes, as a mathematical number.
pub open spec fn width_of(w: FieldWidth) -> nat {
    match w {
        FieldWidth::W1 => 1,
        FieldWidth::W2 => 2,
        FieldWidth::W4 => 4,
    }
}

/// One more than the largest value a field of width `w` can hold.
pub open spec fn width_bound(w: FieldWidth) -> nat {
    pow256(width_of(w))
}

impl FieldWidth {
    /// The width in bytes, as a machine number.
    pub fn bytes(self) -> (n: usize)
        ensures
            n == width_of(self),
    {
        match self {
            FieldWidth::W1 => 1,
            FieldWidth::W2 => 2,
            FieldWidth::W4 => 4,
        }
    }
}

/// A named fixed-width unsigned-integer field: metadata that drives the
/// record codec.  Never persisted, only used to interpret or produce bytes.
pub struct FieldDesc {
    /// The field's name in the table schema, for diagnostics and readers.
    pub name: &'static str,
    /// How many bytes the field occupies on the wire.
    pub width: FieldWidth,
}

/// The sum of the field widths: how many bytes the whole record occupies.
pub open spec fn total_width(fields: Seq<FieldDesc>) -> nat
    decreases fields.len(),
{
    if fields.len() == 0 {
        0
    } else {
        width_of(fields[0].width) + total_width(fields.drop_first())
    }
}

/// Where field `i` starts, relative to the start of the record.
pub open spec fn field_offset(fields: Seq<FieldDesc>, i: int) -> nat {
    total_width(fields.take(i))
}

/// The concatenation of the big-endian encodings of `vals`, one per field,
/// each at its field's width.
pub open spec fn record_bytes(fields: Seq<FieldDesc>, vals: Seq<u64>) -> Seq<u8>
    decreases fields.len(),
{
    if fields.len() == 0 {
        Seq::empty()
    } else {
        be_bytes(vals[0] as nat, width_of(fields[0].width)) + record_bytes(
            fields.drop_first(),
            vals.drop_first(),
        )
    }
}

pub proof fn lemma_total_width_concat(a: Seq<FieldDesc>, b: Seq<FieldDesc>)
    ensures
        total_width(a + b) == total_width(a) + total_width(b),
    decreases a.len(),
{
    if a.len() == 0 {
        assert(a + b =~= b);
    } else {
        assert((a + b).drop_first() =~= a.drop_first() + b);
        lemma_total_width_concat(a.drop_first(), b);
    }
}

/// A prefix of a record never occupies more bytes than the whole record.
pub proof fn lemma_field_offset_le(fields: Seq<FieldDesc>, i: int)
    requires
        0 <= i <= fields.len(),
    ensures
        field_offset(fields, i) <= total_width(fields),
        i < fields.len() ==> field_offset(fields, i) + width_of(fields[i].width) <= total_width(
            fields,
        ),
{
    lemma_total_width_concat(fields.take(i), fields.skip(i));
    assert(fields.take(i) + fields.skip(i) =~= fields);
    if i < fields.len() {
        lemma_total_width_concat(fields.take(i + 1), fields.skip(i + 1));
        assert(fields.take(i + 1) + fields.skip(i + 1) =~= fields);
        lemma_total_width_snoc(fields.take(i + 1));
        assert(fields.take(i + 1).drop_last() =~= fields.take(i));
        assert(fields.take(i + 1).last() == fields[i]);
    }
}

/// Consecutive fields are laid out back to back: the next field starts
/// where the previous one ends.
pub proof fn lemma_field_offset_step(fields: Seq<FieldDesc>, i: int)
    requires
        0 <= i < fields.len(),
    ensures
        field_offset(fields, i + 1) == field_offset(fields, i) + width_of(fields[i].width),
{
    lemma_total_width_snoc(fields.take(i + 1));
    assert(fields.take(i + 1).drop_last() =~= fields.take(i));
    assert(fields.take(i + 1).last() == fields[i]);
}

proof fn lemma_total_width_snoc(fields: Seq<FieldDesc>)
    requires
        fields.len() > 0,
    ensures
        total_width(fields) == total_width(fields.drop_last()) + width_of(fields.last().width),
{
    reveal_with_fuel(total_width, 3);
    lemma_total_width_concat(fields.drop_last(), seq![fields.last()]);
    assert(fields.drop_last() + seq![fields.last()] =~= fields);
    assert(seq![fields.last()].drop_first() =~= Seq::<FieldDesc>::empty());
    assert(total_width(seq![fields.last()]) == width_of(fields.last().width));
}

pub proof fn lemma_record_bytes_snoc(fields: Seq<FieldDesc>, vals: Seq<u64>, f: FieldDesc, v: u64)
    requires
        fields.len() == vals.len(),
    ensures
        record_bytes(fields.push(f), vals.push(v)) == record_bytes(fields, vals) + be_bytes(
            v as nat,
            width_of(f.width),
        ),
    decreases fields.len(),
{
    reveal_with_fuel(record_bytes, 3);
    if fields.len() == 0 {
        assert(fields.push(f).drop_first() =~= Seq::<FieldDesc>::empty());
        assert(vals.push(v).drop_first() =~= Seq::<u64>::empty());
        assert(record_bytes(fields.push(f), vals.push(v)) =~= be_bytes(
            v as nat,
            width_of(f.width),
        ));
        assert(record_bytes(fields, vals) + be_bytes(v as nat, width_of(f.width)) =~= be_bytes(
            v as nat,
            width_of(f.width),
        ));
    } else {
        assert(fields.push(f).drop_first() =~= fields.drop_first().push(f));
        assert(vals.push(v).drop_first() =~= vals.drop_first().push(v));
        lemma_record_bytes_snoc(fields.drop_first(), vals.drop_first(), f, v);
        assert(record_bytes(fields.push(f), vals.push(v)) =~= record_bytes(fields, vals)
            + be_bytes(v as nat, width_of(f.width)));
    }
}

/// The encoded record is exactly as long as the sum of the field widths.
pub proof fn lemma_record_bytes_len(fields: Seq<FieldDesc>, vals: Seq<u64>)
    requires
        fields.len() == vals.len(),
    ensures
        record_bytes(fields, vals).len() == total_width(fields),
    decreases fields.len(),
{
    broadcast use lemma_be_bytes_len;

    if fields.len() > 0 {
        lemma_record_bytes_len(fields.drop_first(), vals.drop_first());
    }
}

/// Decodes one fixed-layout record at the cursor: one unsigned value per
/// field, in order, each read big-endian at its declared width.  Consumes
/// exactly the sum of the field widths, or fails with `OutOfData` without
/// moving the cursor when fewer bytes remain.
pub fn decode_record(c: &mut Cursor, data: &Vec<u8>, fields: &Vec<FieldDesc>) -> (r: Result<
    Vec<u64>,
    CodecError,
>)
    requires
        total_width(fields@) <= usize::MAX,
    ensures
        match r {
            Ok(vals) => {
                &&& old(c).pos + total_width(fields@) <= data@.len()
                &&& vals@.len() == fields@.len()
                &&& forall|i: int|
                    0 <= i < fields@.len() ==> #[trigger] vals@[i] as nat == be_val(
                        data@.subrange(
                            old(c).pos + field_offset(fields@, i),
                            old(c).pos + field_offset(fields@, i) + width_of(fields@[i].width),
                        ),
                    )
                &&& forall|i: int|
                    0 <= i < fields@.len() ==> #[trigger] vals@[i] < width_bound(fields@[i].width)
                &&& final(c).pos == old(c).pos + total_width(fields@)
                &&& final(c).origins == old(c).origins
            },
            Err(e) => {
                &&& old(c).pos + total_width(fields@) > data@.len()
                &&& e == (CodecError::OutOfData {
                    requested: total_width(fields@) as usize,
                    available: old(c).spec_remaining(data@) as usize,
                })
                &&& *final(c) == *old(c)
            },
        },
{
    let total = record_width(fields);
    if c.pos > data.len() || total > data.len() - c.pos {
        let remaining = if c.pos <= data.len() {
            data.len() - c.pos
        } else {
            0
        };
        return Err(CodecError::OutOfData { requested: total, available: remaining });
    }
    let mut vals: Vec<u64> = Vec::new();
    let mut i: usize = 0;
    while i < fields.len()
        invariant
            i <= fields@.len(),
            vals@.len() == i,
            total_width(fields@) <= usize::MAX,
            old(c).pos + total_width(fields@) <= data@.len(),
            data@.len() <= usize::MAX,
            c.pos == old(c).pos + field_offset(fields@, i as int),
            c.origins == old(c).origins,
            forall|j: int|
                0 <= j < i ==> #[trigger] vals@[j] as nat == be_val(
                    data@.subrange(
                        old(c).pos + field_offset(fields@, j),
                        old(c).pos + field_offset(fields@, j) + width_of(fields@[j].width),
                    ),
                ),
            forall|j: int| 0 <= j < i ==> #[trigger] vals@[j] < width_bound(fields@[j].width),
        decreases fields@.len() - i,
    {
        proof {
            lemma_field_offset_le(fields@, i as int);
        }
        let w = fields[i].width.bytes();
        let bytes = match c.read_fixed(data, w) {
            Ok(b) => b,
            Err(e) => {
                proof {
                    assert(false);
                }
                return Err(e);
            },
        };
        let v = be_value_of(&bytes);
        vals.push(v);
        proof {
            assert(fields@.take(i + 1).drop_last() =~= fields@.take(i as int));
            lemma_total_width_snoc(fields@.take(i + 1));
        }
        i = i + 1;
    }
    proof {
        assert(fields@.take(fields@.len() as int) =~= fields@);
    }
    Ok(vals)
}

/// The sum of the field widths, as a machine number.
pub fn record_width(fields: &Vec<FieldDesc>) -> (total: usize)
    requires
        total_width(fields@) <= usize::MAX,
    ensures
        total == total_width(fields@),
{
    let mut total: usize = 0;
    let mut i: usize = 0;
    while i < fields.len()
        invariant
            i <= fields@.len(),
            total_width(fields@) <= usize::MAX,
            total == field_offset(fields@, i as int),
        decreases fields@.len() - i,
    {
        proof {
            lemma_field_offset_le(fields@, i as int);
            assert(fields@.take(i + 1).drop_last() =~= fields@.take(i as int));
            lemma_total_width_snoc(fields@.take(i + 1));
        }
        total = total + fields[i].width.bytes();
        i = i + 1;
    }
    proof {
        assert(fields@.take(fields@.len() as int) =~= fields@);
    }
    total
}

/// Encodes named values back into one contiguous record: appends, for each
/// field in order, the big-endian encoding of its value at its declared
/// width.  Fails with `StructuralMismatch`, appending nothing, when the
/// number of values does not match the number of declared fields.
pub fn encode_record(out: &mut Vec<u8>, fields: &Vec<FieldDesc>, vals: &Vec<u64>) -> (r: Result<
    (),
    CodecError,
>)
    requires
        forall|i: int|
            0 <= i < vals@.len() && i < fields@.len() ==> #[trigger] vals@[i] < width_bound(
                fields@[i].width,
            ),
    ensures
        match r {
            Ok(_) => {
                &&& fields@.len() == vals@.len()
                &&& final(out)@ == old(out)@ + record_bytes(fields@, vals@)
            },
            Err(e) => {
                &&& fields@.len() != vals@.len()
                &&& e == (CodecError::StructuralMismatch {
                    expected: fields@.len() as usize,
                    got: vals@.len() as usize,
                })
                &&& *final(out) == *old(out)
            },
        },
{
    if fields.len() != vals.len() {
        return Err(
            CodecError::StructuralMismatch { expected: fields.len(), got: vals.len() },
        );
    }
    let mut i: usize = 0;
    while i < fields.len()
        invariant
            i <= fields@.len(),
            fields@.len() == vals@.len(),
            forall|j: int|
                0 <= j < vals@.len() ==> #[trigger] vals@[j] < width_bound(fields@[j].width),
            out@ == old(out)@ + record_bytes(fields@.take(i as int), vals@.take(i as int)),
        decreases fields@.len() - i,
    {
        proof {
            assert(out@ + be_bytes(vals@[i as int] as nat, width_of(fields@[i as int].width))
                =~= old(out)@ + (record_bytes(fields@.take(i as int), vals@.take(i as int))
                + be_bytes(vals@[i as int] as nat, width_of(fields@[i as int].width))));
            lemma_record_bytes_snoc(
                fields@.take(i as int),
                vals@.take(i as int),
                fields@[i as int],
                vals@[i as int],
            );
            assert(fields@.take(i + 1) =~= fields@.take(i as int).push(fields@[i as int]));
            assert(vals@.take(i + 1) =~= vals@.take(i as int).push(vals@[i as int]));
        }
        push_be(out, vals[i], fields[i].width.bytes());
        i = i + 1;
    }
    proof {
        assert(fields@.take(fields@.len() as int) =~= fields@);
        assert(vals@.take(vals@.len() as int) =~= vals@);
    }
    Ok(())
}

} // verus!
