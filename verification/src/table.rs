//! The manifest/provenance table: the worked example of the codec.
//!
//! A record carrying an optional URI to an active manifest and an optional
//! embedded manifest store, behind a fixed header of major/minor version
//! and two `(offset, length)` pairs.  Two wire layouts exist: the earlier
//! one (`SchemaVersion::V1`) has an 18-byte header and a store payload
//! declared as UTF-8 text; the later one (`SchemaVersion::V2`) inserts a
//! 2-byte reserved field after the URI length — written as zero, ignored
//! on read — and treats the store payload as opaque bytes.  The caller
//! selects the layout; the two variants share the offset-pool algorithm.

use vstd::prelude::*;
use vstd::string::StrSliceExecFns;
use vstd::utf8::{decode_utf8, encode_utf8, valid_utf8};

use crate::be::{be_bytes, be_val, pow256};
use crate::cursor::Cursor;
use crate::errors::{CodecError, FieldId};
use crate::record::{field_offset, total_width, FieldDesc, FieldWidth};
use crate::record::lemma_field_offset_step;
use crate::record::record_bytes;

verus! {

/// The 4-byte ASCII tag under which a font's table collection stores this
/// table.
pub const TAG: &'static str = "C2PA";

/// Which of the two wire layouts a buffer uses.  The discriminant is
/// chosen by the caller at decode or encode time; the two layouts are not
/// distinguishable from the bytes alone.
#[derive(Clone, Copy, Debug, PartialEq, Eq, Structural)]
pub enum SchemaVersion {
    /// 18-byte header; the store payload is UTF-8 text.
    V1,
    /// 20-byte header with a reserved field; the store payload is opaque.
    V2,
}

/// The size in bytes of the fixed header, and therefore the lowest offset
/// at which pool data can start — which is why a present field's offset is
/// never 0 and the sentinel is unambiguous.
pub open spec fn header_size(s: SchemaVersion) -> nat {
    match s {
        SchemaVersion::V1 => 18,
        SchemaVersion::V2 => 20,
    }
}

/// The mathematical value of a table: what the byte layouts encode.
pub struct TableModel {
    /// Major schema version stored in the header.
    pub major: u16,
    /// Minor schema version stored in the header.
    pub minor: u16,
    /// The characters of the active-manifest URI, if present.
    pub uri: Option<Seq<char>>,
    /// The bytes of the embedded manifest store, if present.
    pub store: Option<Seq<u8>>,
}

/// A manifest/provenance record: fixed version fields plus two optional
/// variable-length payloads.  The payloads are owned copies, valid after
/// the buffer they were decoded from is gone.
#[allow(non_snake_case)]
#[derive(Clone, Debug, Eq)]
pub struct C2PA {
    /// Major version of the table record.
    pub majorVersion: u16,
    /// Minor version of the table record.
    pub minorVersion: u16,
    /// Optional URI to an active manifest.
    pub activeManifestUri: Option<String>,
    /// Optional embedded manifest store.
    manifestStore: Option<Vec<u8>>,
}

impl View for C2PA {
    type V = TableModel;

    closed spec fn view(&self) -> TableModel {
        TableModel {
            major: self.majorVersion,
            minor: self.minorVersion,
            uri: match self.activeManifestUri {
                Some(u) => Some(u@),
                None => None,
            },
            store: match self.manifestStore {
                Some(b) => Some(b@),
                None => None,
            },
        }
    }
}

impl PartialEq for C2PA {
    fn eq(&self, other: &Self) -> (r: bool) {
        let scalars_eq = self.majorVersion == other.majorVersion && self.minorVersion
            == other.minorVersion;
        let uri_eq = match (&self.activeManifestUri, &other.activeManifestUri) {
            (Some(a), Some(b)) => str_eq(a.as_str(), b.as_str()),
            (None, None) => true,
            _ => false,
        };
        let store_eq = match (&self.manifestStore, &other.manifestStore) {
            (Some(a), Some(b)) => bytes_eq(a, b),
            (None, None) => true,
            _ => false,
        };
        scalars_eq && uri_eq && store_eq
    }
}

impl vstd::std_specs::cmp::PartialEqSpecImpl for C2PA {
    open spec fn obeys_eq_spec() -> bool {
        true
    }

    open spec fn eq_spec(&self, other: &Self) -> bool {
        self@ == other@
    }
}

/// Whether two strings hold the same characters, decided by comparing
/// their UTF-8 bytes: the encoding determines the characters.
pub(crate) fn str_eq(a: &str, b: &str) -> (r: bool)
    ensures
        r == (a@ == b@),
{
    let av = a.as_bytes_vec();
    let bv = b.as_bytes_vec();
    let r = bytes_eq(&av, &bv);
    proof {
        if av@ == bv@ {
            vstd::utf8::encode_utf8_decode_utf8(a@);
            vstd::utf8::encode_utf8_decode_utf8(b@);
        }
    }
    r
}

/// Whether two byte vectors hold the same bytes.
fn bytes_eq(a: &Vec<u8>, b: &Vec<u8>) -> (r: bool)
    ensures
        r == (a@ == b@),
{
    if a.len() != b.len() {
        return false;
    }
    let mut i: usize = 0;
    while i < a.len()
        invariant
            i <= a@.len(),
            a@.len() == b@.len(),
            forall|j: int| 0 <= j < i ==> a@[j] == b@[j],
        decreases a@.len() - i,
    {
        if a[i] != b[i] {
            return false;
        }
        i = i + 1;
    }
    proof {
        assert(a@ =~= b@);
    }
    true
}

/// Relies on `core::str::from_utf8` of std: it returns `Ok` exactly when
/// the bytes are a valid UTF-8 encoding.
#[verifier::external_body]
fn utf8_valid(bytes: &Vec<u8>) -> (r: bool)
    ensures
        r == valid_utf8(bytes@),
{
    core::str::from_utf8(bytes).is_ok()
}

/// Relies on `String::from_utf8` of std: it returns `Ok` exactly when the
/// bytes are a valid UTF-8 encoding, and then the string's characters are
/// the decoding of those bytes.
#[verifier::external_body]
fn utf8_to_string(bytes: Vec<u8>) -> (r: Option<String>)
    ensures
        match r {
            Some(st) => valid_utf8(bytes@) && st@ == decode_utf8(bytes@),
            None => !valid_utf8(bytes@),
        },
{
    String::from_utf8(bytes).ok()
}

/// The field descriptors of the fixed header under schema `s`, in wire
/// order, together with everything the codec needs to know about where
/// each field sits.
pub fn schema_fields(s: SchemaVersion) -> (fields: Vec<FieldDesc>)
    ensures
        fields@.len() == (match s {
            SchemaVersion::V1 => 6int,
            SchemaVersion::V2 => 7int,
        }),
        total_width(fields@) == header_size(s),
        field_offset(fields@, 0) == 0 && fields@[0].width == FieldWidth::W2,
        field_offset(fields@, 1) == 2 && fields@[1].width == FieldWidth::W2,
        field_offset(fields@, 2) == 4 && fields@[2].width == FieldWidth::W4,
        field_offset(fields@, 3) == 8 && fields@[3].width == FieldWidth::W2,
        match s {
            SchemaVersion::V1 => {
                &&& field_offset(fields@, 4) == 10 && fields@[4].width == FieldWidth::W4
                &&& field_offset(fields@, 5) == 14 && fields@[5].width == FieldWidth::W4
            },
            SchemaVersion::V2 => {
                &&& field_offset(fields@, 4) == 10 && fields@[4].width == FieldWidth::W2
                &&& field_offset(fields@, 5) == 12 && fields@[5].width == FieldWidth::W4
                &&& field_offset(fields@, 6) == 16 && fields@[6].width == FieldWidth::W4
            },
        },
{
    let mut fields: Vec<FieldDesc> = Vec::new();
    fields.push(FieldDesc { name: "majorVersion", width: FieldWidth::W2 });
    fields.push(FieldDesc { name: "minorVersion", width: FieldWidth::W2 });
    fields.push(FieldDesc { name: "activeManifestUriOffset", width: FieldWidth::W4 });
    fields.push(FieldDesc { name: "activeManifestUriLength", width: FieldWidth::W2 });
    if let SchemaVersion::V2 = s {
        fields.push(FieldDesc { name: "reserved", width: FieldWidth::W2 });
    }
    fields.push(FieldDesc { name: "manifestStoreOffset", width: FieldWidth::W4 });
    fields.push(FieldDesc { name: "manifestStoreLength", width: FieldWidth::W4 });
    proof {
        let fs = fields@;
        assert(fs.take(0) =~= Seq::<FieldDesc>::empty());
        lemma_field_offset_step(fs, 0);
        lemma_field_offset_step(fs, 1);
        lemma_field_offset_step(fs, 2);
        lemma_field_offset_step(fs, 3);
        lemma_field_offset_step(fs, 4);
        lemma_field_offset_step(fs, 5);
        if fs.len() == 7 {
            lemma_field_offset_step(fs, 6);
        }
        assert(fs.take(fs.len() as int) =~= fs);
    }
    fields
}

/// The value of the `w`-byte big-endian field at byte `off` of a buffer.
pub open spec fn field_at(data: Seq<u8>, off: int, w: int) -> nat {
    be_val(data.subrange(off, off + w))
}

/// Header position of the store-offset field: the reserved field of the
/// later layout shifts it by two bytes.
pub open spec fn store_off_pos(s: SchemaVersion) -> int {
    match s {
        SchemaVersion::V1 => 10,
        SchemaVersion::V2 => 12,
    }
}

/// Header position of the store-length field.
pub open spec fn store_len_pos(s: SchemaVersion) -> int {
    match s {
        SchemaVersion::V1 => 14,
        SchemaVersion::V2 => 16,
    }
}

/// Resolving one optional field from its `(offset, length)` header pair,
/// with the table origin at byte 0 of `data`: offset 0 means absent, and
/// a nonzero offset names exactly `length` bytes that must lie inside the
/// buffer.
pub open spec fn spec_read_opt(data: Seq<u8>, off: nat, len: nat) -> Result<
    Option<Seq<u8>>,
    CodecError,
> {
    if off == 0 {
        Ok(None)
    } else if off + len <= data.len() {
        Ok(Some(data.subrange(off as int, (off + len) as int)))
    } else {
        Err(CodecError::OutOfData {
            requested: len as usize,
            available: (if off <= data.len() {
                data.len() - off
            } else {
                0
            }) as usize,
        })
    }
}

/// What decoding a buffer under schema `s` yields: the table value whose
/// header begins at byte 0 of `data`, or the exact error.  The reserved
/// field of the later layout is never read.
pub open spec fn spec_decode(data: Seq<u8>, s: SchemaVersion) -> Result<TableModel, CodecError> {
    if data.len() < header_size(s) {
        Err(CodecError::OutOfData {
            requested: header_size(s) as usize,
            available: data.len() as usize,
        })
    } else {
        let uoff = field_at(data, 4, 4);
        let ulen = field_at(data, 8, 2);
        let soff = field_at(data, store_off_pos(s), 4);
        let slen = field_at(data, store_len_pos(s), 4);
        match spec_read_opt(data, uoff, ulen) {
            Err(e) => Err(e),
            Ok(ub) => {
                if (match ub {
                    Some(b) => !valid_utf8(b),
                    None => false,
                }) {
                    Err(CodecError::InvalidEncoding { field: FieldId::ActiveManifestUri })
                } else {
                    match spec_read_opt(data, soff, slen) {
                        Err(e) => Err(e),
                        Ok(sb) => {
                            if (s == SchemaVersion::V1 && match sb {
                                Some(b) => !valid_utf8(b),
                                None => false,
                            }) {
                                Err(CodecError::InvalidEncoding { field: FieldId::ManifestStore })
                            } else {
                                Ok(TableModel {
                                    major: field_at(data, 0, 2) as u16,
                                    minor: field_at(data, 2, 2) as u16,
                                    uri: match ub {
                                        Some(b) => Some(decode_utf8(b)),
                                        None => None,
                                    },
                                    store: sb,
                                })
                            }
                        },
                    }
                }
            },
        }
    }
}

impl C2PA {
    /// Creates a new record carrying the given optional fields, with the
    /// version fields defaulted to the current schema version, 0.1.
    pub fn new(active_manifest_uri: Option<String>, manifest_store: Option<Vec<u8>>) -> (r: Self)
        ensures
            r@ == (TableModel {
                major: 0,
                minor: 1,
                uri: match active_manifest_uri {
                    Some(u) => Some(u@),
                    None => None,
                },
                store: match manifest_store {
                    Some(b) => Some(b@),
                    None => None,
                },
            }),
    {
        C2PA {
            majorVersion: 0,
            minorVersion: 1,
            activeManifestUri: active_manifest_uri,
            manifestStore: manifest_store,
        }
    }

    /// The manifest store data, if available.
    pub fn get_manifest_store(&self) -> (r: Option<&[u8]>)
        ensures
            match r {
                Some(b) => self@.store == Some(b@),
                None => self@.store is None,
            },
    {
        match &self.manifestStore {
            Some(v) => Some(v.as_slice()),
            None => None,
        }
    }

    /// Decodes the table whose header begins at the cursor's position.
    /// All header offsets are taken relative to that position, so the
    /// result is exactly what decoding the buffer's suffix from there
    /// yields: a table can sit anywhere inside an enclosing buffer.  The
    /// cursor — position and origin stack — is restored before returning,
    /// on success and on error alike.
    pub fn decode(c: &mut Cursor, data: &Vec<u8>, schema: SchemaVersion) -> (r: Result<
        C2PA,
        CodecError,
    >)
        requires
            old(c).pos <= data@.len(),
        ensures
            final(c).pos == old(c).pos,
            final(c).origins@ == old(c).origins@,
            match r {
                Ok(t) => spec_decode(data@.skip(old(c).pos as int), schema) == Ok::<TableModel, CodecError>(t@),
                Err(e) => spec_decode(data@.skip(old(c).pos as int), schema) == Err::<TableModel, CodecError>(e),
            },
    {
        let ghost t = data@.skip(old(c).pos as int);
        let entry = c.pos;
        c.push();
        let fields = schema_fields(schema);
        let vals = match crate::record::decode_record(c, data, &fields) {
            Ok(v) => v,
            Err(e) => {
                c.pop();
                c.seek(entry);
                proof {
                    assert(final(c).origins@ =~= old(c).origins@);
                }
                return Err(e);
            },
        };
        proof {
            assert(pow256(2) == 0x1_0000 && pow256(4) == 0x1_0000_0000) by {
                reveal_with_fuel(pow256, 5);
            }
            assert(t.subrange(0, 2) =~= data@.subrange(entry as int, entry + 2));
            assert(t.subrange(2, 4) =~= data@.subrange(entry + 2, entry + 4));
            assert(t.subrange(4, 8) =~= data@.subrange(entry + 4, entry + 8));
            assert(t.subrange(8, 10) =~= data@.subrange(entry + 8, entry + 10));
            match schema {
                SchemaVersion::V1 => {
                    assert(t.subrange(10, 14) =~= data@.subrange(entry + 10, entry + 14));
                    assert(t.subrange(14, 18) =~= data@.subrange(entry + 14, entry + 18));
                },
                SchemaVersion::V2 => {
                    assert(t.subrange(12, 16) =~= data@.subrange(entry + 12, entry + 16));
                    assert(t.subrange(16, 20) =~= data@.subrange(entry + 16, entry + 20));
                },
            }
        }
        let major = vals[0] as u16;
        let minor = vals[1] as u16;
        let uoff = vals[2];
        let ulen = vals[3];
        let (soff, slen) = match schema {
            SchemaVersion::V1 => (vals[4], vals[5]),
            SchemaVersion::V2 => (vals[5], vals[6]),
        };
        let uri_bytes = match crate::pool::read_optional_field(
            c,
            data,
            uoff as usize,
            ulen as usize,
        ) {
            Ok(b) => b,
            Err(e) => {
                c.pop();
                c.seek(entry);
                proof {
                    assert(final(c).origins@ =~= old(c).origins@);
                }
                return Err(e);
            },
        };
        proof {
            if uri_bytes is Some {
                assert(t.subrange(uoff as int, uoff + ulen) =~= data@.subrange(
                    entry + uoff,
                    entry + uoff + ulen,
                ));
            }
        }
        let active_manifest_uri = match uri_bytes {
            Some(b) => match utf8_to_string(b) {
                Some(st) => Some(st),
                None => {
                    c.pop();
                    c.seek(entry);
                    proof {
                        assert(final(c).origins@ =~= old(c).origins@);
                    }
                    return Err(CodecError::InvalidEncoding { field: FieldId::ActiveManifestUri });
                },
            },
            None => None,
        };
        let store_bytes = match crate::pool::read_optional_field(
            c,
            data,
            soff as usize,
            slen as usize,
        ) {
            Ok(b) => b,
            Err(e) => {
                c.pop();
                c.seek(entry);
                proof {
                    assert(final(c).origins@ =~= old(c).origins@);
                }
                return Err(e);
            },
        };
        proof {
            if store_bytes is Some {
                assert(t.subrange(soff as int, soff + slen) =~= data@.subrange(
                    entry + soff,
                    entry + soff + slen,
                ));
            }
        }
        if let SchemaVersion::V1 = schema {
            if let Some(sb) = &store_bytes {
                if !utf8_valid(sb) {
                    c.pop();
                    c.seek(entry);
                    proof {
                        assert(final(c).origins@ =~= old(c).origins@);
                    }
                    return Err(CodecError::InvalidEncoding { field: FieldId::ManifestStore });
                }
            }
        }
        c.pop();
        c.seek(entry);
        proof {
            assert(final(c).origins@ =~= old(c).origins@);
        }
        Ok(
            C2PA {
                majorVersion: major,
                minorVersion: minor,
                activeManifestUri: active_manifest_uri,
                manifestStore: store_bytes,
            },
        )
    }

    /// Decodes a table from the start of `data` under schema `s`.
    pub fn from_bytes(data: &Vec<u8>, schema: SchemaVersion) -> (r: Result<C2PA, CodecError>)
        ensures
            match r {
                Ok(t) => spec_decode(data@, schema) == Ok::<TableModel, CodecError>(t@),
                Err(e) => spec_decode(data@, schema) == Err::<TableModel, CodecError>(e),
            },
    {
        let mut c = Cursor::new();
        let r = Self::decode(&mut c, data, schema);
        proof {
            assert(data@.skip(0) =~= data@);
        }
        r
    }
}

/// The URI payload of a table value: the UTF-8 encoding of its
/// characters, or empty when absent.
pub open spec fn uri_bytes_of(m: TableModel) -> Seq<u8> {
    match m.uri {
        Some(u) => encode_utf8(u),
        None => Seq::empty(),
    }
}

/// The store payload of a table value, or empty when absent.
pub open spec fn store_bytes_of(m: TableModel) -> Seq<u8> {
    match m.store {
        Some(b) => b,
        None => Seq::empty(),
    }
}

/// The header offset written for the URI: the sentinel 0 when absent,
/// else the first possible pool position — the header size, always
/// nonzero, which keeps the sentinel unambiguous.
pub open spec fn spec_uri_off(m: TableModel, s: SchemaVersion) -> nat {
    if m.uri is Some {
        header_size(s)
    } else {
        0
    }
}

/// The header offset written for the store: 0 when absent, else the
/// header size plus the length of the URI payload laid out before it.
pub open spec fn spec_store_off(m: TableModel, s: SchemaVersion) -> nat {
    if m.store is Some {
        header_size(s) + uri_bytes_of(m).len()
    } else {
        0
    }
}

/// The largest store payload that can stand next to `m`'s URI: bounded by
/// the 4-byte length field and by the machine's address space.
pub open spec fn spec_store_cap(m: TableModel, s: SchemaVersion) -> nat {
    if header_size(s) + uri_bytes_of(m).len() + 0xFFFF_FFFF <= usize::MAX {
        0xFFFF_FFFF
    } else {
        (usize::MAX - header_size(s) - uri_bytes_of(m).len()) as nat
    }
}

/// Encodability of a value under schema `s`: each payload length fits its
/// header field and the whole table fits the address space; under the
/// earlier layout a present store payload must be UTF-8 text.
pub open spec fn spec_wf(m: TableModel, s: SchemaVersion) -> bool {
    &&& uri_bytes_of(m).len() <= 0xFFFF
    &&& store_bytes_of(m).len() <= spec_store_cap(m, s)
    &&& (s == SchemaVersion::V1 && m.store is Some ==> valid_utf8(store_bytes_of(m)))
}

/// The error that encoding reports for a value it cannot represent.
pub open spec fn spec_encode_err(m: TableModel, s: SchemaVersion) -> CodecError {
    if uri_bytes_of(m).len() > 0xFFFF {
        CodecError::StructuralMismatch {
            expected: 0xFFFF,
            got: uri_bytes_of(m).len() as usize,
        }
    } else if store_bytes_of(m).len() > spec_store_cap(m, s) {
        CodecError::StructuralMismatch {
            expected: spec_store_cap(m, s) as usize,
            got: store_bytes_of(m).len() as usize,
        }
    } else {
        CodecError::InvalidEncoding { field: FieldId::ManifestStore }
    }
}

/// The complete wire image of `m` under schema `s`: the header fields in
/// wire order — the later layout's reserved field always written as 0 —
/// followed by the pool.
pub open spec fn spec_encode(m: TableModel, s: SchemaVersion) -> Seq<u8> {
    be_bytes(m.major as nat, 2) + be_bytes(m.minor as nat, 2) + be_bytes(spec_uri_off(m, s), 4)
        + be_bytes(uri_bytes_of(m).len(), 2) + (if s == SchemaVersion::V2 {
        be_bytes(0, 2)
    } else {
        Seq::<u8>::empty()
    }) + be_bytes(spec_store_off(m, s), 4) + be_bytes(store_bytes_of(m).len(), 4) + uri_bytes_of(
        m,
    ) + store_bytes_of(m)
}

impl C2PA {
    /// Appends the table's complete byte representation under schema `s`
    /// — the populated header, then the pool — to `data`.  Fails, writing
    /// nothing, exactly on values the layout cannot represent: an
    /// oversized payload, or under the earlier layout a store payload
    /// that is not UTF-8 text.
    #[verifier::rlimit(50)]
    pub fn to_bytes(&self, data: &mut Vec<u8>, schema: SchemaVersion) -> (r: Result<
        (),
        CodecError,
    >)
        ensures
            match r {
                Ok(_) => {
                    &&& spec_wf(self@, schema)
                    &&& final(data)@ == old(data)@ + spec_encode(self@, schema)
                },
                Err(e) => {
                    &&& !spec_wf(self@, schema)
                    &&& e == spec_encode_err(self@, schema)
                    &&& final(data)@ == old(data)@
                },
            },
    {
        let h: usize = match schema {
            SchemaVersion::V1 => 18,
            SchemaVersion::V2 => 20,
        };
        let uri_vec: Option<Vec<u8>> = match &self.activeManifestUri {
            Some(u) => Some(u.as_str().as_bytes_vec()),
            None => None,
        };
        let ulen: usize = match &uri_vec {
            Some(ub) => ub.len(),
            None => 0,
        };
        proof {
            assert(ulen == uri_bytes_of(self@).len());
        }
        if ulen > 0xFFFF {
            return Err(CodecError::StructuralMismatch { expected: 0xFFFF, got: ulen });
        }
        let cap: usize = if (usize::MAX - h) - ulen >= 0xFFFF_FFFF {
            0xFFFF_FFFF
        } else {
            (usize::MAX - h) - ulen
        };
        proof {
            assert(cap == spec_store_cap(self@, schema));
        }
        let slen: usize = match &self.manifestStore {
            Some(b) => b.len(),
            None => 0,
        };
        if slen > cap {
            return Err(CodecError::StructuralMismatch { expected: cap, got: slen });
        }
        if let SchemaVersion::V1 = schema {
            if let Some(sb) = &self.manifestStore {
                if !utf8_valid(sb) {
                    return Err(CodecError::InvalidEncoding { field: FieldId::ManifestStore });
                }
            }
        }
        let mut opts: Vec<Option<Vec<u8>>> = Vec::new();
        opts.push(uri_vec);
        opts.push(
            match &self.manifestStore {
                Some(b) => Some(crate::pool::copy_bytes(b)),
                None => None,
            },
        );
        proof {
            reveal_with_fuel(crate::pool::pool_concat, 3);
            assert(opts@.drop_first() =~= seq![opts@[1]]);
            assert(seq![opts@[1]].drop_first() =~= Seq::<Option<Vec<u8>>>::empty());
            assert(crate::pool::pool_concat(opts@) =~= uri_bytes_of(self@) + store_bytes_of(
                self@,
            ));
            assert(opts@.take(0) =~= Seq::<Option<Vec<u8>>>::empty());
            assert(opts@.take(1) =~= seq![opts@[0]]);
            assert(seq![opts@[0]].drop_first() =~= Seq::<Option<Vec<u8>>>::empty());
        }
        let pr = crate::pool::layout_pool(h, &opts);
        let pairs = pr.0;
        let pool = pr.1;
        let fields = schema_fields(schema);
        let mut vals: Vec<u64> = Vec::new();
        vals.push(self.majorVersion as u64);
        vals.push(self.minorVersion as u64);
        vals.push(pairs[0].0 as u64);
        vals.push(pairs[0].1 as u64);
        if let SchemaVersion::V2 = schema {
            vals.push(0);
        }
        vals.push(pairs[1].0 as u64);
        vals.push(pairs[1].1 as u64);
        proof {
            assert(pow256(2) == 0x1_0000 && pow256(4) == 0x1_0000_0000) by {
                reveal_with_fuel(pow256, 5);
            }
            assert(forall|i: int|
                0 <= i < vals@.len() ==> #[trigger] vals@[i] < crate::record::width_bound(
                    fields@[i].width,
                ));
        }
        match crate::record::encode_record(data, &fields, &vals) {
            Ok(_) => {},
            Err(_) => {
                proof {
                    assert(false);
                }
            },
        }
        crate::pool::append_bytes(data, &pool);
        proof {
            broadcast use crate::be::lemma_be_bytes_len;

            lemma_c2pa_record_bytes(fields@, vals@, schema);
            if schema == SchemaVersion::V1 {
                assert(be_bytes(self@.major as nat, 2) + be_bytes(self@.minor as nat, 2)
                    + be_bytes(spec_uri_off(self@, schema), 4) + be_bytes(
                    uri_bytes_of(self@).len(),
                    2,
                ) + Seq::<u8>::empty() =~= be_bytes(self@.major as nat, 2) + be_bytes(
                    self@.minor as nat,
                    2,
                ) + be_bytes(spec_uri_off(self@, schema), 4) + be_bytes(
                    uri_bytes_of(self@).len(),
                    2,
                ));
            }
            assert(data@ =~= old(data)@ + spec_encode(self@, schema));
        }
        Ok(())
    }
}


/// The header image of either schema's field list: the concatenation of
/// the six (or, with the reserved field, seven) big-endian fields.
proof fn lemma_c2pa_record_bytes(fs: Seq<FieldDesc>, vs: Seq<u64>, s: SchemaVersion)
    requires
        vs.len() == fs.len(),
        fs.len() == (match s {
            SchemaVersion::V1 => 6int,
            SchemaVersion::V2 => 7int,
        }),
        fs[0].width == FieldWidth::W2,
        fs[1].width == FieldWidth::W2,
        fs[2].width == FieldWidth::W4,
        fs[3].width == FieldWidth::W2,
        match s {
            SchemaVersion::V1 => fs[4].width == FieldWidth::W4 && fs[5].width == FieldWidth::W4,
            SchemaVersion::V2 => fs[4].width == FieldWidth::W2 && fs[5].width == FieldWidth::W4
                && fs[6].width == FieldWidth::W4,
        },
    ensures
        match s {
            SchemaVersion::V1 => crate::record::record_bytes(fs, vs) == be_bytes(vs[0] as nat, 2)
                + be_bytes(vs[1] as nat, 2) + be_bytes(vs[2] as nat, 4) + be_bytes(vs[3] as nat, 2)
                + be_bytes(vs[4] as nat, 4) + be_bytes(vs[5] as nat, 4),
            SchemaVersion::V2 => crate::record::record_bytes(fs, vs) == be_bytes(vs[0] as nat, 2)
                + be_bytes(vs[1] as nat, 2) + be_bytes(vs[2] as nat, 4) + be_bytes(vs[3] as nat, 2)
                + be_bytes(vs[4] as nat, 2) + be_bytes(vs[5] as nat, 4) + be_bytes(vs[6] as nat, 4),
        },
{
    assert(fs.take(0) =~= Seq::<FieldDesc>::empty());
    assert(vs.take(0) =~= Seq::<u64>::empty());
    crate::record::lemma_record_bytes_snoc(fs.take(0), vs.take(0), fs[0], vs[0]);
    assert(fs.take(1) =~= fs.take(0).push(fs[0]));
    assert(vs.take(1) =~= vs.take(0).push(vs[0]));
    assert(record_bytes(fs.take(1), vs.take(1)) =~= be_bytes(vs[0] as nat, 2));
    crate::record::lemma_record_bytes_snoc(fs.take(1), vs.take(1), fs[1], vs[1]);
    assert(fs.take(2) =~= fs.take(1).push(fs[1]));
    assert(vs.take(2) =~= vs.take(1).push(vs[1]));
    crate::record::lemma_record_bytes_snoc(fs.take(2), vs.take(2), fs[2], vs[2]);
    assert(fs.take(3) =~= fs.take(2).push(fs[2]));
    assert(vs.take(3) =~= vs.take(2).push(vs[2]));
    crate::record::lemma_record_bytes_snoc(fs.take(3), vs.take(3), fs[3], vs[3]);
    assert(fs.take(4) =~= fs.take(3).push(fs[3]));
    assert(vs.take(4) =~= vs.take(3).push(vs[3]));
    crate::record::lemma_record_bytes_snoc(fs.take(4), vs.take(4), fs[4], vs[4]);
    assert(fs.take(5) =~= fs.take(4).push(fs[4]));
    assert(vs.take(5) =~= vs.take(4).push(vs[4]));
    crate::record::lemma_record_bytes_snoc(fs.take(5), vs.take(5), fs[5], vs[5]);
    assert(fs.take(6) =~= fs.take(5).push(fs[5]));
    assert(vs.take(6) =~= vs.take(5).push(vs[5]));
    if fs.len() == 7 {
        crate::record::lemma_record_bytes_snoc(fs.take(6), vs.take(6), fs[6], vs[6]);
        assert(fs.take(7) =~= fs.take(6).push(fs[6]));
        assert(vs.take(7) =~= vs.take(6).push(vs[6]));
    }
    assert(fs.take(fs.len() as int) =~= fs);
    assert(vs.take(vs.len() as int) =~= vs);
}

/// Where each encoded field of `m` lands in its wire image: every header
/// field reads back as the value written, and the pool region splits into
/// the two payloads.
pub proof fn lemma_encode_fields(m: TableModel, s: SchemaVersion)
    requires
        spec_wf(m, s),
    ensures
        spec_encode(m, s).len() == header_size(s) + uri_bytes_of(m).len() + store_bytes_of(
            m,
        ).len(),
        field_at(spec_encode(m, s), 0, 2) == m.major as nat,
        field_at(spec_encode(m, s), 2, 2) == m.minor as nat,
        field_at(spec_encode(m, s), 4, 4) == spec_uri_off(m, s),
        field_at(spec_encode(m, s), 8, 2) == uri_bytes_of(m).len(),
        s == SchemaVersion::V2 ==> field_at(spec_encode(m, s), 10, 2) == 0,
        field_at(spec_encode(m, s), store_off_pos(s), 4) == spec_store_off(m, s),
        field_at(spec_encode(m, s), store_len_pos(s), 4) == store_bytes_of(m).len(),
        spec_encode(m, s).subrange(
            header_size(s) as int,
            (header_size(s) + uri_bytes_of(m).len()) as int,
        ) == uri_bytes_of(m),
        spec_encode(m, s).subrange(
            (header_size(s) + uri_bytes_of(m).len()) as int,
            spec_encode(m, s).len() as int,
        ) == store_bytes_of(m),
{
    broadcast use crate::be::lemma_be_bytes_len;

    assert(pow256(2) == 0x1_0000 && pow256(4) == 0x1_0000_0000) by {
        reveal_with_fuel(pow256, 5);
    }
    let e = spec_encode(m, s);
    let b0 = be_bytes(m.major as nat, 2);
    let b1 = be_bytes(m.minor as nat, 2);
    let b2 = be_bytes(spec_uri_off(m, s), 4);
    let b3 = be_bytes(uri_bytes_of(m).len(), 2);
    let br = if s == SchemaVersion::V2 {
        be_bytes(0, 2)
    } else {
        Seq::<u8>::empty()
    };
    let b4 = be_bytes(spec_store_off(m, s), 4);
    let b5 = be_bytes(store_bytes_of(m).len(), 4);
    crate::be::lemma_be_val_be_bytes(m.major as nat, 2);
    crate::be::lemma_be_val_be_bytes(m.minor as nat, 2);
    crate::be::lemma_be_val_be_bytes(spec_uri_off(m, s), 4);
    crate::be::lemma_be_val_be_bytes(uri_bytes_of(m).len(), 2);
    crate::be::lemma_be_val_be_bytes(0, 2);
    crate::be::lemma_be_val_be_bytes(spec_store_off(m, s), 4);
    crate::be::lemma_be_val_be_bytes(store_bytes_of(m).len(), 4);
    assert(e.subrange(0, 2) =~= b0);
    assert(e.subrange(2, 4) =~= b1);
    assert(e.subrange(4, 8) =~= b2);
    assert(e.subrange(8, 10) =~= b3);
    if s == SchemaVersion::V2 {
        assert(e.subrange(10, 12) =~= br);
    }
    assert(e.subrange(store_off_pos(s), store_off_pos(s) + 4) =~= b4);
    assert(e.subrange(store_len_pos(s), store_len_pos(s) + 4) =~= b5);
    assert(e.subrange(header_size(s) as int, (header_size(s) + uri_bytes_of(m).len()) as int)
        =~= uri_bytes_of(m));
    assert(e.subrange((header_size(s) + uri_bytes_of(m).len()) as int, e.len() as int) =~= store_bytes_of(
        m,
    ));
}

/// Round-trip law: decoding the encoding of any representable table value
/// gives the value back, under either schema and any combination of
/// present and absent optional fields.
pub proof fn lemma_round_trip(m: TableModel, s: SchemaVersion)
    requires
        spec_wf(m, s),
    ensures
        spec_decode(spec_encode(m, s), s) == Ok::<TableModel, CodecError>(m),
{
    lemma_encode_fields(m, s);
    let e = spec_encode(m, s);
    match m.uri {
        Some(u) => {
            vstd::utf8::encode_utf8_valid_utf8(u);
            vstd::utf8::encode_utf8_decode_utf8(u);
            assert(spec_read_opt(e, field_at(e, 4, 4), field_at(e, 8, 2)) == Ok::<
                Option<Seq<u8>>,
                CodecError,
            >(Some(encode_utf8(u))));
        },
        None => {
            assert(field_at(e, 4, 4) == 0);
        },
    }
    match m.store {
        Some(b) => {
            assert(spec_read_opt(e, field_at(e, store_off_pos(s), 4), field_at(e, store_len_pos(s), 4))
                == Ok::<Option<Seq<u8>>, CodecError>(Some(b)));
        },
        None => {
            assert(field_at(e, store_off_pos(s), 4) == 0);
        },
    }
    assert(spec_decode(e, s) == Ok::<TableModel, CodecError>(m));
}

/// Offset-sentinel law: in every encoding, an absent optional field's
/// header offset and length are both exactly 0, and a present field's
/// offset is never 0 — it equals the header size plus the lengths of all
/// earlier present payloads in declaration order.
pub proof fn lemma_offset_sentinel(m: TableModel, s: SchemaVersion)
    requires
        spec_wf(m, s),
    ensures
        m.uri is None ==> field_at(spec_encode(m, s), 4, 4) == 0 && field_at(
            spec_encode(m, s),
            8,
            2,
        ) == 0,
        m.store is None ==> field_at(spec_encode(m, s), store_off_pos(s), 4) == 0 && field_at(
            spec_encode(m, s),
            store_len_pos(s),
            4,
        ) == 0,
        m.uri is Some ==> field_at(spec_encode(m, s), 4, 4) == header_size(s) && header_size(s)
            > 0,
        m.store is Some ==> field_at(spec_encode(m, s), store_off_pos(s), 4) == header_size(s)
            + uri_bytes_of(m).len() && header_size(s) + uri_bytes_of(m).len() > 0,
{
    lemma_encode_fields(m, s);
}

/// Pool-contiguity law: the bytes after the header are exactly the
/// concatenation of the present payloads in declaration order, with no
/// gaps or padding.
pub proof fn lemma_pool_contiguity(m: TableModel, s: SchemaVersion)
    requires
        spec_wf(m, s),
    ensures
        spec_encode(m, s).len() == header_size(s) + uri_bytes_of(m).len() + store_bytes_of(
            m,
        ).len(),
        spec_encode(m, s).subrange(header_size(s) as int, spec_encode(m, s).len() as int)
            == uri_bytes_of(m) + store_bytes_of(m),
{
    lemma_encode_fields(m, s);
    let e = spec_encode(m, s);
    let h = header_size(s) as int;
    let mid = h + uri_bytes_of(m).len();
    assert(e.subrange(h, e.len() as int) =~= e.subrange(h, mid) + e.subrange(
        mid,
        e.len() as int,
    ));
}

/// Reserved-field tolerance, write side: re-encoding always writes the
/// later layout's reserved field as 0, whatever was read.
pub proof fn lemma_reserved_written_zero(m: TableModel)
    requires
        spec_wf(m, SchemaVersion::V2),
    ensures
        field_at(spec_encode(m, SchemaVersion::V2), 10, 2) == 0,
{
    lemma_encode_fields(m, SchemaVersion::V2);
}

/// Reserved-field tolerance, read side: two buffers that differ only in
/// the reserved field decode to the same result, so the reserved value is
/// never surfaced.  This holds whenever the payload offsets do not point
/// back into the header — as in every encoder-produced buffer, where a
/// present offset is at least the header size.
pub proof fn lemma_reserved_ignored(d1: Seq<u8>, d2: Seq<u8>)
    requires
        d1.len() == d2.len(),
        forall|i: int| 0 <= i < d1.len() && !(10 <= i < 12) ==> d1[i] == d2[i],
        field_at(d1, 4, 4) == 0 || field_at(d1, 4, 4) >= header_size(SchemaVersion::V2),
        field_at(d1, store_off_pos(SchemaVersion::V2), 4) == 0 || field_at(
            d1,
            store_off_pos(SchemaVersion::V2),
            4,
        ) >= header_size(SchemaVersion::V2),
    ensures
        spec_decode(d1, SchemaVersion::V2) == spec_decode(d2, SchemaVersion::V2),
{
    let s = SchemaVersion::V2;
    if d1.len() < header_size(s) {
    } else {
        assert(d1.subrange(0, 2) =~= d2.subrange(0, 2));
        assert(d1.subrange(2, 4) =~= d2.subrange(2, 4));
        assert(d1.subrange(4, 8) =~= d2.subrange(4, 8));
        assert(d1.subrange(8, 10) =~= d2.subrange(8, 10));
        assert(d1.subrange(12, 16) =~= d2.subrange(12, 16));
        assert(d1.subrange(16, 20) =~= d2.subrange(16, 20));
        let uoff = field_at(d1, 4, 4);
        let ulen = field_at(d1, 8, 2);
        let soff = field_at(d1, store_off_pos(s), 4);
        let slen = field_at(d1, store_len_pos(s), 4);
        if uoff > 0 && uoff + ulen <= d1.len() {
            assert(d1.subrange(uoff as int, (uoff + ulen) as int) =~= d2.subrange(
                uoff as int,
                (uoff + ulen) as int,
            ));
        }
        if soff > 0 && soff + slen <= d1.len() {
            assert(d1.subrange(soff as int, (soff + slen) as int) =~= d2.subrange(
                soff as int,
                (soff + slen) as int,
            ));
        }
    }
}

/// Boundary law, first half: a buffer shorter than the declared header
/// size fails with `OutOfData`, naming what was needed and what was
/// there.
pub proof fn lemma_short_buffer(data: Seq<u8>, s: SchemaVersion)
    requires
        data.len() < header_size(s),
    ensures
        spec_decode(data, s) == Err::<TableModel, CodecError>(
            CodecError::OutOfData {
                requested: header_size(s) as usize,
                available: data.len() as usize,
            },
        ),
{
}

/// Boundary law, second half: decode never returns truncated data — when
/// it succeeds, every present payload lies wholly inside the buffer.
pub proof fn lemma_no_truncation(data: Seq<u8>, s: SchemaVersion)
    requires
        spec_decode(data, s) is Ok,
    ensures
        data.len() >= header_size(s),
        field_at(data, 4, 4) > 0 ==> field_at(data, 4, 4) + field_at(data, 8, 2) <= data.len(),
        field_at(data, store_off_pos(s), 4) > 0 ==> field_at(data, store_off_pos(s), 4)
            + field_at(data, store_len_pos(s), 4) <= data.len(),
{
}

/// Boundary law, exact error: a present URI field whose declared length
/// extends past the buffer end fails with `OutOfData`.
pub proof fn lemma_truncated_uri(data: Seq<u8>, s: SchemaVersion)
    requires
        data.len() >= header_size(s),
        field_at(data, 4, 4) > 0,
        field_at(data, 4, 4) + field_at(data, 8, 2) > data.len(),
    ensures
        spec_decode(data, s) == Err::<TableModel, CodecError>(
            CodecError::OutOfData {
                requested: field_at(data, 8, 2) as usize,
                available: (if field_at(data, 4, 4) <= data.len() {
                    data.len() - field_at(data, 4, 4)
                } else {
                    0
                }) as usize,
            },
        ),
{
}

impl Default for C2PA {
    /// The default record: current schema version 0.1, both optional
    /// fields absent.
    fn default() -> (r: Self)
        ensures
            r@ == (TableModel { major: 0, minor: 1, uri: None, store: None }),
    {
        C2PA { majorVersion: 0, minorVersion: 1, activeManifestUri: None, manifestStore: None }
    }
}

} // verus!
