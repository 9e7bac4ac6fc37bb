//! Binary table codec for OpenType-style font tables.
//!
//! A table is a self-contained binary record: a fixed-width big-endian
//! header followed by a variable-length byte pool.  Optional payloads are
//! addressed by (offset, length) pairs in the header, with offset 0 as the
//! sentinel for an absent field and all offsets relative to the table's own
//! origin.  The modules below build that codec from the bottom up and prove
//! that encoding and decoding are inverse to each other:
//!
//! * [`be`] — fixed-width big-endian integer encoding, the atomic unit;
//! * [`cursor`] — a read position and the stack of table origins;
//! * [`record`] — an ordered list of named fixed-width fields as one header;
//! * [`pool`] — the offset-pool layout for optional variable-length fields;
//! * [`table`] — the manifest/provenance table built on all of the above;
//! * [`errors`] — the typed failures those layers report;
//! * [`axes`] — design-axis bookkeeping for the font model.

pub mod axes;
pub mod be;
pub mod cursor;
pub mod errors;
pub mod pool;
pub mod record;
pub mod table;
