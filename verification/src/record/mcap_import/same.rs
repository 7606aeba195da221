//! Structural equality of definitions.
use crate::record::mcap_import::model::{McapChannel, McapMetadata, McapSchema};
use crate::record::strmap::StringMap;
use crate::text::str_equal;
use vstd::prelude::*;

verus! {

/// Byte-string equality.
pub fn bytes_equal(a: &[u8], b: &[u8]) -> (r: bool)
    ensures
        r == (a@ == b@),
{
    if a.len() != b.len() {
        return false;
    }
    let mut i: usize = 0;
    while i < a.len()
        invariant
            a@.len() == b@.len(),
            i <= a@.len(),
            forall|k: int| 0 <= k < i ==> a@[k] == b@[k],
        decreases a@.len() - i,
    {
        if a[i] != b[i] {
            return false;
        }
        i = i + 1;
    }
    assert(a@ =~= b@);
    true
}

/// Equal entries in the same order.
pub fn maps_equal(a: &StringMap, b: &StringMap) -> (r: bool)
    ensures
        r == (a.spec_entries() == b.spec_entries()),
{
    if a.len() != b.len() {
        return false;
    }
    let mut i: usize = 0;
    while i < a.len()
        invariant
            a.spec_entries().len() == b.spec_entries().len(),
            i <= a.spec_entries().len(),
            forall|k: int| 0 <= k < i ==> a.spec_entries()[k] == b.spec_entries()[k],
        decreases a.spec_entries().len() - i,
    {
        let (ka, va) = a.entry(i);
        let (kb, vb) = b.entry(i);
        if !str_equal(ka.as_str(), kb.as_str()) || !str_equal(va.as_str(), vb.as_str()) {
            return false;
        }
        i = i + 1;
    }
    assert(a.spec_entries() =~= b.spec_entries());
    true
}

/// The abstract identity of a schema definition.
pub open spec fn schema_key(s: McapSchema) -> (u16, Seq<char>, Seq<char>, Seq<u8>) {
    (s.id, s.name@, s.encoding@, s.data@)
}

/// The abstract identity of a channel definition.
pub open spec fn channel_key(c: McapChannel) -> (u16, u16, Seq<char>, Seq<char>, Seq<(Seq<char>, Seq<char>)>) {
    (c.id, c.schema_id, c.topic@, c.message_encoding@, c.metadata.spec_entries())
}

/// The abstract identity of named metadata.
pub open spec fn metadata_key(m: McapMetadata) -> (Seq<char>, Seq<(Seq<char>, Seq<char>)>) {
    (m.name@, m.entries.spec_entries())
}

/// Whether two schema definitions are identical.
pub fn same_schema(a: &McapSchema, b: &McapSchema) -> (r: bool)
    ensures
        r == (schema_key(*a) == schema_key(*b)),
{
    a.id == b.id && str_equal(a.name.as_str(), b.name.as_str()) && str_equal(a.encoding.as_str(), b.encoding.as_str())
        && bytes_equal(a.data.as_slice(), b.data.as_slice())
}

/// Whether two channel definitions are identical.
pub fn same_channel(a: &McapChannel, b: &McapChannel) -> (r: bool)
    ensures
        r == (channel_key(*a) == channel_key(*b)),
{
    a.id == b.id && a.schema_id == b.schema_id && str_equal(a.topic.as_str(), b.topic.as_str())
        && str_equal(a.message_encoding.as_str(), b.message_encoding.as_str()) && maps_equal(&a.metadata, &b.metadata)
}

/// Whether two named metadata definitions are identical.
pub fn same_metadata(a: &McapMetadata, b: &McapMetadata) -> (r: bool)
    ensures
        r == (metadata_key(*a) == metadata_key(*b)),
{
    str_equal(a.name.as_str(), b.name.as_str()) && maps_equal(&a.entries, &b.entries)
}

} // verus!
