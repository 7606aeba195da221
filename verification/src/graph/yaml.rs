//! A plain YAML value tree, as a deployment manifest holds it.
use vstd::prelude::*;

verus! {

/// A YAML value. Numbers keep exact integers; any other number is a float,
/// whose value the graph compiler never reads.
#[derive(Debug)]
pub enum YamlValue {
    /// `null` or `~`.
    Null,
    /// A boolean.
    Bool(bool),
    /// An exact integer (any `i64` or `u64`).
    Integer(i128),
    /// A non-integer number.
    Float,
    /// A string scalar.
    String(String),
    /// A sequence, in document order.
    Sequence(Vec<YamlValue>),
    /// A mapping, in document order.
    Mapping(Vec<(YamlValue, YamlValue)>),
    /// A value carrying an explicit YAML tag.
    Tagged,
}

/// The first value stored under the string key `key`, if any.
pub open spec fn mapping_get(entries: Seq<(YamlValue, YamlValue)>, key: Seq<char>) -> Option<YamlValue>
    decreases entries.len(),
{
    if entries.len() == 0 {
        None
    } else {
        match entries[0].0 {
            YamlValue::String(k) if k@ == key => Some(entries[0].1),
            _ => mapping_get(entries.drop_first(), key),
        }
    }
}

/// Look up the first value stored under the string key `key`.
pub fn mapping_lookup<'a>(entries: &'a Vec<(YamlValue, YamlValue)>, key: &str) -> (r: Option<&'a YamlValue>)
    ensures
        match mapping_get(entries@, key@) {
            Some(v) => r matches Some(x) && *x == v,
            None => r is None,
        },
{
    let mut i: usize = 0;
    assert(entries@.skip(0) =~= entries@);
    while i < entries.len()
        invariant
            i <= entries@.len(),
            mapping_get(entries@, key@) == mapping_get(entries@.skip(i as int), key@),
        decreases entries@.len() - i,
    {
        assert(entries@.skip(i as int).drop_first() =~= entries@.skip(i + 1));
        match &entries[i].0 {
            YamlValue::String(k) => {
                if crate::text::str_equal(k.as_str(), key) {
                    return Some(&entries[i].1);
                }
            },
            _ => {},
        }
        i = i + 1;
    }
    None
}

} // verus!
