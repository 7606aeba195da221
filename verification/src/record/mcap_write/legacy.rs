//! The historical one-timestamp profile written as checked MCAP definitions.
//!
//! Definitions follow manifest order; unknown channels or clock domains and
//! per-record domain changes reject explicitly. The manifest travels as its
//! JSON text, embedded as the `neuradix.manifest` metadata record.
use crate::record::error::RecordError;
use crate::record::mcap_import::model::{McapChannel, McapHeader, McapMetadata, McapSchema};
use crate::record::mcap_write::limits::{check, spec_charge, write_limits_valid, McapWriteLimits, WriteLimitsView};
use crate::record::model::{domain_named, Channel, ClockDomain, RecordingManifest, Timestamp, FORMAT_VERSION};
use crate::record::strmap::StringMap;
use crate::text::utf8_bytes;
use vstd::prelude::*;

verus! {

/// The producer declarations of the historical profile.
pub fn legacy_header() -> (h: McapHeader)
    ensures
        h.profile@ == "neuradix"@,
        h.library@ == "neuradix-record/0.0.1"@,
{
    McapHeader { profile: "neuradix".to_owned(), library: "neuradix-record/0.0.1".to_owned() }
}

/// Why a manifest cannot start a historical-profile stream, if it cannot.
pub open spec fn prelude_error(m: RecordingManifest, json_len: nat, l: WriteLimitsView) -> Option<RecordError> {
    let n = m.channels@.len();
    if m.format_version != FORMAT_VERSION {
        Some(RecordError::UnsupportedVersion(m.format_version))
    } else if n > u16::MAX {
        Some(RecordError::TooManyChannels(n as usize))
    } else if n > l.channels {
        Some(RecordError::WriteLimit { kind: "channels", limit: l.channels as u64 })
    } else if n > l.schemas {
        Some(RecordError::WriteLimit { kind: "schemas", limit: l.schemas as u64 })
    } else if json_len > l.string_bytes {
        Some(RecordError::WriteLimit { kind: "manifest JSON bytes", limit: l.string_bytes as u64 })
    } else if json_len + 36 > l.record_bytes {
        Some(RecordError::WriteLimit { kind: "record bytes", limit: l.record_bytes as u64 })
    } else if spec_charge((json_len + 36) as u64, 1) > l.state_bytes {
        Some(RecordError::WriteLimit { kind: "state bytes", limit: l.state_bytes as u64 })
    } else {
        None
    }
}


/// Check a manifest and its JSON text against the policy, and give the
/// metadata record that embeds the JSON.
pub fn legacy_prelude(manifest: &RecordingManifest, json: &str, policy: McapWriteLimits) -> (r: Result<
    McapMetadata,
    RecordError,
>)
    requires
        write_limits_valid(policy@),
    ensures
        match prelude_error(*manifest, utf8_bytes(json@).len(), policy@) {
            Some(e) => r is Err && r->Err_0 == e,
            None => r is Ok && r->Ok_0.name@ == "neuradix.manifest"@ && r->Ok_0.entries.spec_entries() == seq![
                ("json"@, json@),
            ],
        },
{
    broadcast use vstd::utf8::group_utf8_lib;
    if manifest.format_version != FORMAT_VERSION {
        return Err(RecordError::UnsupportedVersion(manifest.format_version));
    }
    let n = manifest.channels.len();
    if n > 65535 {
        return Err(RecordError::TooManyChannels(n));
    }
    check(n as u64, policy.channels() as u64, "channels")?;
    check(n as u64, policy.schemas() as u64, "schemas")?;
    let bytes = json.as_bytes();
    let len = bytes.len();
    assert(bytes@ == utf8_bytes(json@));
    if len > policy.string_bytes() {
        return Err(RecordError::WriteLimit { kind: "manifest JSON bytes", limit: policy.string_bytes() as u64 });
    }
    let body = len as u64 + 36;
    check(body, policy.record_bytes() as u64, "record bytes")?;
    check(4 * body + 2048 + 256, policy.state_bytes() as u64, "state bytes")?;
    let mut entries = StringMap::new();
    entries.insert("json".to_owned(), json.to_owned());
    proof {
        assert(Seq::<(Seq<char>, Seq<char>)>::empty().insert(0, ("json"@, json@)) =~= seq![("json"@, json@)]);
    }
    Ok(McapMetadata { name: "neuradix.manifest".to_owned(), entries })
}

/// Why manifest channel `c` cannot be defined after the channels `known`, if it cannot.
pub open spec fn channel_error(c: Channel, known: Seq<(u16, ClockDomain)>) -> Option<RecordError> {
    if domain_named(c.clock_domain@) is None {
        Some(RecordError::InvalidMcapWrite("unknown manifest clock domain"))
    } else if exists|j: int| 0 <= j < known.len() && known[j].0 == c.id {
        Some(RecordError::InvalidMcapWrite("duplicate manifest channel"))
    } else {
        None
    }
}

/// The defined channels of a historical-profile stream and their clock domains,
/// in manifest order.
pub struct LegacyChannels {
    domains: Vec<(u16, ClockDomain)>,
}

impl View for LegacyChannels {
    type V = Seq<(u16, ClockDomain)>;

    closed spec fn view(&self) -> Seq<(u16, ClockDomain)> {
        self.domains@
    }
}

/// Why a record cannot be written, if it cannot: its channel must be defined in
/// its timestamp's clock domain, its sequence must fit `u32` and its time `u64`.
pub open spec fn record_error(known: Seq<(u16, ClockDomain)>, channel_id: u16, sequence: u64, t: Timestamp) -> Option<
    RecordError,
> {
    if !(exists|j: int| 0 <= j < known.len() && known[j].0 == channel_id && known[j].1 == t.spec_domain()
        && forall|k: int| 0 <= k < j ==> known[k].0 != channel_id) {
        Some(RecordError::InvalidMcapWrite("unknown channel or clock-domain mismatch"))
    } else if sequence > u32::MAX {
        Some(RecordError::SequenceTooLarge(sequence))
    } else if t.spec_nanos() < 0 || t.spec_nanos() > u64::MAX {
        Some(RecordError::TimestampOutOfRange(t.spec_nanos()))
    } else {
        None
    }
}

impl LegacyChannels {
    /// No channel defined yet.
    pub fn new() -> (l: LegacyChannels)
        ensures
            l@ == Seq::<(u16, ClockDomain)>::empty(),
    {
        LegacyChannels { domains: Vec::new() }
    }

    /// The schema and channel definitions of manifest channel `index`; its id
    /// and clock domain are then known.
    pub fn define(&mut self, index: usize, c: &Channel) -> (r: Result<(McapSchema, McapChannel), RecordError>)
        requires
            index < 65_535,
        ensures
            match channel_error(*c, old(self)@) {
                Some(e) => r is Err && r->Err_0 == e && final(self)@ == old(self)@,
                None => r is Ok && ({
                    let (s, ch) = r->Ok_0;
                    &&& s.id == index + 1 && s.name@ == c.name@ && s.encoding@ == "neuradix/schema-id"@
                    &&& s.data@ == utf8_bytes(c.schema_id@)
                    &&& ch.id == c.id && ch.schema_id == index + 1 && ch.topic@ == c.name@
                    &&& ch.message_encoding@ == "neuradix"@
                    &&& ch.metadata.spec_entries().len() == 2
                    &&& ch.metadata.spec_entries().contains(("clockDomain"@, c.clock_domain@))
                    &&& ch.metadata.spec_entries().contains(("schemaIdentity"@, c.schema_id@))
                    &&& final(self)@ == old(self)@.push((c.id, domain_named(c.clock_domain@)->Some_0))
                }),
            },
    {
        broadcast use vstd::utf8::group_utf8_lib;
        let domain = match ClockDomain::parse(c.clock_domain.as_str()) {
            Some(d) => d,
            None => return Err(RecordError::InvalidMcapWrite("unknown manifest clock domain")),
        };
        let mut j: usize = 0;
        while j < self.domains.len()
            invariant
                j <= self.domains@.len(),
                self@ == old(self)@,
                domain_named(c.clock_domain@) == Some(domain),
                forall|k: int| 0 <= k < j ==> self.domains@[k].0 != c.id,
            decreases self.domains@.len() - j,
        {
            if self.domains[j].0 == c.id {
                assert(self@[j as int].0 == c.id);
                return Err(RecordError::InvalidMcapWrite("duplicate manifest channel"));
            }
            j = j + 1;
        }
        let id = (index + 1) as u16;
        let bytes = c.schema_id.as_str().as_bytes();
        assert(bytes@ == utf8_bytes(c.schema_id@));
        let schema = McapSchema {
            id,
            name: c.name.clone(),
            encoding: "neuradix/schema-id".to_owned(),
            data: crate::text::copy_bytes(bytes),
        };
        let mut metadata = StringMap::new();
        metadata.insert("clockDomain".to_owned(), c.clock_domain.clone());
        let ghost first = metadata.spec_entries();
        proof {
            assert(Seq::<(Seq<char>, Seq<char>)>::empty().insert(0, ("clockDomain"@, c.clock_domain@)) =~= seq![
                ("clockDomain"@, c.clock_domain@),
            ]);
            assert(first =~= seq![("clockDomain"@, c.clock_domain@)]);
        }
        metadata.insert("schemaIdentity".to_owned(), c.schema_id.clone());
        proof {
            reveal_strlit("clockDomain");
            reveal_strlit("schemaIdentity");
            assert("clockDomain"@ != "schemaIdentity"@) by {
                assert("clockDomain"@.len() != "schemaIdentity"@.len());
            }
            let e = metadata.spec_entries();
            let i = choose|i: int| 0 <= i <= first.len() && (forall|j: int| 0 <= j < i ==> crate::record::strmap::bytes_lt(
                #[trigger] crate::record::strmap::key_bytes(first[j].0), crate::record::strmap::key_bytes("schemaIdentity"@)))
                && ({
                ||| (i < first.len() && first[i].0 == "schemaIdentity"@ && e == first.update(i, ("schemaIdentity"@, c.schema_id@)))
                ||| ((i == first.len() || crate::record::strmap::bytes_lt(crate::record::strmap::key_bytes("schemaIdentity"@),
                    crate::record::strmap::key_bytes(first[i].0))) && e == first.insert(i, ("schemaIdentity"@, c.schema_id@)))
            });
            assert(e == first.insert(i, ("schemaIdentity"@, c.schema_id@)));
            if i == 0 {
                assert(e[1] == ("clockDomain"@, c.clock_domain@));
                assert(e[0] == ("schemaIdentity"@, c.schema_id@));
            } else {
                assert(e[0] == ("clockDomain"@, c.clock_domain@));
                assert(e[1] == ("schemaIdentity"@, c.schema_id@));
            }
        }
        let channel = McapChannel {
            id: c.id,
            schema_id: id,
            topic: c.name.clone(),
            message_encoding: "neuradix".to_owned(),
            metadata,
        };
        self.domains.push((c.id, domain));
        Ok((schema, channel))
    }

    fn find(&self, id: u16) -> (r: Option<usize>)
        ensures
            match r {
                Some(j) => j < self@.len() && self@[j as int].0 == id && forall|k: int| 0 <= k < j ==> self@[k].0 != id,
                None => forall|k: int| 0 <= k < self@.len() ==> self@[k].0 != id,
            },
    {
        let mut j: usize = 0;
        while j < self.domains.len()
            invariant
                j <= self.domains@.len(),
                forall|k: int| 0 <= k < j ==> self.domains@[k].0 != id,
            decreases self.domains@.len() - j,
        {
            if self.domains[j].0 == id {
                return Some(j);
            }
            j = j + 1;
        }
        None
    }

    /// Check a record against the defined channels: its message sequence and
    /// both MCAP times (logging and publishing) come from it.
    pub fn record(&self, channel_id: u16, sequence: u64, timestamp: Timestamp) -> (r: Result<(u32, u64), RecordError>)
        ensures
            match record_error(self@, channel_id, sequence, timestamp) {
                Some(e) => r is Err && r->Err_0 == e,
                None => r is Ok && r->Ok_0 == (sequence as u32, timestamp.spec_nanos() as u64),
            },
    {
        let found = self.find(channel_id);
        let matches = match found {
            Some(j) => self.domains[j].1 == timestamp.domain(),
            None => false,
        };
        if !matches {
            proof {
                if exists|m: int| 0 <= m < self@.len() && self@[m].0 == channel_id && self@[m].1 == timestamp.spec_domain()
                    && forall|k: int| 0 <= k < m ==> self@[k].0 != channel_id {
                    let m = choose|m: int| 0 <= m < self@.len() && self@[m].0 == channel_id && self@[m].1
                        == timestamp.spec_domain() && forall|k: int| 0 <= k < m ==> self@[k].0 != channel_id;
                    match found {
                        Some(j) => {
                            if m < j {
                            } else if m > j {
                                assert(self@[j as int].0 == channel_id);
                            }
                        },
                        None => {},
                    }
                }
            }
            return Err(RecordError::InvalidMcapWrite("unknown channel or clock-domain mismatch"));
        }
        if sequence > 0xffff_ffff {
            return Err(RecordError::SequenceTooLarge(sequence));
        }
        let nanos = timestamp.as_nanos();
        if nanos < 0 || nanos > 0xffff_ffff_ffff_ffff {
            return Err(RecordError::TimestampOutOfRange(nanos));
        }
        Ok((sequence as u32, nanos as u64))
    }
}

} // verus!
