//! Explicit compatibility boundary for the historical one-timestamp container.
//!
//! Only the fully representable historical Neuradix MCAP profile converts.
//! Extra metadata, foreign encodings, unequal publishing/logging timestamps and
//! missing or conflicting clock provenance reject. The generic archive remains
//! the appropriate API for other supported MCAP data. The embedded manifest is
//! JSON: reading it into a `RecordingManifest` is the caller's part, between
//! `legacy_manifest_json` and `try_into_recording`.
use crate::record::error::RecordError;
use crate::record::mcap_import::model::McapMessage;
use crate::record::mcap_import::same::bytes_equal;
use crate::record::mcap_import::state::{ArchiveView, McapArchive};
use crate::record::model::{domain_named, ClockDomain, RawRecord, RecordingManifest, Timestamp, FORMAT_VERSION};
use crate::record::native::{record_views, RecordView};
use crate::record::recording::Recording;
use crate::record::strmap::StringMap;
use crate::text::{copy_bytes, str_equal, utf8_bytes};
use std::collections::BTreeSet;
use vstd::prelude::*;

verus! {

broadcast use vstd::laws_cmp::group_laws_cmp, vstd::std_specs::btree::group_btree_axioms;

/// The producing library declared by the historical Neuradix profile.
pub open spec fn legacy_library() -> Seq<char> {
    "neuradix-record/0.0.1"@
}

/// The refusal of an archive the historical recording cannot represent.
pub open spec fn unsupported() -> RecordError {
    RecordError::UnsupportedMcap("legacy Recording cannot preserve this archive; use McapArchive/import_mcap")
}

fn unsupported_error() -> (e: RecordError)
    ensures
        e == unsupported(),
{
    RecordError::UnsupportedMcap("legacy Recording cannot preserve this archive; use McapArchive/import_mcap")
}

/// The value of the first entry with a key.
pub open spec fn first_value(e: Seq<(Seq<char>, Seq<char>)>, key: Seq<char>) -> Option<Seq<char>>
    decreases e.len(),
{
    if e.len() == 0 {
        None
    } else if e[0].0 == key {
        Some(e[0].1)
    } else {
        first_value(e.drop_first(), key)
    }
}

/// The embedded manifest JSON of an archive in the historical profile.
pub open spec fn legacy_json(a: ArchiveView) -> Option<Seq<char>> {
    let s = a.summary;
    if s.header.profile@ == "neuradix"@ && s.header.library@ == legacy_library() && s.metadata.len() == 1
        && (forall|i: int| 0 <= i < a.auxiliary.len() ==> #[trigger] a.auxiliary[i].opcode == 0x0b)
        && s.metadata[0].name@ == "neuradix.manifest"@ && s.metadata[0].entries.spec_entries().len() == 1
        && s.metadata[0].entries.spec_entries()[0].0 == "json"@ {
        Some(s.metadata[0].entries.spec_entries()[0].1)
    } else {
        None
    }
}

/// The clock domain the manifest declares for a channel id (first declaration).
pub open spec fn manifest_domain(cs: Seq<crate::record::model::Channel>, id: u16) -> Option<ClockDomain>
    decreases cs.len(),
{
    if cs.len() == 0 {
        None
    } else if cs[0].id == id {
        domain_named(cs[0].clock_domain@)
    } else {
        manifest_domain(cs.drop_first(), id)
    }
}

/// Whether manifest channel `i` matches its MCAP channel and schema exactly.
pub open spec fn channel_faithful(a: ArchiveView, m: RecordingManifest, i: int) -> Result<(), RecordError> {
    let c = m.channels@[i];
    let s = a.summary;
    if domain_named(c.clock_domain@) is None {
        Err(unsupported())
    } else if exists|j: int| 0 <= j < i && m.channels@[j].id == c.id {
        Err(RecordError::Mcap("duplicate manifest channel"))
    } else if !s.channels.contains_key(c.id) {
        Err(RecordError::Mcap("manifest references missing channel"))
    } else if !s.schemas.contains_key(s.channels[c.id].schema_id) {
        Err(unsupported())
    } else {
        let ch = s.channels[c.id];
        let sc = s.schemas[ch.schema_id];
        if ch.topic@ == c.name@ && ch.message_encoding@ == "neuradix"@ && ch.metadata.spec_entries().len() == 2
            && first_value(ch.metadata.spec_entries(), "clockDomain"@) == Some(c.clock_domain@)
            && first_value(ch.metadata.spec_entries(), "schemaIdentity"@) == Some(c.schema_id@)
            && sc.name@ == c.name@ && sc.encoding@ == "neuradix/schema-id"@ && sc.data@ == utf8_bytes(c.schema_id@) {
            Ok(())
        } else {
            Err(unsupported())
        }
    }
}

/// The first refused manifest channel among the first `n`, if any.
pub open spec fn channels_faithful(a: ArchiveView, m: RecordingManifest, n: nat) -> Result<(), RecordError>
    decreases n,
{
    if n == 0 {
        Ok(())
    } else {
        match channels_faithful(a, m, (n - 1) as nat) {
            Err(e) => Err(e),
            Ok(_) => channel_faithful(a, m, n - 1),
        }
    }
}

proof fn lemma_faithful_stops(a: ArchiveView, m: RecordingManifest, k: nat, n: nat)
    requires
        k <= n,
        channels_faithful(a, m, k) is Err,
    ensures
        channels_faithful(a, m, n) == channels_faithful(a, m, k),
    decreases n - k,
{
    if k < n {
        lemma_faithful_stops(a, m, k, (n - 1) as nat);
    }
}

/// Schema ids referenced by the first `n` manifest channels.
pub open spec fn referenced_schemas(a: ArchiveView, m: RecordingManifest, n: int) -> Set<u16> {
    Set::new(|id: u16| exists|i: int| 0 <= i < n && #[trigger] a.summary.channels[m.channels@[i].id].schema_id == id)
}

/// Records of messages, in file order, or the first refused message.
pub open spec fn project_messages(ms: Seq<McapMessage>, m: RecordingManifest) -> Result<Seq<RecordView>, RecordError>
    decreases ms.len(),
{
    if ms.len() == 0 {
        Ok(Seq::empty())
    } else if ms[0].log_time != ms[0].publish_time {
        Err(unsupported())
    } else {
        match manifest_domain(m.channels@, ms[0].channel_id) {
            None => Err(RecordError::Mcap("missing manifest channel")),
            Some(d) => match project_messages(ms.drop_first(), m) {
                Err(e) => Err(e),
                Ok(rest) => Ok(seq![RecordView {
                    channel_id: ms[0].channel_id,
                    sequence: ms[0].sequence as u64,
                    domain: d,
                    nanos: ms[0].log_time as i128,
                    payload: ms[0].data@,
                }] + rest),
            },
        }
    }
}

/// The historical recording of an archive with its parsed manifest, or why it
/// cannot represent the archive.
pub open spec fn legacy_projection(a: ArchiveView, m: RecordingManifest) -> Result<Seq<RecordView>, RecordError> {
    if m.format_version != FORMAT_VERSION || m.channels@.len() != a.summary.channels.len() {
        Err(RecordError::Mcap("manifest/channel set mismatch"))
    } else {
        match channels_faithful(a, m, m.channels@.len()) {
            Err(e) => Err(e),
            Ok(_) => if referenced_schemas(a, m, m.channels@.len() as int).len() != a.summary.schemas.len() {
                Err(unsupported())
            } else {
                project_messages(a.messages, m)
            },
        }
    }
}

/// A parsed historical recording: a manifest and its ordered records.
#[derive(Debug, Clone)]
pub struct McapRecording {
    manifest: RecordingManifest,
    records: Vec<RawRecord>,
}

impl McapRecording {
    /// The parsed manifest.
    pub closed spec fn spec_manifest(&self) -> RecordingManifest {
        self.manifest
    }

    /// The records, in recorded order.
    pub closed spec fn spec_records(&self) -> Seq<RawRecord> {
        self.records@
    }

    /// A recording from a manifest and records.
    pub fn from_import(manifest: RecordingManifest, records: Vec<RawRecord>) -> (r: Self)
        ensures
            r.spec_manifest() == manifest,
            r.spec_records() == records@,
    {
        McapRecording { manifest, records }
    }
}

impl Recording for McapRecording {
    open spec fn recording_manifest(&self) -> RecordingManifest {
        self.spec_manifest()
    }

    open spec fn recording_records(&self) -> Seq<RawRecord> {
        self.spec_records()
    }

    fn manifest(&self) -> (m: &RecordingManifest) {
        &self.manifest
    }

    fn records(&self) -> (rs: &[RawRecord]) {
        self.records.as_slice()
    }
}

fn lookup<'a>(map: &'a StringMap, key: &str) -> (v: Option<&'a String>)
    ensures
        match first_value(map.spec_entries(), key@) {
            Some(x) => v is Some && v->Some_0@ == x,
            None => v is None,
        },
{
    let ghost e = map.spec_entries();
    let mut i: usize = 0;
    assert(e.skip(0) =~= e);
    while i < map.len()
        invariant
            e == map.spec_entries(),
            i <= e.len(),
            first_value(e, key@) == first_value(e.skip(i as int), key@),
        decreases e.len() - i,
    {
        let (k, v) = map.entry(i);
        assert(e.skip(i as int)[0] == e[i as int]);
        assert(e.skip(i as int).drop_first() =~= e.skip(i + 1));
        if str_equal(k.as_str(), key) {
            return Some(v);
        }
        i = i + 1;
    }
    assert(e.skip(i as int) =~= Seq::<(Seq<char>, Seq<char>)>::empty());
    None
}

fn channel_matches(c: &crate::record::model::Channel, ch: &crate::record::mcap_import::model::McapChannel,
    sc: &crate::record::mcap_import::model::McapSchema) -> (b: bool)
    ensures
        b == (ch.topic@ == c.name@ && ch.message_encoding@ == "neuradix"@ && ch.metadata.spec_entries().len() == 2
            && first_value(ch.metadata.spec_entries(), "clockDomain"@) == Some(c.clock_domain@)
            && first_value(ch.metadata.spec_entries(), "schemaIdentity"@) == Some(c.schema_id@)
            && sc.name@ == c.name@ && sc.encoding@ == "neuradix/schema-id"@ && sc.data@ == utf8_bytes(c.schema_id@)),
{
    broadcast use vstd::utf8::group_utf8_lib;
    if !str_equal(ch.topic.as_str(), c.name.as_str()) || !str_equal(ch.message_encoding.as_str(), "neuradix")
        || ch.metadata.len() != 2 {
        return false;
    }
    let domain_ok = match lookup(&ch.metadata, "clockDomain") {
        Some(v) => str_equal(v.as_str(), c.clock_domain.as_str()),
        None => false,
    };
    let identity_ok = match lookup(&ch.metadata, "schemaIdentity") {
        Some(v) => str_equal(v.as_str(), c.schema_id.as_str()),
        None => false,
    };
    let bytes = c.schema_id.as_str().as_bytes();
    assert(bytes@ == utf8_bytes(c.schema_id@));
    domain_ok && identity_ok && str_equal(sc.name.as_str(), c.name.as_str())
        && str_equal(sc.encoding.as_str(), "neuradix/schema-id") && bytes_equal(sc.data.as_slice(), bytes)
}

impl McapArchive {
    /// The embedded manifest JSON of an archive in the historical Neuradix
    /// profile; any other archive is refused.
    pub fn legacy_manifest_json(&self) -> (r: Result<String, RecordError>)
        ensures
            match legacy_json(self@) {
                Some(j) => r is Ok && r->Ok_0@ == j,
                None => r == Err::<String, RecordError>(unsupported()),
            },
    {
        let s = self.summary();
        let h = s.header();
        let md = s.metadata();
        let aux = self.auxiliary();
        if !str_equal(h.profile.as_str(), "neuradix") || !str_equal(h.library.as_str(), "neuradix-record/0.0.1")
            || md.len() != 1 {
            return Err(unsupported_error());
        }
        let mut i: usize = 0;
        while i < aux.len()
            invariant
                i <= aux@.len(),
                aux@ == self@.auxiliary,
                forall|k: int| 0 <= k < i ==> #[trigger] aux@[k].opcode == 0x0b,
            decreases aux@.len() - i,
        {
            if aux[i].opcode != 0x0b {
                return Err(unsupported_error());
            }
            i = i + 1;
        }
        let m = &md[0];
        if !str_equal(m.name.as_str(), "neuradix.manifest") || m.entries.len() != 1 {
            return Err(unsupported_error());
        }
        let (k, v) = m.entries.entry(0);
        if !str_equal(k.as_str(), "json") {
            return Err(unsupported_error());
        }
        Ok(v.clone())
    }

    /// Convert an archive in the historical Neuradix profile, with its parsed
    /// manifest, into the one-timestamp recording. Every manifest channel must
    /// match its MCAP channel and schema exactly, every schema must be used, and
    /// every message must carry equal logging and publishing times.
    pub fn try_into_recording(self, manifest: RecordingManifest) -> (r: Result<McapRecording, RecordError>)
        ensures
            legacy_json(self@) is None ==> r is Err && r->Err_0 == unsupported(),
            legacy_json(self@) is Some ==> match legacy_projection(self@, manifest) {
                Ok(rs) => r is Ok && r->Ok_0.spec_manifest() == manifest && record_views(r->Ok_0.spec_records()) == rs,
                Err(e) => r is Err && r->Err_0 == e,
            },
    {
        let ghost a = self@;
        match self.legacy_manifest_json() {
            Ok(_) => {},
            Err(e) => return Err(e),
        }
        let s = self.summary();
        if manifest.format_version != FORMAT_VERSION || manifest.channels.len() != s.channels().len() {
            return Err(RecordError::Mcap("manifest/channel set mismatch"));
        }
        let n = manifest.channels.len();
        let mut seen: BTreeSet<u16> = BTreeSet::new();
        let mut used: BTreeSet<u16> = BTreeSet::new();
        let mut i: usize = 0;
        while i < n
            invariant
                n == manifest.channels@.len(),
                i <= n,
                a == self@,
                legacy_json(a) is Some,
                s@ == a.summary,
                manifest.format_version == FORMAT_VERSION,
                n == a.summary.channels.len(),
                channels_faithful(a, manifest, i as nat) == Ok::<(), RecordError>(()),
                seen@ == Set::new(|id: u16| exists|j: int| 0 <= j < i && manifest.channels@[j].id == id),
                used@ == referenced_schemas(a, manifest, i as int),
            decreases n - i,
        {
            let c = &manifest.channels[i];
            let domain = ClockDomain::parse(c.clock_domain.as_str());
            if domain.is_none() {
                proof {
                    lemma_faithful_stops(a, manifest, (i + 1) as nat, n as nat);
                }
                return Err(unsupported_error());
            }
            let fresh = seen.insert(c.id);
            if !fresh {
                assert(exists|j: int| 0 <= j < i && manifest.channels@[j].id == c.id);
                proof {
                    lemma_faithful_stops(a, manifest, (i + 1) as nat, n as nat);
                }
                return Err(RecordError::Mcap("duplicate manifest channel"));
            }
            let ch = match s.channels().get(&c.id) {
                Some(ch) => ch,
                None => {
                    proof {
                        lemma_faithful_stops(a, manifest, (i + 1) as nat, n as nat);
                    }
                    return Err(RecordError::Mcap("manifest references missing channel"));
                },
            };
            let sc = match s.schemas().get(&ch.schema_id) {
                Some(sc) => sc,
                None => {
                    proof {
                        lemma_faithful_stops(a, manifest, (i + 1) as nat, n as nat);
                    }
                    return Err(unsupported_error());
                },
            };
            if !channel_matches(c, ch, sc) {
                proof {
                    lemma_faithful_stops(a, manifest, (i + 1) as nat, n as nat);
                }
                return Err(unsupported_error());
            }
            used.insert(ch.schema_id);
            proof {
                assert(seen@ =~= Set::new(|id: u16| exists|j: int| 0 <= j < i + 1 && manifest.channels@[j].id == id)) by {
                    assert forall|id: u16| seen@.contains(id) implies exists|j: int| 0 <= j < i + 1 && manifest.channels@[j].id == id by {
                        if id == c.id {
                            assert(manifest.channels@[i as int].id == id);
                        }
                    }
                }
                assert(used@ =~= referenced_schemas(a, manifest, i + 1)) by {
                    assert forall|id: u16| used@.contains(id) implies referenced_schemas(a, manifest, i + 1).contains(id) by {
                        if id == ch.schema_id {
                            assert(a.summary.channels[manifest.channels@[i as int].id].schema_id == id);
                        } else {
                            let j = choose|j: int| 0 <= j < i && #[trigger] a.summary.channels[manifest.channels@[j].id].schema_id == id;
                            assert(a.summary.channels[manifest.channels@[j].id].schema_id == id);
                        }
                    }
                    assert forall|id: u16| referenced_schemas(a, manifest, i + 1).contains(id) implies used@.contains(id) by {
                        let j = choose|j: int| 0 <= j < i + 1 && #[trigger] a.summary.channels[manifest.channels@[j].id].schema_id == id;
                        if j < i {
                            assert(referenced_schemas(a, manifest, i as int).contains(id));
                        }
                    }
                }
            }
            i = i + 1;
        }
        if used.len() != s.schemas().len() {
            return Err(unsupported_error());
        }
        assert(used@.len() == referenced_schemas(a, manifest, n as int).len());
        assert(legacy_projection(a, manifest) == project_messages(a.messages, manifest));
        let ms = self.messages();
        let mut records: Vec<RawRecord> = Vec::new();
        let mut k: usize = 0;
        assert(ms@.skip(0) =~= ms@);
        assert(record_views(records@) =~= Seq::<RecordView>::empty());
        while k < ms.len()
            invariant
                k <= ms@.len(),
                ms@ == a.messages,
                a == self@,
                legacy_json(a) is Some,
                legacy_projection(a, manifest) == project_messages(a.messages, manifest),
                project_messages(a.messages, manifest) == crate::record::native::prepend(
                    record_views(records@),
                    project_messages(ms@.skip(k as int), manifest),
                ),
            decreases ms@.len() - k,
        {
            let message = &ms[k];
            let ghost rest = ms@.skip(k as int);
            assert(rest[0] == ms@[k as int]);
            assert(rest.drop_first() =~= ms@.skip(k + 1));
            if message.log_time != message.publish_time {
                return Err(unsupported_error());
            }
            let domain = match domain_for(&manifest, message.channel_id) {
                Some(d) => d,
                None => return Err(RecordError::Mcap("missing manifest channel")),
            };
            let record = RawRecord {
                channel_id: message.channel_id,
                sequence: message.sequence as u64,
                timestamp: Timestamp::new(domain, message.log_time as i128),
                payload: copy_bytes(message.data.as_slice()),
            };
            let ghost before = records@;
            records.push(record);
            proof {
                assert(record_views(records@) =~= record_views(before).push(crate::record::native::record_view(record)));
                match project_messages(ms@.skip(k + 1), manifest) {
                    Ok(ys) => {
                        assert(record_views(before) + (seq![crate::record::native::record_view(record)] + ys)
                            =~= record_views(records@) + ys);
                    },
                    Err(e) => {},
                }
            }
            k = k + 1;
        }
        assert(ms@.skip(k as int) =~= Seq::<McapMessage>::empty());
        assert(record_views(records@) + Seq::<RecordView>::empty() =~= record_views(records@));
        Ok(McapRecording::from_import(manifest, records))
    }
}

fn domain_for(manifest: &RecordingManifest, id: u16) -> (d: Option<ClockDomain>)
    ensures
        d == manifest_domain(manifest.channels@, id),
{
    let ghost cs = manifest.channels@;
    let mut i: usize = 0;
    assert(cs.skip(0) =~= cs);
    while i < manifest.channels.len()
        invariant
            cs == manifest.channels@,
            i <= cs.len(),
            manifest_domain(cs, id) == manifest_domain(cs.skip(i as int), id),
        decreases cs.len() - i,
    {
        assert(cs.skip(i as int)[0] == cs[i as int]);
        assert(cs.skip(i as int).drop_first() =~= cs.skip(i + 1));
        if manifest.channels[i].id == id {
            return ClockDomain::parse(manifest.channels[i].clock_domain.as_str());
        }
        i = i + 1;
    }
    assert(cs.skip(i as int) =~= Seq::<crate::record::model::Channel>::empty());
    None
}

} // verus!
