//! The recording data model: clock domains, timestamps, manifest, channels and records.
use crate::text::str_equal;
use vstd::prelude::*;

verus! {

/// The current native recording format version.
pub const FORMAT_VERSION: u8 = 1;

/// The clock a timestamp was taken from.
#[derive(Debug, Clone, Copy, PartialEq, Eq, Structural)]
pub enum ClockDomain {
    /// A monotonic clock of the host.
    Monotonic,
    /// Simulated time of a deterministic run.
    Simulation,
}

/// The one-byte wire code of a clock domain.
pub open spec fn domain_code(d: ClockDomain) -> u8 {
    match d {
        ClockDomain::Monotonic => 0,
        ClockDomain::Simulation => 1,
    }
}

/// The clock domain with a wire code, if any.
pub open spec fn domain_of_code(c: u8) -> Option<ClockDomain> {
    if c == 0 {
        Some(ClockDomain::Monotonic)
    } else if c == 1 {
        Some(ClockDomain::Simulation)
    } else {
        None
    }
}

/// The canonical spelling of a clock domain.
pub open spec fn domain_name(d: ClockDomain) -> Seq<char> {
    match d {
        ClockDomain::Monotonic => "monotonic"@,
        ClockDomain::Simulation => "simulation"@,
    }
}

/// The clock domain with a spelling, if any.
pub open spec fn domain_named(s: Seq<char>) -> Option<ClockDomain> {
    if s == "monotonic"@ {
        Some(ClockDomain::Monotonic)
    } else if s == "simulation"@ {
        Some(ClockDomain::Simulation)
    } else {
        None
    }
}

impl ClockDomain {
    /// The one-byte wire code.
    pub fn code(self) -> (c: u8)
        ensures
            c == domain_code(self),
    {
        match self {
            ClockDomain::Monotonic => 0,
            ClockDomain::Simulation => 1,
        }
    }

    /// The clock domain with a wire code, if any.
    pub fn from_code(c: u8) -> (d: Option<ClockDomain>)
        ensures
            d == domain_of_code(c),
    {
        if c == 0 {
            Some(ClockDomain::Monotonic)
        } else if c == 1 {
            Some(ClockDomain::Simulation)
        } else {
            None
        }
    }

    /// The canonical spelling.
    pub fn as_str(self) -> (s: &'static str)
        ensures
            s@ == domain_name(self),
    {
        match self {
            ClockDomain::Monotonic => "monotonic",
            ClockDomain::Simulation => "simulation",
        }
    }

    /// The clock domain with a spelling, if any.
    pub fn parse(s: &str) -> (d: Option<ClockDomain>)
        ensures
            d == domain_named(s@),
    {
        if str_equal(s, "monotonic") {
            Some(ClockDomain::Monotonic)
        } else if str_equal(s, "simulation") {
            Some(ClockDomain::Simulation)
        } else {
            None
        }
    }
}

/// Each clock domain's code and spelling lead back to it.
pub proof fn lemma_domain_round_trips(d: ClockDomain)
    ensures
        domain_of_code(domain_code(d)) == Some(d),
        domain_named(domain_name(d)) == Some(d),
{
    reveal_strlit("monotonic");
    reveal_strlit("simulation");
    assert("simulation"@.len() != "monotonic"@.len());
}

/// A domain-tagged instant in signed nanoseconds.
#[derive(Debug, Clone, Copy, PartialEq, Eq, Structural)]
pub struct Timestamp {
    domain: ClockDomain,
    nanos: i128,
}

impl Timestamp {
    /// The domain the instant belongs to.
    pub closed spec fn spec_domain(self) -> ClockDomain {
        self.domain
    }

    /// The instant in nanoseconds.
    pub closed spec fn spec_nanos(self) -> i128 {
        self.nanos
    }

    /// An instant of a clock domain.
    pub fn new(domain: ClockDomain, nanos: i128) -> (t: Timestamp)
        ensures
            t.spec_domain() == domain,
            t.spec_nanos() == nanos,
    {
        Timestamp { domain, nanos }
    }

    /// The clock domain.
    pub fn domain(self) -> (d: ClockDomain)
        ensures
            d == self.spec_domain(),
    {
        self.domain
    }

    /// The instant in nanoseconds.
    pub fn as_nanos(self) -> (n: i128)
        ensures
            n == self.spec_nanos(),
    {
        self.nanos
    }
}

/// A timestamp is determined by its domain and nanoseconds.
pub proof fn lemma_timestamp_ext(a: Timestamp, b: Timestamp)
    requires
        a.spec_domain() == b.spec_domain(),
        a.spec_nanos() == b.spec_nanos(),
    ensures
        a == b,
{
}

/// A logical channel within a recording (one contract stream).
#[derive(Debug, Clone, PartialEq, Eq)]
pub struct Channel {
    /// Stable channel id, referenced by every record on this channel.
    pub id: u16,
    /// Human-readable channel name (e.g. `navigation/vehicle-depth`).
    pub name: String,
    /// Content-addressed schema identity of the channel's payload contract.
    pub schema_id: String,
    /// The clock domain of the channel's authoritative timestamps.
    pub clock_domain: String,
}

impl Channel {
    /// A channel from a schema identity and a clock domain.
    pub fn new(id: u16, name: &str, schema_id: &str, domain: ClockDomain) -> (c: Channel)
        ensures
            c.id == id,
            c.name@ == name@,
            c.schema_id@ == schema_id@,
            c.clock_domain@ == domain_name(domain),
    {
        Channel {
            id,
            name: name.to_owned(),
            schema_id: schema_id.to_owned(),
            clock_domain: domain.as_str().to_owned(),
        }
    }
}

/// A software component identity captured for provenance.
#[derive(Debug, Clone, PartialEq, Eq)]
pub struct SoftwareId {
    /// Package or component name.
    pub name: String,
    /// Version string.
    pub version: String,
}

impl SoftwareId {
    /// A software identity.
    pub fn new(name: &str, version: &str) -> (s: SoftwareId)
        ensures
            s.name@ == name@,
            s.version@ == version@,
    {
        SoftwareId { name: name.to_owned(), version: version.to_owned() }
    }
}

/// The recording manifest: everything needed (besides the samples) to interpret
/// and reproduce a recording.
#[derive(Debug, Clone, PartialEq, Eq)]
pub struct RecordingManifest {
    /// Native container format version.
    pub format_version: u8,
    /// Identifier of the writer that produced the recording.
    pub writer: String,
    /// Channels present in the recording.
    pub channels: Vec<Channel>,
    /// Software identities captured for provenance.
    pub software: Vec<SoftwareId>,
    /// The random seed used, if the run was seeded.
    pub seed: Option<u64>,
    /// A free-form note (e.g. scenario or mission name).
    pub note: Option<String>,
}

/// The first channel position with an id, if any.
pub open spec fn first_channel(cs: Seq<Channel>, id: u16) -> Option<int> {
    if exists|i: int| 0 <= i < cs.len() && cs[i].id == id {
        Some(choose|i: int| 0 <= i < cs.len() && cs[i].id == id && forall|k: int| 0 <= k < i ==> cs[k].id != id)
    } else {
        None
    }
}

impl RecordingManifest {
    /// Start building a manifest with the given writer identifier.
    pub fn builder(writer: &str) -> (b: ManifestBuilder)
        ensures
            b.manifest.format_version == FORMAT_VERSION,
            b.manifest.writer@ == writer@,
            b.manifest.channels@.len() == 0,
            b.manifest.software@.len() == 0,
            b.manifest.seed is None,
            b.manifest.note is None,
    {
        ManifestBuilder {
            manifest: RecordingManifest {
                format_version: FORMAT_VERSION,
                writer: writer.to_owned(),
                channels: Vec::new(),
                software: Vec::new(),
                seed: None,
                note: None,
            },
        }
    }

    /// The first channel with an id.
    pub fn channel(&self, id: u16) -> (c: Option<&Channel>)
        ensures
            match first_channel(self.channels@, id) {
                Some(i) => c == Some(&self.channels@[i]),
                None => c is None,
            },
    {
        let mut i: usize = 0;
        while i < self.channels.len()
            invariant
                i <= self.channels@.len(),
                forall|k: int| 0 <= k < i ==> self.channels@[k].id != id,
            decreases self.channels@.len() - i,
        {
            if self.channels[i].id == id {
                let ghost w = choose|j: int| 0 <= j < self.channels@.len() && self.channels@[j].id == id
                    && forall|k: int| 0 <= k < j ==> self.channels@[k].id != id;
                assert(0 <= i && self.channels@[i as int].id == id && forall|k: int| 0 <= k < i ==> self.channels@[k].id != id);
                assert(w == i as int) by {
                    if w < i {
                        assert(self.channels@[w].id != id);
                    } else if w > i {
                        assert(self.channels@[i as int].id != id);
                    }
                }
                return Some(&self.channels[i]);
            }
            i = i + 1;
        }
        None
    }
}

/// Builder for a [`RecordingManifest`].
#[derive(Debug, Clone)]
pub struct ManifestBuilder {
    /// The manifest built so far.
    pub manifest: RecordingManifest,
}

impl ManifestBuilder {
    /// Add a channel.
    pub fn channel(self, channel: Channel) -> (b: Self)
        ensures
            b.manifest == (RecordingManifest { channels: b.manifest.channels, ..self.manifest }),
            b.manifest.channels@ == self.manifest.channels@.push(channel),
    {
        let mut b = self;
        b.manifest.channels.push(channel);
        b
    }

    /// Add a software provenance entry.
    pub fn software(self, software: SoftwareId) -> (b: Self)
        ensures
            b.manifest == (RecordingManifest { software: b.manifest.software, ..self.manifest }),
            b.manifest.software@ == self.manifest.software@.push(software),
    {
        let mut b = self;
        b.manifest.software.push(software);
        b
    }

    /// Set the random seed.
    pub fn seed(self, seed: u64) -> (b: Self)
        ensures
            b.manifest == (RecordingManifest { seed: Some(seed), ..self.manifest }),
    {
        let mut b = self;
        b.manifest.seed = Some(seed);
        b
    }

    /// Set a free-form note.
    pub fn note(self, note: &str) -> (b: Self)
        ensures
            b.manifest == (RecordingManifest { note: b.manifest.note, ..self.manifest }),
            b.manifest.note is Some && b.manifest.note->Some_0@ == note@,
    {
        let mut b = self;
        b.manifest.note = Some(note.to_owned());
        b
    }

    /// Finish building.
    pub fn build(self) -> (m: RecordingManifest)
        ensures
            m == self.manifest,
    {
        self.manifest
    }
}

/// A single recorded sample as raw (encoded) bytes plus metadata.
#[derive(Debug, Clone, PartialEq, Eq)]
pub struct RawRecord {
    /// The channel this record belongs to.
    pub channel_id: u16,
    /// Per-channel monotonically increasing sequence number.
    pub sequence: u64,
    /// The domain-tagged timestamp of the sample.
    pub timestamp: Timestamp,
    /// The encoded payload bytes.
    pub payload: Vec<u8>,
}

} // verus!
