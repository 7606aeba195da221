//! A contract registry: the validated contracts that deployment references
//! resolve against, indexed by `namespace/name` and version.
use crate::record::strmap::{bytes_less, bytes_lt, key_bytes};
use crate::text::{
    chars_of, is_white_space, skip_space, skip_space_back, str_equal, string_from_chars, trim, trim_bounds,
};
use vstd::prelude::*;

verus! {

/// Wire layout identities computed from a contract's validated schema.
#[derive(Debug, Clone, PartialEq, Eq)]
pub struct ContractLayout {
    /// Versioned codec identity.
    pub codec_id: String,
    /// Full scalar wire identity.
    pub wire_id: String,
}

/// A contract known to the registry.
#[derive(Debug, Clone, PartialEq, Eq)]
pub struct ContractEntry {
    /// The `namespace/name` identifier.
    pub identifier: String,
    /// The semantic version.
    pub version: String,
    /// The `sha256:` schema identity.
    pub schema_id: String,
    /// The wire layout, or why the schema has no supported layout.
    pub layout: LayoutStatus,
}

/// Whether a contract's schema has a supported wire layout.
#[derive(Debug, Clone, PartialEq, Eq)]
pub enum LayoutStatus {
    /// The computed layout.
    Supported(ContractLayout),
    /// Why the schema has no supported layout.
    Unsupported(String),
}

/// The outcome of resolving a single contract reference.
#[derive(Debug, Clone, PartialEq, Eq)]
pub enum Resolution<'a> {
    /// The reference resolved to exactly one registered contract.
    Resolved(&'a ContractEntry),
    /// No contract with the referenced `namespace/name` is registered.
    UnknownContract,
    /// The `namespace/name` is registered but not at the pinned version.
    UnknownVersion,
    /// Registered at several versions and not pinned; the versions, sorted.
    Ambiguous(Vec<String>),
    /// The reference was malformed (empty, or an empty part around `@`).
    Malformed,
}

/// Errors from building a registry.
#[derive(Debug, Clone, PartialEq, Eq)]
pub enum RegistryError {
    /// Two contracts share an identifier and version.
    Duplicate {
        /// The clashing `namespace/name`.
        identifier: String,
        /// The clashing version.
        version: String,
        /// The first source seen.
        first: String,
        /// The second source seen.
        second: String,
    },
}

/// The index of the first `@`, if any.
pub open spec fn first_at(s: Seq<char>) -> Option<int> {
    if exists|i: int| 0 <= i < s.len() && s[i] == '@' {
        Some(choose|i: int| 0 <= i < s.len() && s[i] == '@' && forall|j: int| 0 <= j < i ==> s[j] != '@')
    } else {
        None
    }
}

/// Split a reference into identifier and optional version, or `None` when
/// the trimmed reference or a part around the first `@` is empty.
pub open spec fn parse_reference(r: Seq<char>) -> Option<(Seq<char>, Option<Seq<char>>)> {
    let t = trim(r);
    if t.len() == 0 {
        None
    } else {
        match first_at(t) {
            Some(i) => if i == 0 || i + 1 == t.len() {
                None
            } else {
                Some((t.take(i), Some(t.skip(i + 1))))
            },
            None => Some((t, None)),
        }
    }
}

/// Versions registered for an identifier, in registration order.
pub open spec fn versions_of(entries: Seq<ContractEntry>, id: Seq<char>) -> Seq<Seq<char>>
    decreases entries.len(),
{
    if entries.len() == 0 {
        Seq::empty()
    } else if entries.last().identifier@ == id {
        versions_of(entries.drop_last(), id).push(entries.last().version@)
    } else {
        versions_of(entries.drop_last(), id)
    }
}

/// Insert a version before the first one that sorts after it.
pub open spec fn insert_version(sorted: Seq<Seq<char>>, v: Seq<char>) -> Seq<Seq<char>>
    decreases sorted.len(),
{
    if sorted.len() == 0 {
        seq![v]
    } else if bytes_lt(key_bytes(v), key_bytes(sorted[0])) {
        seq![v] + sorted
    } else {
        seq![sorted[0]] + insert_version(sorted.drop_first(), v)
    }
}

/// Versions sorted by byte order.
pub open spec fn sort_versions(vs: Seq<Seq<char>>) -> Seq<Seq<char>>
    decreases vs.len(),
{
    if vs.len() == 0 {
        Seq::empty()
    } else {
        insert_version(sort_versions(vs.drop_last()), vs.last())
    }
}

/// The index of the entry with the given identifier and version, if any.
pub open spec fn entry_index(entries: Seq<ContractEntry>, id: Seq<char>, v: Seq<char>) -> Option<int> {
    if exists|k: int| 0 <= k < entries.len() && entries[k].identifier@ == id && entries[k].version@ == v {
        Some(choose|k: int| 0 <= k < entries.len() && entries[k].identifier@ == id && entries[k].version@ == v)
    } else {
        None
    }
}

/// The index of the first entry with the given identifier, if any.
pub open spec fn first_with(entries: Seq<ContractEntry>, id: Seq<char>) -> Option<int> {
    if exists|k: int| 0 <= k < entries.len() && entries[k].identifier@ == id {
        Some(choose|k: int| 0 <= k < entries.len() && entries[k].identifier@ == id && forall|j: int| 0 <= j < k ==> entries[j].identifier@ != id)
    } else {
        None
    }
}

/// What a reference resolves to: the entry index, or the kind of refusal
/// (`Ambiguous` carries the sorted versions).
pub enum ResolutionView {
    /// The index of the resolved entry.
    Resolved(int),
    /// Unknown identifier.
    UnknownContract,
    /// Unknown pinned version.
    UnknownVersion,
    /// Several versions and no pin.
    Ambiguous(Seq<Seq<char>>),
    /// Malformed reference.
    Malformed,
}

/// The resolution of a reference against registry entries.
pub open spec fn resolution(entries: Seq<ContractEntry>, r: Seq<char>) -> ResolutionView {
    match parse_reference(r) {
        None => ResolutionView::Malformed,
        Some((id, ver)) => {
            let vs = versions_of(entries, id);
            if vs.len() == 0 {
                ResolutionView::UnknownContract
            } else {
                match ver {
                    Some(v) => match entry_index(entries, id, v) {
                        Some(k) => ResolutionView::Resolved(k),
                        None => ResolutionView::UnknownVersion,
                    },
                    None => if vs.len() == 1 {
                        ResolutionView::Resolved(first_with(entries, id)->0)
                    } else {
                        ResolutionView::Ambiguous(sort_versions(vs))
                    },
                }
            }
        },
    }
}

/// The views of owned strings.
pub open spec fn views(v: Seq<String>) -> Seq<Seq<char>> {
    v.map_values(|s: String| s@)
}

/// Whether no two entries share an identifier and version.
pub open spec fn unique_entries(entries: Seq<ContractEntry>) -> bool {
    forall|i: int, j: int|
        0 <= i < j < entries.len() ==> !(entries[i].identifier@ == entries[j].identifier@
            && entries[i].version@ == entries[j].version@)
}

/// Whether a schema identity carries the `sha256:` tag.
pub open spec fn sha256_tagged(s: Seq<char>) -> bool {
    s.len() >= 7 && s.subrange(0, 7) == "sha256:"@
}

/// Whether every entry's schema identity carries the `sha256:` tag.
pub open spec fn tagged_entries(entries: Seq<ContractEntry>) -> bool {
    forall|k: int| 0 <= k < entries.len() ==> sha256_tagged(#[trigger] entries[k].schema_id@)
}

/// An index of validated contracts, keyed by `namespace/name` then version.
#[derive(Debug, Clone)]
pub struct ContractRegistry {
    entries: Vec<ContractEntry>,
    sources: Vec<String>,
}

impl ContractRegistry {
    /// The registered entries, in registration order.
    pub closed spec fn spec_entries(&self) -> Seq<ContractEntry> {
        self.entries@
    }

    /// Where each registered entry was read from, in registration order.
    pub closed spec fn spec_sources(&self) -> Seq<Seq<char>> {
        views(self.sources@)
    }

    /// Whether each identifier/version pair occurs once.
    pub closed spec fn wf(&self) -> bool {
        &&& unique_entries(self.entries@)
        &&& tagged_entries(self.entries@)
        &&& self.sources@.len() == self.entries@.len()
    }

    /// Every registered schema identity carries the `sha256:` tag.
    pub proof fn lemma_tagged(&self)
        requires
            self.wf(),
        ensures
            tagged_entries(self.spec_entries()),
    {
    }

    /// An empty registry.
    pub fn new() -> (r: ContractRegistry)
        ensures
            r.wf(),
            r.spec_entries().len() == 0,
            r.spec_sources().len() == 0,
    {
        ContractRegistry { entries: Vec::new(), sources: Vec::new() }
    }

    /// The number of registered `(identifier, version)` contracts.
    pub fn len(&self) -> (n: usize)
        ensures
            n == self.spec_entries().len(),
    {
        self.entries.len()
    }

    /// Whether the registry holds no contracts.
    pub fn is_empty(&self) -> (b: bool)
        ensures
            b == (self.spec_entries().len() == 0),
    {
        self.entries.len() == 0
    }

    /// Register an entry read from `source`, refusing a duplicate
    /// identifier and version.
    pub fn insert(&mut self, entry: ContractEntry, source: String) -> (r: Result<(), RegistryError>)
        requires
            old(self).wf(),
            sha256_tagged(entry.schema_id@),
        ensures
            final(self).wf(),
            (exists|k: int| 0 <= k < old(self).spec_entries().len()
                && old(self).spec_entries()[k].identifier@ == entry.identifier@
                && old(self).spec_entries()[k].version@ == entry.version@) <==> r is Err,
            r is Ok ==> final(self).spec_entries() == old(self).spec_entries().push(entry),
            r is Ok ==> final(self).spec_sources() == old(self).spec_sources().push(source@),
            r is Err ==> final(self).spec_entries() == old(self).spec_entries(),
            r is Err ==> final(self).spec_sources() == old(self).spec_sources(),
            r matches Err(RegistryError::Duplicate { identifier, version, first, second }) ==> {
                &&& identifier@ == entry.identifier@
                &&& version@ == entry.version@
                &&& second@ == source@
                &&& entry_index(old(self).spec_entries(), entry.identifier@, entry.version@) matches Some(k)
                &&& first@ == old(self).spec_sources()[k]
            },
    {
        let mut i: usize = 0;
        while i < self.entries.len()
            invariant
                i <= self.entries@.len(),
                self.entries@ == old(self).entries@,
                self.sources@ == old(self).sources@,
                self.wf(),
                forall|k: int| 0 <= k < i ==> !(self.entries@[k].identifier@ == entry.identifier@
                    && self.entries@[k].version@ == entry.version@),
            decreases self.entries@.len() - i,
        {
            if str_equal(self.entries[i].identifier.as_str(), entry.identifier.as_str())
                && str_equal(self.entries[i].version.as_str(), entry.version.as_str())
            {
                proof {
                    let es = self.entries@;
                    let k = entry_index(es, entry.identifier@, entry.version@)->0;
                    assert(0 <= k < es.len() && es[k].identifier@ == entry.identifier@ && es[k].version@ == entry.version@);
                    if k != i {
                        assert(!(es[k].identifier@ == es[i as int].identifier@ && es[k].version@ == es[i as int].version@));
                    }
                }
                return Err(RegistryError::Duplicate {
                    identifier: entry.identifier,
                    version: entry.version,
                    first: self.sources[i].clone(),
                    second: source,
                });
            }
            i = i + 1;
        }
        self.entries.push(entry);
        self.sources.push(source);
        assert(views(self.sources@) =~= views(old(self).sources@).push(source@));
        Ok(())
    }

    /// Resolve a contract reference (`namespace/name` or `namespace/name@ver`).
    pub fn resolve(&self, reference: &str) -> (r: Resolution<'_>)
        requires
            self.wf(),
        ensures
            match resolution(self.spec_entries(), reference@) {
                ResolutionView::Resolved(k) => 0 <= k < self.spec_entries().len() && r
                    == Resolution::Resolved(&self.spec_entries()[k]),
                ResolutionView::UnknownContract => r == Resolution::UnknownContract,
                ResolutionView::UnknownVersion => r == Resolution::UnknownVersion,
                ResolutionView::Ambiguous(vs) => r matches Resolution::Ambiguous(got) && views(got@) == vs,
                ResolutionView::Malformed => r == Resolution::Malformed,
            },
    {
        let (id, ver) = match parse_reference_exec(reference) {
            None => return Resolution::Malformed,
            Some(p) => p,
        };
        let mut versions: Vec<String> = Vec::new();
        let mut first: usize = 0;
        let mut pinned: Option<usize> = None;
        let mut i: usize = 0;
        while i < self.entries.len()
            invariant
                i <= self.entries@.len(),
                views(versions@) == versions_of(self.entries@.take(i as int), id@),
                versions@.len() > 0 ==> first < i && self.entries@[first as int].identifier@ == id@
                    && forall|j: int| 0 <= j < first ==> self.entries@[j].identifier@ != id@,
                versions@.len() == 0 ==> forall|j: int| 0 <= j < i ==> self.entries@[j].identifier@ != id@,
                match ver {
                    Some(v) => match pinned {
                        Some(k) => k < i && self.entries@[k as int].identifier@ == id@
                            && self.entries@[k as int].version@ == v@,
                        None => forall|j: int| 0 <= j < i ==> !(self.entries@[j].identifier@ == id@
                            && self.entries@[j].version@ == v@),
                    },
                    None => pinned is None,
                },
            decreases self.entries@.len() - i,
        {
            proof {
                assert(self.entries@.take(i + 1).drop_last() =~= self.entries@.take(i as int));
            }
            let e = &self.entries[i];
            if str_equal(e.identifier.as_str(), id.as_str()) {
                if versions.len() == 0 {
                    first = i;
                }
                versions.push(e.version.clone());
                match &ver {
                    Some(v) => {
                        if pinned.is_none() && str_equal(e.version.as_str(), v.as_str()) {
                            pinned = Some(i);
                        }
                    },
                    None => {},
                }
            }
            proof {
                assert(views(versions@) =~= versions_of(self.entries@.take(i + 1), id@));
            }
            i = i + 1;
        }
        proof {
            assert(self.entries@.take(i as int) =~= self.entries@);
        }
        if versions.len() == 0 {
            return Resolution::UnknownContract;
        }
        match ver {
            Some(_) => match pinned {
                Some(k) => Resolution::Resolved(&self.entries[k]),
                None => Resolution::UnknownVersion,
            },
            None => {
                if versions.len() == 1 {
                    Resolution::Resolved(&self.entries[first])
                } else {
                    Resolution::Ambiguous(sort_versions_exec(versions))
                }
            },
        }
    }
}

/// Split a reference as `parse_reference` does.
fn parse_reference_exec(reference: &str) -> (r: Option<(String, Option<String>)>)
    ensures
        match parse_reference(reference@) {
            None => r is None,
            Some((id, ver)) => r matches Some((i, v)) && i@ == id && match ver {
                Some(x) => v matches Some(y) && y@ == x,
                None => v is None,
            },
        },
{
    let chars = chars_of(reference);
    let (lo, hi) = trim_bounds(&chars);
    let ghost t = trim(reference@);
    assert(t =~= chars@.subrange(lo as int, hi as int));
    if lo == hi {
        return None;
    }
    let mut p: usize = lo;
    while p < hi && chars[p] != '@'
        invariant
            lo <= p <= hi <= chars@.len(),
            forall|j: int| lo <= j < p ==> chars@[j] != '@',
        decreases hi - p,
    {
        p = p + 1;
    }
    let mut id_chars: Vec<char> = Vec::new();
    let mut k: usize = lo;
    while k < p
        invariant
            lo <= k <= p,
            p <= hi <= chars@.len(),
            id_chars@ == chars@.subrange(lo as int, k as int),
        decreases p - k,
    {
        id_chars.push(chars[k]);
        k = k + 1;
        assert(id_chars@ =~= chars@.subrange(lo as int, k as int));
    }
    if p == hi {
        proof {
            assert(!(exists|i: int| 0 <= i < t.len() && t[i] == '@')) by {
                assert forall|i: int| 0 <= i < t.len() implies t[i] != '@' by {
                    assert(t[i] == chars@[lo + i]);
                }
            }
            assert(id_chars@ =~= t);
        }
        return Some((string_from_chars(&id_chars), None));
    }
    proof {
        let i = (p - lo) as int;
        assert(t[i] == '@');
        assert(forall|j: int| 0 <= j < i ==> t[j] != '@') by {
            assert forall|j: int| 0 <= j < i implies t[j] != '@' by {
                assert(t[j] == chars@[lo + j]);
            }
        }
        let c = first_at(t)->0;
        assert(0 <= c < t.len() && t[c] == '@');
        if c < i {
            assert(t[c] == chars@[lo + c]);
        }
        if c > i {
            assert(t[i] != '@');
        }
        assert(c == i);
    }
    if p == lo || p + 1 == hi {
        return None;
    }
    let mut ver_chars: Vec<char> = Vec::new();
    let mut k: usize = p + 1;
    while k < hi
        invariant
            p + 1 <= k <= hi,
            hi <= chars@.len(),
            ver_chars@ == chars@.subrange(p + 1, k as int),
        decreases hi - k,
    {
        ver_chars.push(chars[k]);
        k = k + 1;
        assert(ver_chars@ =~= chars@.subrange(p + 1, k as int));
    }
    proof {
        let i = (p - lo) as int;
        assert(id_chars@ =~= t.take(i));
        assert(ver_chars@ =~= t.skip(i + 1));
    }
    Some((string_from_chars(&id_chars), Some(string_from_chars(&ver_chars))))
}

/// Inserting before the first later version is inserting at that position.
pub proof fn lemma_insert_version_at(sorted: Seq<Seq<char>>, v: Seq<char>, p: int)
    requires
        0 <= p <= sorted.len(),
        forall|q: int| 0 <= q < p ==> !bytes_lt(key_bytes(v), key_bytes(#[trigger] sorted[q])),
        p < sorted.len() ==> bytes_lt(key_bytes(v), key_bytes(sorted[p])),
    ensures
        insert_version(sorted, v) == sorted.take(p) + seq![v] + sorted.skip(p),
    decreases sorted.len(),
{
    if sorted.len() == 0 {
        assert(sorted.take(p) + seq![v] + sorted.skip(p) =~= seq![v]);
    } else if p == 0 {
        assert(sorted.take(p) + seq![v] + sorted.skip(p) =~= seq![v] + sorted);
    } else {
        assert(!bytes_lt(key_bytes(v), key_bytes(sorted[0])));
        assert forall|q: int| 0 <= q < p - 1 implies !bytes_lt(key_bytes(v), key_bytes(#[trigger] sorted.drop_first()[q])) by {
            assert(sorted.drop_first()[q] == sorted[q + 1]);
        }
        lemma_insert_version_at(sorted.drop_first(), v, p - 1);
        assert(sorted.take(p) + seq![v] + sorted.skip(p) =~= seq![sorted[0]] + (sorted.drop_first().take(p - 1) + seq![v] + sorted.drop_first().skip(p - 1)));
    }
}

/// Sort versions by byte order (stable insertion).
pub fn sort_versions_exec(vs: Vec<String>) -> (r: Vec<String>)
    ensures
        views(r@) == sort_versions(views(vs@)),
{
    broadcast use vstd::utf8::group_utf8_lib;
    let mut out: Vec<String> = Vec::new();
    let mut j: usize = 0;
    while j < vs.len()
        invariant
            j <= vs@.len(),
            views(out@) == sort_versions(views(vs@).take(j as int)),
        decreases vs@.len() - j,
    {
        let v = vs[j].clone();
        let vb = v.as_str().as_bytes();
        let mut p: usize = 0;
        while p < out.len() && !bytes_less(vb, out[p].as_str().as_bytes())
            invariant
                p <= out@.len(),
                vb@ == key_bytes(v@),
                forall|q: int| 0 <= q < p ==> !bytes_lt(key_bytes(v@), key_bytes(#[trigger] views(out@)[q])),
            decreases out@.len() - p,
        {
            p = p + 1;
        }
        proof {
            lemma_insert_version_at(views(out@), v@, p as int);
            assert(views(vs@).take(j + 1).drop_last() =~= views(vs@).take(j as int));
            assert(views(vs@).take(j + 1).last() == v@);
        }
        let ghost before = out@;
        out.insert(p, v);
        proof {
            assert(views(out@) =~= views(before).take(p as int) + seq![v@] + views(before).skip(p as int));
        }
        j = j + 1;
    }
    proof {
        assert(views(vs@).take(j as int) =~= views(vs@));
    }
    out
}

/// An identifier has registered versions exactly when some entry carries it;
/// a single carrying entry gives a single version.
proof fn lemma_versions_of(entries: Seq<ContractEntry>, id: Seq<char>, k: int)
    requires
        0 <= k < entries.len(),
        entries[k].identifier@ == id,
    ensures
        versions_of(entries, id).len() >= 1,
        (forall|j: int| 0 <= j < entries.len() && entries[j].identifier@ == id ==> j == k)
            ==> versions_of(entries, id).len() == 1,
    decreases entries.len(),
{
    let rest = entries.drop_last();
    if k < entries.len() - 1 {
        lemma_versions_of(rest, id, k);
        if forall|j: int| 0 <= j < entries.len() && entries[j].identifier@ == id ==> j == k {
            assert forall|j: int| 0 <= j < rest.len() && rest[j].identifier@ == id implies j == k by {
                assert(rest[j] == entries[j]);
            }
        }
    } else {
        if forall|j: int| 0 <= j < entries.len() && entries[j].identifier@ == id ==> j == k {
            assert forall|j: int| 0 <= j < rest.len() implies rest[j].identifier@ != id by {
                assert(rest[j] == entries[j]);
            }
            lemma_no_versions(rest, id);
        }
    }
}

/// Some entry carrying an identifier is the first to carry it.
proof fn lemma_first_carrier(entries: Seq<ContractEntry>, id: Seq<char>, k: int)
    requires
        0 <= k < entries.len(),
        entries[k].identifier@ == id,
    ensures
        exists|m: int|
            0 <= m < entries.len() && #[trigger] entries[m].identifier@ == id && forall|j: int|
                0 <= j < m ==> entries[j].identifier@ != id,
    decreases k,
{
    if exists|j: int| 0 <= j < k && #[trigger] entries[j].identifier@ == id {
        let j = choose|j: int| 0 <= j < k && #[trigger] entries[j].identifier@ == id;
        lemma_first_carrier(entries, id, j);
    } else {
        assert(forall|j: int| 0 <= j < k ==> entries[j].identifier@ != id);
    }
}

/// A resolved reference names an entry of the registry.
pub proof fn lemma_resolution_index(entries: Seq<ContractEntry>, r: Seq<char>)
    ensures
        resolution(entries, r) matches ResolutionView::Resolved(k) ==> 0 <= k < entries.len(),
{
    if let Some((id, ver)) = parse_reference(r) {
        if versions_of(entries, id).len() > 0 {
            if forall|j: int| 0 <= j < entries.len() ==> entries[j].identifier@ != id {
                lemma_no_versions(entries, id);
            } else {
                let k = choose|k: int| 0 <= k < entries.len() && entries[k].identifier@ == id;
                lemma_first_carrier(entries, id, k);
            }
        }
    }
}

/// Without an entry carrying it, an identifier has no versions.
proof fn lemma_no_versions(entries: Seq<ContractEntry>, id: Seq<char>)
    requires
        forall|j: int| 0 <= j < entries.len() ==> entries[j].identifier@ != id,
    ensures
        versions_of(entries, id).len() == 0,
    decreases entries.len(),
{
    if entries.len() > 0 {
        lemma_no_versions(entries.drop_last(), id);
    }
}

/// Whether `id@version` spells a reference to that identifier and version:
/// both parts nonempty, no `@` in the identifier, and no white space where
/// trimming would remove it.
pub open spec fn spellable(id: Seq<char>, version: Seq<char>) -> bool {
    &&& id.len() > 0
    &&& version.len() > 0
    &&& forall|i: int| 0 <= i < id.len() ==> id[i] != '@'
    &&& !is_white_space(id[0])
    &&& !is_white_space(version[version.len() - 1])
}

/// The reference text `id@version`.
pub open spec fn pinned_reference(id: Seq<char>, version: Seq<char>) -> Seq<char> {
    id + seq!['@'] + version
}

/// A pinned reference parses back into its identifier and version.
proof fn lemma_parse_pinned(id: Seq<char>, version: Seq<char>)
    requires
        spellable(id, version),
    ensures
        parse_reference(pinned_reference(id, version)) == Some((id, Some(version))),
{
    let r = pinned_reference(id, version);
    let n = r.len() as int;
    assert(r[0] == id[0]);
    assert(r[n - 1] == version[version.len() - 1]);
    lemma_trim_clean(r);
    let i = id.len() as int;
    assert(r[i] == '@');
    assert(forall|j: int| 0 <= j < i ==> r[j] == id[j]);
    let c = first_at(r)->0;
    assert(first_at(r) is Some);
    if c < i {
        assert(r[c] == id[c]);
    }
    if c > i {
        assert(r[i] != '@');
    }
    assert(c == i);
    assert(r.take(i) =~= id);
    assert(r.skip(i + 1) =~= version);
}

/// A reference pinned to a registered identifier and version resolves to
/// that entry, for every identifier and version that a reference can spell.
pub proof fn law_pinned_reference_resolves(entries: Seq<ContractEntry>, k: int)
    requires
        unique_entries(entries),
        0 <= k < entries.len(),
        spellable(entries[k].identifier@, entries[k].version@),
    ensures
        resolution(entries, pinned_reference(entries[k].identifier@, entries[k].version@))
            == ResolutionView::Resolved(k),
{
    let id = entries[k].identifier@;
    let v = entries[k].version@;
    lemma_parse_pinned(id, v);
    lemma_versions_of(entries, id, k);
    let found = entry_index(entries, id, v);
    assert(found is Some);
    let j = found->0;
    if j < k {
        assert(!(entries[j].identifier@ == entries[k].identifier@ && entries[j].version@
            == entries[k].version@));
    }
    if j > k {
        assert(!(entries[k].identifier@ == entries[j].identifier@ && entries[k].version@
            == entries[j].version@));
    }
}

/// Whether an identifier spells an unpinned reference to itself: nonempty,
/// no `@`, and no white space where trimming would remove it.
pub open spec fn spellable_identifier(id: Seq<char>) -> bool {
    &&& id.len() > 0
    &&& forall|i: int| 0 <= i < id.len() ==> id[i] != '@'
    &&& !is_white_space(id[0])
    &&& !is_white_space(id[id.len() - 1])
}

/// Text without white space at either end is its own trim.
proof fn lemma_trim_clean(r: Seq<char>)
    requires
        r.len() > 0,
        !is_white_space(r[0]),
        !is_white_space(r[r.len() - 1]),
    ensures
        trim(r) == r,
{
    assert(skip_space(r, 0) == 0);
    assert(skip_space_back(r, 0, r.len() as int) == r.len());
    assert(trim(r) =~= r);
}

/// An identifier registered at a single version resolves without a pin to
/// that entry, for every identifier that a reference can spell.
pub proof fn law_single_version_resolves_unpinned(entries: Seq<ContractEntry>, k: int)
    requires
        0 <= k < entries.len(),
        forall|j: int| 0 <= j < entries.len() && entries[j].identifier@ == entries[k].identifier@ ==> j == k,
        spellable_identifier(entries[k].identifier@),
    ensures
        resolution(entries, entries[k].identifier@) == ResolutionView::Resolved(k),
{
    let id = entries[k].identifier@;
    lemma_versions_of(entries, id, k);
    lemma_trim_clean(id);
    assert(parse_reference(id) == Some((id, None::<Seq<char>>)));
    assert(first_with(entries, id) is Some);
    let f = first_with(entries, id)->0;
    assert(entries[f].identifier@ == id);
}

} // verus!
