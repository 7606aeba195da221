//! Deployment validation: build the typed model, check placement, contracts,
//! runtime policy, safety authority and same-tick cycles, resolve contract
//! references, and pin content identities of valid deployments.
use crate::graph::assemble::{build, build_issues, built_deployment, deployment_view, strs, DeploymentView};
use crate::graph::cycle::{cycle_summary, find_cycle, has_cycle, is_cycle, summarize_cycle};
use crate::graph::identity::{
    any_delay, binding_view, identity_version, declared_identity, declared_identity_of, lemma_identity_shapes, lower_hex, resolved_identity,
    resolved_identity_of, BindingView, ResolvedContract,
};
use crate::graph::issues::{concat3, err, error, has_error, issue_views, lemma_error_concat, GraphIssue, IssueView, Severity};
use crate::graph::model::{Deployment, RawDeployment};
use crate::graph::policy::policy_issues;
use crate::graph::registry::{
    insert_version, lemma_resolution_index, resolution, sha256_tagged, tagged_entries, views, ContractEntry,
    ContractRegistry, LayoutStatus, Resolution, ResolutionView,
};
use crate::record::strmap::{bytes_less, key_bytes};
use crate::text::{push_str, str_equal, utf8_bytes};
use vstd::prelude::*;

verus! {

/// Whether a cycle issue list is right for the deployment: one issue naming
/// some same-tick cycle when there is one, none otherwise.
pub open spec fn cycle_issue_ok(d: DeploymentView, cyc: Seq<IssueView>) -> bool {
    if has_cycle(d) {
        exists|p: Seq<Seq<char>>|
            is_cycle(d, p) && cyc == seq![err("prohibited-cycle"@, "spec.connections"@, cycle_summary(p))]
    } else {
        cyc == Seq::<IssueView>::empty()
    }
}

/// Check topology and policy; the cycle issue comes last.
pub fn check(d: &Deployment, issues: &mut Vec<GraphIssue>)
    ensures
        exists|cyc: Seq<IssueView>|
            cycle_issue_ok(deployment_view(*d), cyc) && issue_views(final(issues)@) == issue_views(old(issues)@)
                + policy_issues(deployment_view(*d)) + cyc,
{
    let ghost dv = deployment_view(*d);
    crate::graph::policy::check_all(d, issues);
    let ghost mid = issue_views(issues@);
    match find_cycle(d) {
        Some(cycle) => {
            let m = summarize_cycle(&cycle);
            error(issues, "prohibited-cycle", "spec.connections".to_owned(), m);
            proof {
                let cyc = seq![err("prohibited-cycle"@, "spec.connections"@, cycle_summary(strs(cycle@)))];
                assert(has_cycle(dv));
                assert(cycle_issue_ok(dv, cyc));
                assert(issue_views(issues@) =~= issue_views(old(issues)@) + policy_issues(dv) + cyc);
            }
        },
        None => {
            proof {
                let cyc = Seq::<IssueView>::empty();
                assert(cycle_issue_ok(dv, cyc));
                assert(issue_views(issues@) =~= issue_views(old(issues)@) + policy_issues(dv) + cyc);
            }
        },
    }
}

/// References provided or required by components, in declaration order.
pub open spec fn component_refs(cs: Seq<crate::graph::assemble::ComponentView>) -> Seq<Seq<char>>
    decreases cs.len(),
{
    if cs.len() == 0 {
        Seq::empty()
    } else {
        component_refs(cs.drop_last()) + cs.last().provides + cs.last().requires
    }
}

/// Every contract reference of a deployment.
pub open spec fn all_refs(d: DeploymentView) -> Seq<Seq<char>> {
    d.connections.map_values(|c: crate::graph::assemble::ConnectionView| c.contract) + component_refs(d.components)
}

/// Add a reference to a sorted list unless present.
pub open spec fn add_unique(sorted: Seq<Seq<char>>, x: Seq<char>) -> Seq<Seq<char>> {
    if sorted.contains(x) {
        sorted
    } else {
        insert_version(sorted, x)
    }
}

/// Distinct references in byte order.
pub open spec fn distinct_refs(refs: Seq<Seq<char>>) -> Seq<Seq<char>>
    decreases refs.len(),
{
    if refs.len() == 0 {
        Seq::empty()
    } else {
        add_unique(distinct_refs(refs.drop_last()), refs.last())
    }
}

/// Versions joined by `", "`.
pub open spec fn join_versions(vs: Seq<Seq<char>>) -> Seq<char>
    decreases vs.len(),
{
    if vs.len() == 0 {
        Seq::empty()
    } else if vs.len() == 1 {
        vs[0]
    } else {
        join_versions(vs.drop_last()) + ", "@ + vs.last()
    }
}

/// The binding or issue of one reference.
pub open spec fn resolve_step(entries: Seq<ContractEntry>, r: Seq<char>) -> (Option<BindingView>, Seq<IssueView>) {
    let path = "contract `"@ + r + "`"@;
    match resolution(entries, r) {
        ResolutionView::Resolved(k) => match entries[k].layout {
            LayoutStatus::Supported(l) => (
                Some(
                    BindingView {
                        codec_id: l.codec_id@,
                        wire_id: l.wire_id@,
                        reference: r,
                        identifier: entries[k].identifier@,
                        version: entries[k].version@,
                        schema_id: entries[k].schema_id@,
                    },
                ),
                Seq::empty(),
            ),
            LayoutStatus::Unsupported(reason) => (None, seq![err("unsupported-contract-layout"@, path, reason@)]),
        },
        ResolutionView::UnknownContract => (
            None,
            seq![err("unknown-contract"@, path, "reference `"@ + r + "` does not resolve to a registered contract"@)],
        ),
        ResolutionView::UnknownVersion => (
            None,
            seq![err("unknown-contract-version"@, path, "reference `"@ + r + "` names a version that is not registered"@)],
        ),
        ResolutionView::Ambiguous(vs) => (
            None,
            seq![
                err(
                    "ambiguous-contract"@,
                    path,
                    "reference `"@ + r + "` matches several versions ("@ + join_versions(vs) + "); pin one with `@`"@,
                ),
            ],
        ),
        ResolutionView::Malformed => (
            None,
            seq![err("malformed-contract-reference"@, path, "reference `"@ + r + "` is not a valid `namespace/name[@version]`"@)],
        ),
    }
}

/// Bindings and issues of references, in order.
pub open spec fn resolve_all(entries: Seq<ContractEntry>, refs: Seq<Seq<char>>) -> (Seq<BindingView>, Seq<IssueView>)
    decreases refs.len(),
{
    if refs.len() == 0 {
        (Seq::empty(), Seq::empty())
    } else {
        let (bs, is) = resolve_all(entries, refs.drop_last());
        let (b, js) = resolve_step(entries, refs.last());
        (
            match b {
                Some(x) => bs.push(x),
                None => bs,
            },
            is + js,
        )
    }
}

/// Add a reference to a sorted distinct list.
fn add_reference(sorted: &mut Vec<String>, x: &String)
    ensures
        views(final(sorted)@) == add_unique(views(old(sorted)@), x@),
{
    broadcast use vstd::utf8::group_utf8_lib;
    let ghost v = views(sorted@);
    let mut k: usize = 0;
    while k < sorted.len()
        invariant
            k <= sorted@.len(),
            v == views(sorted@),
            sorted@ == old(sorted)@,
            forall|q: int| 0 <= q < k ==> v[q] != x@,
        decreases sorted@.len() - k,
    {
        if str_equal(sorted[k].as_str(), x.as_str()) {
            assert(v[k as int] == x@);
            return;
        }
        k = k + 1;
    }
    let xb = x.as_str().as_bytes();
    let mut p: usize = 0;
    while p < sorted.len() && !bytes_less(xb, sorted[p].as_str().as_bytes())
        invariant
            p <= sorted@.len(),
            v == views(sorted@),
            xb@ == key_bytes(x@),
            forall|q: int| 0 <= q < p ==> !crate::record::strmap::bytes_lt(key_bytes(x@), key_bytes(#[trigger] v[q])),
        decreases sorted@.len() - p,
    {
        p = p + 1;
    }
    proof {
        crate::graph::registry::lemma_insert_version_at(v, x@, p as int);
    }
    sorted.insert(p, x.clone());
    assert(views(sorted@) =~= v.take(p as int) + seq![x@] + v.skip(p as int));
}

/// The distinct references of a deployment in byte order.
#[verifier::loop_isolation(false)]
#[verifier::spinoff_prover]
#[verifier::rlimit(50)]
fn collect_references(d: &Deployment) -> (refs: Vec<String>)
    ensures
        views(refs@) == distinct_refs(all_refs(deployment_view(*d))),
{
    let ghost dv = deployment_view(*d);
    let ghost all = all_refs(dv);
    let ghost conn_refs = dv.connections.map_values(|c: crate::graph::assemble::ConnectionView| c.contract);
    let mut refs: Vec<String> = Vec::new();
    let mut i: usize = 0;
    while i < d.connections.len()
        invariant
            i <= d.connections@.len(),
            dv == deployment_view(*d),
            all == all_refs(dv),
            conn_refs == dv.connections.map_values(|c: crate::graph::assemble::ConnectionView| c.contract),
            views(refs@) == distinct_refs(all.take(i as int)),
        decreases d.connections@.len() - i,
    {
        proof {
            assert(all.take(i + 1).drop_last() =~= all.take(i as int));
            assert(all[i as int] == d.connections@[i as int].contract@);
        }
        add_reference(&mut refs, &d.connections[i].contract);
        i = i + 1;
    }
    let ghost n0 = d.connections@.len();
    let mut c: usize = 0;
    while c < d.components.len()
        invariant
            c <= d.components@.len(),
            dv == deployment_view(*d),
            all == all_refs(dv),
            n0 == dv.connections.len(),
            views(refs@) == distinct_refs(all.take((n0 + component_refs(dv.components.take(c as int)).len()) as int)),
        decreases d.components@.len() - c,
    {
        let comp = &d.components[c];
        proof {
            assert(dv.components.take(c + 1).drop_last() =~= dv.components.take(c as int));
        }
        let ghost base: int = (n0 + component_refs(dv.components.take(c as int)).len()) as int;
        let ghost cr = component_refs(dv.components.take(c + 1));
        proof {
            assert(cr == component_refs(dv.components.take(c as int)) + dv.components[c as int].provides + dv.components[c as int].requires);
            lemma_component_refs_prefix(dv.components, c + 1);
            assert(dv.components[c as int].provides == strs(comp.provides@));
            assert(dv.components[c as int].requires == strs(comp.requires@));
        }
        let mut j: usize = 0;
        while j < comp.provides.len()
            invariant
                j <= comp.provides@.len(),
                views(refs@) == distinct_refs(all.take(base + j)),
            decreases comp.provides@.len() - j,
        {
            proof {
                assert(all.take(base + j + 1).drop_last() =~= all.take(base + j));
                lemma_component_ref_at(dv, c as int, j as int, true);
            }
            add_reference(&mut refs, &comp.provides[j]);
            j = j + 1;
        }
        let mut j: usize = 0;
        let ghost base2: int = (base + comp.provides@.len()) as int;
        while j < comp.requires.len()
            invariant
                j <= comp.requires@.len(),
                views(refs@) == distinct_refs(all.take(base2 + j)),
            decreases comp.requires@.len() - j,
        {
            proof {
                assert(all.take(base2 + j + 1).drop_last() =~= all.take(base2 + j));
                lemma_component_ref_at(dv, c as int, j as int, false);
            }
            add_reference(&mut refs, &comp.requires[j]);
            j = j + 1;
        }
        c = c + 1;
    }
    proof {
        assert(all.take((n0 + component_refs(dv.components).len()) as int) =~= all);
        assert(dv.components.take(c as int) =~= dv.components);
    }
    refs
}

/// The references of a prefix of components prefix those of all components.
proof fn lemma_component_refs_prefix(cs: Seq<crate::graph::assemble::ComponentView>, m: int)
    requires
        0 <= m <= cs.len(),
    ensures
        component_refs(cs.take(m)).len() <= component_refs(cs).len(),
        component_refs(cs) == component_refs(cs.take(m)) + component_refs(cs).skip(component_refs(cs.take(m)).len() as int),
    decreases cs.len() - m,
{
    if m == cs.len() {
        assert(cs.take(m) =~= cs);
        assert(component_refs(cs).skip(component_refs(cs).len() as int) =~= Seq::<Seq<char>>::empty());
        assert(component_refs(cs) =~= component_refs(cs) + Seq::<Seq<char>>::empty());
    } else {
        lemma_component_refs_prefix(cs, m + 1);
        assert(cs.take(m + 1).drop_last() =~= cs.take(m));
        let a = component_refs(cs.take(m));
        let b = component_refs(cs.take(m + 1));
        assert(b == a + cs[m].provides + cs[m].requires);
        assert(component_refs(cs) =~= a + component_refs(cs).skip(a.len() as int));
    }
}

/// Where a component's `j`-th provided or required reference sits among all references.
proof fn lemma_component_ref_at(d: DeploymentView, c: int, j: int, provided: bool)
    requires
        0 <= c < d.components.len(),
        0 <= j < (if provided { d.components[c].provides.len() } else { d.components[c].requires.len() }),
    ensures
        ({
            let base = d.connections.len() + component_refs(d.components.take(c)).len();
            let off = if provided { j } else { d.components[c].provides.len() + j };
            all_refs(d)[base + off] == if provided { d.components[c].provides[j] } else { d.components[c].requires[j] }
        }),
{
    let cs = d.components;
    lemma_component_refs_prefix(cs, c + 1);
    assert(cs.take(c + 1).drop_last() =~= cs.take(c));
    let a = component_refs(cs.take(c));
    let b = component_refs(cs.take(c + 1));
    assert(b == a + cs[c].provides + cs[c].requires);
    let off = if provided { j } else { cs[c].provides.len() + j };
    assert(component_refs(cs)[a.len() + off] == b[a.len() + off]);
    let conn = d.connections.map_values(|x: crate::graph::assemble::ConnectionView| x.contract);
    assert(all_refs(d)[d.connections.len() + a.len() + off] == component_refs(cs)[a.len() + off]);
}

/// Resolve one reference, recording its issue.
fn resolve_reference(registry: &ContractRegistry, r: &String, issues: &mut Vec<GraphIssue>) -> (b: Option<ResolvedContract>)
    requires
        registry.wf(),
    ensures
        ({
            let (x, js) = resolve_step(registry.spec_entries(), r@);
            &&& issue_views(final(issues)@) == issue_views(old(issues)@) + js
            &&& match x {
                Some(v) => b matches Some(k) && binding_view(k) == v,
                None => b is None,
            }
        }),
{
    let ghost es = registry.spec_entries();
    let path = concat3("contract `", r.as_str(), "`");
    match registry.resolve(r.as_str()) {
        Resolution::Resolved(entry) => match &entry.layout {
            LayoutStatus::Supported(layout) => {
                let b = ResolvedContract {
                    reference: r.clone(),
                    identifier: entry.identifier.clone(),
                    version: entry.version.clone(),
                    schema_id: entry.schema_id.clone(),
                    codec_id: layout.codec_id.clone(),
                    wire_id: layout.wire_id.clone(),
                };
                assert(issue_views(issues@) =~= issue_views(old(issues)@) + resolve_step(es, r@).1);
                Some(b)
            },
            LayoutStatus::Unsupported(reason) => {
                error(issues, "unsupported-contract-layout", path, reason.clone());
                None
            },
        },
        Resolution::UnknownContract => {
            let m = concat3("reference `", r.as_str(), "` does not resolve to a registered contract");
            error(issues, "unknown-contract", path, m);
            None
        },
        Resolution::UnknownVersion => {
            let m = concat3("reference `", r.as_str(), "` names a version that is not registered");
            error(issues, "unknown-contract-version", path, m);
            None
        },
        Resolution::Ambiguous(versions) => {
            let mut m = concat3("reference `", r.as_str(), "` matches several versions (");
            let ghost head = m@;
            let ghost vs = views(versions@);
            let mut i: usize = 0;
            while i < versions.len()
                invariant
                    i <= versions@.len(),
                    vs == views(versions@),
                    m@ == head + join_versions(vs.take(i as int)),
                decreases versions@.len() - i,
            {
                proof {
                    assert(vs.take(i + 1).drop_last() =~= vs.take(i as int));
                }
                if i > 0 {
                    push_str(&mut m, ", ");
                }
                push_str(&mut m, versions[i].as_str());
                i = i + 1;
                assert(m@ =~= head + join_versions(vs.take(i as int)));
            }
            push_str(&mut m, "); pin one with `@`");
            assert(vs.take(i as int) =~= vs);
            error(issues, "ambiguous-contract", path, m);
            None
        },
        Resolution::Malformed => {
            let m = concat3("reference `", r.as_str(), "` is not a valid `namespace/name[@version]`");
            error(issues, "malformed-contract-reference", path, m);
            None
        },
    }
}

/// Resolve every distinct reference against the registry.
fn resolve_contracts(d: &Deployment, registry: Option<&ContractRegistry>, issues: &mut Vec<GraphIssue>) -> (resolved: Vec<ResolvedContract>)
    requires
        registry matches Some(reg) ==> reg.wf(),
    ensures
        match registry {
            None => resolved@.len() == 0 && issue_views(final(issues)@) == issue_views(old(issues)@),
            Some(reg) => {
                let (bs, js) = resolve_all(reg.spec_entries(), distinct_refs(all_refs(deployment_view(*d))));
                &&& resolved@.map_values(|b: ResolvedContract| binding_view(b)) == bs
                &&& issue_views(final(issues)@) == issue_views(old(issues)@) + js
            },
        },
{
    let registry = match registry {
        None => return Vec::new(),
        Some(r) => r,
    };
    let refs = collect_references(d);
    let ghost rs = views(refs@);
    let ghost es = registry.spec_entries();
    let mut resolved: Vec<ResolvedContract> = Vec::new();
    let mut i: usize = 0;
    while i < refs.len()
        invariant
            i <= refs@.len(),
            registry.wf(),
            es == registry.spec_entries(),
            rs == views(refs@),
            rs == distinct_refs(all_refs(deployment_view(*d))),
            resolved@.map_values(|b: ResolvedContract| binding_view(b)) == resolve_all(es, rs.take(i as int)).0,
            issue_views(issues@) == issue_views(old(issues)@) + resolve_all(es, rs.take(i as int)).1,
        decreases refs@.len() - i,
    {
        proof {
            assert(rs.take(i + 1).drop_last() =~= rs.take(i as int));
            assert(rs.take(i + 1).last() == refs@[i as int]@);
        }
        match resolve_reference(registry, &refs[i], issues) {
            Some(b) => resolved.push(b),
            None => {},
        }
        i = i + 1;
        assert(resolved@.map_values(|b: ResolvedContract| binding_view(b)) =~= resolve_all(es, rs.take(i as int)).0);
        assert(issue_views(issues@) =~= issue_views(old(issues)@) + resolve_all(es, rs.take(i as int)).1);
    }
    assert(rs.take(i as int) =~= rs);
    resolved
}

/// Whether a raw document exceeds the bounded graph counts.
pub open spec fn count_limited(raw: RawDeployment) -> bool {
    match raw.spec {
        None => false,
        Some(s) => {
            ||| s.nodes@.len() > 256
            ||| s.components@.len() > 1024
            ||| s.connections@.len() > 4096
            ||| exists|k: int|
                0 <= k < s.components@.len() && (s.components@[k].provides@.len() > 256
                    || s.components@[k].requires@.len() > 256)
        },
    }
}

/// Total canonical configuration bytes.
pub open spec fn config_total(cs: Seq<crate::graph::assemble::ComponentView>) -> nat
    decreases cs.len(),
{
    if cs.len() == 0 {
        0
    } else {
        config_total(cs.drop_last()) + utf8_bytes(cs.last().configuration).len()
    }
}

/// Largest total canonical configuration, in bytes (1 MiB).
pub const MAX_TOTAL_CONFIGURATION: usize = 1_048_576;

/// The configuration-total issue.
pub open spec fn config_issue(d: DeploymentView) -> Seq<IssueView> {
    if config_total(d.components) > MAX_TOTAL_CONFIGURATION {
        seq![
            err(
                "configuration-total-limit"@,
                "spec.components"@,
                "total canonical configuration exceeds 1 MiB"@,
            ),
        ]
    } else {
        Seq::empty()
    }
}

/// The number of issues of a severity.
pub open spec fn count_severity(issues: Seq<IssueView>, sev: Severity) -> nat
    decreases issues.len(),
{
    if issues.len() == 0 {
        0
    } else {
        count_severity(issues.drop_last(), sev) + if issues.last().severity == sev {
            1nat
        } else {
            0nat
        }
    }
}

/// The abstract content of a report.
pub struct ReportView {
    /// Declared-content identity, for valid deployments.
    pub identity: Option<Seq<char>>,
    /// Resolved identity, for valid deployments checked against a registry.
    pub resolved_identity: Option<Seq<char>>,
    /// Issues in the order found.
    pub issues: Seq<IssueView>,
    /// Resolved bindings, in reference order.
    pub resolved: Seq<BindingView>,
}

/// What validating a raw document against an optional registry reports.
pub open spec fn report_ok(raw: RawDeployment, reg: Option<Seq<ContractEntry>>, r: ReportView) -> bool {
    if count_limited(raw) {
        &&& r.identity is None
        &&& r.resolved_identity is None
        &&& r.issues == seq![err("graph-count-limit"@, "spec"@, "exceeds bounded identity graph counts"@)]
        &&& r.resolved.len() == 0
    } else {
        let d = built_deployment(raw);
        let (bindings, resolve_issues) = match reg {
            None => (Seq::<BindingView>::empty(), Seq::<IssueView>::empty()),
            Some(es) => resolve_all(es, distinct_refs(all_refs(d))),
        };
        &&& exists|cyc: Seq<IssueView>|
            cycle_issue_ok(d, cyc) && r.issues == build_issues(raw) + config_issue(d) + policy_issues(d) + cyc
                + resolve_issues
        &&& r.resolved == bindings
        &&& r.identity == if has_error(r.issues) {
            None
        } else {
            Some(declared_identity(d))
        }
        &&& r.resolved_identity == if !has_error(r.issues) && reg is Some {
            Some(resolved_identity(d, bindings))
        } else {
            None
        }
    }
}

/// The result of validating a deployment.
#[derive(Debug, Clone)]
pub struct GraphReport {
    identity: Option<String>,
    resolved_identity: Option<String>,
    issues: Vec<GraphIssue>,
    resolved: Vec<ResolvedContract>,
}

/// The view of an optional owned string.
pub open spec fn opt_text(o: Option<String>) -> Option<Seq<char>> {
    match o {
        Some(s) => Some(s@),
        None => None,
    }
}

impl View for GraphReport {
    type V = ReportView;

    closed spec fn view(&self) -> ReportView {
        ReportView {
            identity: opt_text(self.identity),
            resolved_identity: opt_text(self.resolved_identity),
            issues: issue_views(self.issues@),
            resolved: self.resolved@.map_values(|b: ResolvedContract| binding_view(b)),
        }
    }
}

impl GraphReport {
    /// Versioned declared-content identity; absent for invalid graphs.
    pub fn identity(&self) -> (r: Option<&str>)
        ensures
            match r {
                Some(s) => self@.identity == Some(s@),
                None => self@.identity is None,
            },
    {
        match &self.identity {
            Some(s) => Some(s.as_str()),
            None => None,
        }
    }

    /// Resolved identity, only after complete registry and topology validation.
    pub fn resolved_identity(&self) -> (r: Option<&str>)
        ensures
            match r {
                Some(s) => self@.resolved_identity == Some(s@),
                None => self@.resolved_identity is None,
            },
    {
        match &self.resolved_identity {
            Some(s) => Some(s.as_str()),
            None => None,
        }
    }

    /// Immutable validation evidence.
    pub fn issues(&self) -> (r: &[GraphIssue])
        ensures
            issue_views(r@) == self@.issues,
    {
        self.issues.as_slice()
    }

    /// Immutable computed bindings.
    pub fn resolved(&self) -> (r: &[ResolvedContract])
        ensures
            r@.map_values(|b: ResolvedContract| binding_view(b)) == self@.resolved,
    {
        self.resolved.as_slice()
    }

    /// Whether the deployment is valid (no error-severity issues).
    pub fn is_valid(&self) -> (b: bool)
        ensures
            b == !has_error(self@.issues),
    {
        no_errors(&self.issues)
    }

    /// The number of error-severity issues.
    pub fn error_count(&self) -> (n: usize)
        ensures
            n == count_severity(self@.issues, Severity::Error),
    {
        count_issues(&self.issues, Severity::Error)
    }

    /// The number of warning-severity issues.
    pub fn warning_count(&self) -> (n: usize)
        ensures
            n == count_severity(self@.issues, Severity::Warning),
    {
        count_issues(&self.issues, Severity::Warning)
    }
}

/// Whether no issue is an error.
fn no_errors(issues: &Vec<GraphIssue>) -> (b: bool)
    ensures
        b == !has_error(issue_views(issues@)),
{
    let ghost v = issue_views(issues@);
    let mut k: usize = 0;
    while k < issues.len()
        invariant
            k <= issues@.len(),
            v == issue_views(issues@),
            forall|q: int| 0 <= q < k ==> v[q].severity != Severity::Error,
        decreases issues@.len() - k,
    {
        if issues[k].severity.is_error() {
            assert(v[k as int].severity == Severity::Error);
            return false;
        }
        k = k + 1;
    }
    true
}

/// The number of issues of a severity.
fn count_issues(issues: &Vec<GraphIssue>, sev: Severity) -> (n: usize)
    ensures
        n == count_severity(issue_views(issues@), sev),
{
    let ghost v = issue_views(issues@);
    let mut n: usize = 0;
    let mut k: usize = 0;
    while k < issues.len()
        invariant
            k <= issues@.len(),
            v == issue_views(issues@),
            n == count_severity(v.take(k as int), sev),
            n <= k,
        decreases issues@.len() - k,
    {
        proof {
            assert(v.take(k + 1).drop_last() =~= v.take(k as int));
        }
        let same = match (issues[k].severity, sev) {
            (Severity::Error, Severity::Error) => true,
            (Severity::Warning, Severity::Warning) => true,
            _ => false,
        };
        if same {
            n = n + 1;
        }
        k = k + 1;
    }
    assert(v.take(k as int) =~= v);
    n
}

/// Whether a raw document exceeds the bounded graph counts.
#[verifier::loop_isolation(false)]
fn exceeds_counts(raw: &RawDeployment) -> (b: bool)
    ensures
        b == count_limited(*raw),
{
    match &raw.spec {
        None => false,
        Some(s) => {
            if s.nodes.len() > 256 || s.components.len() > 1024 || s.connections.len() > 4096 {
                return true;
            }
            let mut k: usize = 0;
            while k < s.components.len()
                invariant
                    k <= s.components@.len(),
                    forall|q: int| 0 <= q < k ==> !(s.components@[q].provides@.len() > 256 || s.components@[q].requires@.len() > 256),
                decreases s.components@.len() - k,
            {
                if s.components[k].provides.len() > 256 || s.components[k].requires.len() > 256 {
                    assert(s.components@[k as int].provides@.len() > 256 || s.components@[k as int].requires@.len() > 256);
                    return true;
                }
                k = k + 1;
            }
            false
        },
    }
}

/// Whether the total canonical configuration exceeds its budget.
fn configuration_over_budget(d: &Deployment) -> (b: bool)
    ensures
        b == (config_total(deployment_view(*d).components) > MAX_TOTAL_CONFIGURATION),
{
    broadcast use vstd::utf8::group_utf8_lib;
    let ghost dv = deployment_view(*d);
    let mut total: usize = 0;
    let mut k: usize = 0;
    while k < d.components.len()
        invariant
            k <= d.components@.len(),
            dv == deployment_view(*d),
            total == config_total(dv.components.take(k as int)),
            total <= MAX_TOTAL_CONFIGURATION,
        decreases d.components@.len() - k,
    {
        proof {
            assert(dv.components.take(k + 1).drop_last() =~= dv.components.take(k as int));
            assert(dv.components[k as int] == crate::graph::assemble::component_view(d.components@[k as int]));
        }
        let text = d.components[k].configuration.canonical_json();
        let n = text.as_bytes().len();
        assert(n == utf8_bytes(text@).len());
        if n > MAX_TOTAL_CONFIGURATION - total {
            proof {
                crate::graph::validate::lemma_config_total_monotone(dv.components, k as int + 1);
            }
            return true;
        }
        total = total + n;
        k = k + 1;
    }
    assert(dv.components.take(k as int) =~= dv.components);
    false
}

/// The configuration total never shrinks as components are added.
proof fn lemma_config_total_monotone(cs: Seq<crate::graph::assemble::ComponentView>, m: int)
    requires
        0 <= m <= cs.len(),
    ensures
        config_total(cs.take(m)) <= config_total(cs),
    decreases cs.len() - m,
{
    if m < cs.len() {
        lemma_config_total_monotone(cs, m + 1);
        assert(cs.take(m + 1).drop_last() =~= cs.take(m));
    } else {
        assert(cs.take(m) =~= cs);
    }
}

/// Validate a raw document, optionally resolving references against a registry.
fn validate_inner(raw: &RawDeployment, registry: Option<&ContractRegistry>) -> (report: GraphReport)
    requires
        registry matches Some(reg) ==> reg.wf(),
    ensures
        report_ok(
            *raw,
            match registry {
                Some(reg) => Some(reg.spec_entries()),
                None => None,
            },
            report@,
        ),
{
    let mut issues: Vec<GraphIssue> = Vec::new();
    if exceeds_counts(raw) {
        error(&mut issues, "graph-count-limit", "spec".to_owned(), "exceeds bounded identity graph counts".to_owned());
        let report = GraphReport { identity: None, resolved_identity: None, issues, resolved: Vec::new() };
        assert(report@.issues =~= seq![err("graph-count-limit"@, "spec"@, "exceeds bounded identity graph counts"@)]);
        return report;
    }
    let ghost empty = issue_views(issues@);
    let deployment = build(raw, &mut issues);
    let ghost dv = deployment_view(deployment);
    let ghost bi = build_issues(*raw);
    let ghost s1 = issue_views(issues@);
    proof {
        assert(empty =~= Seq::<IssueView>::empty());
        assert(empty + bi =~= bi);
    }
    if configuration_over_budget(&deployment) {
        error(&mut issues, "configuration-total-limit", "spec.components".to_owned(), "total canonical configuration exceeds 1 MiB".to_owned());
    }
    let ghost s2 = issue_views(issues@);
    assert(s2 =~= s1 + config_issue(dv));
    check(&deployment, &mut issues);
    let ghost s3 = issue_views(issues@);
    let resolved = resolve_contracts(&deployment, registry, &mut issues);
    let ghost s4 = issue_views(issues@);
    let valid = no_errors(&issues);
    let identity = if valid {
        Some(declared_identity_of(&deployment))
    } else {
        None
    };
    let pinned = if valid && registry.is_some() {
        Some(resolved_identity_of(&deployment, &resolved))
    } else {
        None
    };
    proof {
        let reg = match registry {
            Some(r) => Some(r.spec_entries()),
            None => None::<Seq<ContractEntry>>,
        };
        let ri = match reg {
            None => Seq::<IssueView>::empty(),
            Some(es) => resolve_all(es, distinct_refs(all_refs(dv))).1,
        };
        if registry is None {
            assert(s4 =~= s3 + ri);
        }
        assert(s4 == s3 + ri);
        let cyc = choose|cyc: Seq<IssueView>| cycle_issue_ok(dv, cyc) && s3 == s2 + policy_issues(dv) + cyc;
        assert(s4 == bi + config_issue(dv) + policy_issues(dv) + cyc + ri);
    }
    let report = GraphReport { identity, resolved_identity: pinned, issues, resolved };
    proof {
        let reg = match registry {
            Some(r) => Some(r.spec_entries()),
            None => None::<Seq<ContractEntry>>,
        };
        let (bindings, ri) = match reg {
            None => (Seq::<BindingView>::empty(), Seq::<IssueView>::empty()),
            Some(es) => resolve_all(es, distinct_refs(all_refs(dv))),
        };
        assert(dv == built_deployment(*raw));
        assert(report@.issues == s4);
        let cyc = choose|cyc: Seq<IssueView>| cycle_issue_ok(dv, cyc) && s3 == s2 + policy_issues(dv) + cyc;
        assert(cycle_issue_ok(dv, cyc) && report@.issues == build_issues(*raw) + config_issue(dv) + policy_issues(dv) + cyc + ri);
        if registry is None {
            assert(report@.resolved =~= bindings);
        }
        assert(report@.resolved == bindings);
        assert(report@.identity == if has_error(report@.issues) { None } else { Some(declared_identity(dv)) });
        assert(report@.resolved_identity == if !has_error(report@.issues) && reg is Some {
            Some(resolved_identity(dv, bindings))
        } else {
            None
        });
    }
    report
}

/// Validate a parsed raw deployment, checking topology and policy only;
/// references are checked for consistency but not resolved.
pub fn validate(raw: &RawDeployment) -> (report: GraphReport)
    ensures
        report_ok(*raw, None, report@),
{
    validate_inner(raw, None)
}

/// Validate a parsed raw deployment and resolve every contract reference
/// against `registry`, pinning the schema identity each resolves to.
pub fn validate_with_registry(raw: &RawDeployment, registry: &ContractRegistry) -> (report: GraphReport)
    requires
        registry.wf(),
    ensures
        report_ok(*raw, Some(registry.spec_entries()), report@),
{
    validate_inner(raw, Some(registry))
}

/// A valid report comes from a deployment without policy errors and without
/// same-tick cycles, and carries its declared identity (and its resolved
/// identity when a registry was used); an invalid report carries neither.
pub proof fn report_validity(raw: RawDeployment, reg: Option<Seq<ContractEntry>>, r: ReportView)
    requires
        report_ok(raw, reg, r),
    ensures
        count_limited(raw) ==> has_error(r.issues) && r.identity is None && r.resolved_identity is None,
        has_error(r.issues) ==> r.identity is None && r.resolved_identity is None,
        !has_error(r.issues) ==> {
            let d = built_deployment(raw);
            &&& !has_error(policy_issues(d))
            &&& !has_cycle(d)
            &&& r.identity == Some(declared_identity(d))
            &&& (reg is Some ==> r.resolved_identity is Some)
        },
{
    if count_limited(raw) {
        assert(r.issues[0].severity == Severity::Error);
    } else if !has_error(r.issues) {
        let d = built_deployment(raw);
        let ri = match reg {
            None => Seq::<IssueView>::empty(),
            Some(es) => resolve_all(es, distinct_refs(all_refs(d))).1,
        };
        let cyc = choose|cyc: Seq<IssueView>|
            cycle_issue_ok(d, cyc) && r.issues == build_issues(raw) + config_issue(d) + policy_issues(d) + cyc + ri;
        lemma_error_concat(build_issues(raw) + config_issue(d) + policy_issues(d) + cyc, ri);
        lemma_error_concat(build_issues(raw) + config_issue(d) + policy_issues(d), cyc);
        lemma_error_concat(build_issues(raw) + config_issue(d), policy_issues(d));
        if has_cycle(d) {
            let p = choose|p: Seq<Seq<char>>| is_cycle(d, p) && cyc == seq![err("prohibited-cycle"@, "spec.connections"@, cycle_summary(p))];
            assert(cyc[0].severity == Severity::Error);
        }
    }
}

/// A list of issues holds an error exactly when its error count is positive,
/// and its error and warning counts add up to its length.
pub proof fn severity_counts(issues: Seq<IssueView>)
    ensures
        has_error(issues) <==> count_severity(issues, Severity::Error) > 0,
        count_severity(issues, Severity::Error) + count_severity(issues, Severity::Warning) == issues.len(),
    decreases issues.len(),
{
    if issues.len() > 0 {
        let front = issues.drop_last();
        severity_counts(front);
        if has_error(front) {
            let k = choose|k: int| 0 <= k < front.len() && front[k].severity == Severity::Error;
            assert(issues[k] == front[k]);
        }
        if has_error(issues) {
            let k = choose|k: int| 0 <= k < issues.len() && issues[k].severity == Severity::Error;
            if k < front.len() {
                assert(front[k] == issues[k]);
            }
        }
        if issues.last().severity == Severity::Error {
            assert(issues[issues.len() - 1].severity == Severity::Error);
        }
    }
}

/// Whether texts are strictly increasing in byte order.
pub open spec fn strictly_increasing(s: Seq<Seq<char>>) -> bool {
    forall|i: int, j: int|
        0 <= i < j < s.len() ==> crate::record::strmap::bytes_lt(#[trigger] key_bytes(s[i]), #[trigger] key_bytes(s[j]))
}

/// Inserting a text that a strictly increasing list lacks keeps it strictly
/// increasing, and adds just that text.
proof fn lemma_insert_increasing(sorted: Seq<Seq<char>>, x: Seq<char>)
    requires
        strictly_increasing(sorted),
        !sorted.contains(x),
    ensures
        strictly_increasing(insert_version(sorted, x)),
        insert_version(sorted, x).len() == sorted.len() + 1,
        forall|i: int|
            0 <= i < insert_version(sorted, x).len() ==> #[trigger] insert_version(sorted, x)[i] == x
                || sorted.contains(insert_version(sorted, x)[i]),
    decreases sorted.len(),
{
    let r = insert_version(sorted, x);
    if sorted.len() == 0 {
    } else if crate::record::strmap::bytes_lt(key_bytes(x), key_bytes(sorted[0])) {
        assert forall|i: int, j: int| 0 <= i < j < r.len() implies crate::record::strmap::bytes_lt(
            #[trigger] key_bytes(r[i]),
            #[trigger] key_bytes(r[j]),
        ) by {
            if i == 0 {
                if j > 1 {
                    crate::record::strmap::lemma_bytes_lt_transitive(
                        key_bytes(x),
                        key_bytes(sorted[0]),
                        key_bytes(sorted[j - 1]),
                    );
                }
            } else {
                assert(r[i] == sorted[i - 1] && r[j] == sorted[j - 1]);
            }
        }
        assert forall|i: int| 0 <= i < r.len() implies #[trigger] r[i] == x || sorted.contains(r[i]) by {
            if i > 0 {
                assert(r[i] == sorted[i - 1]);
            }
        }
    } else {
        let rest = sorted.drop_first();
        assert forall|i: int, j: int| 0 <= i < j < rest.len() implies crate::record::strmap::bytes_lt(
            #[trigger] key_bytes(rest[i]),
            #[trigger] key_bytes(rest[j]),
        ) by {
            assert(rest[i] == sorted[i + 1] && rest[j] == sorted[j + 1]);
        }
        if rest.contains(x) {
            let k = choose|k: int| 0 <= k < rest.len() && rest[k] == x;
            assert(sorted[k + 1] == x);
        }
        lemma_insert_increasing(rest, x);
        let t = insert_version(rest, x);
        assert(r == seq![sorted[0]] + t);
        assert(x != sorted[0]);
        vstd::utf8::encode_utf8_decode_utf8(x);
        vstd::utf8::encode_utf8_decode_utf8(sorted[0]);
        crate::record::strmap::lemma_bytes_lt_total(key_bytes(x), key_bytes(sorted[0]));
        assert forall|i: int| 0 <= i < r.len() implies #[trigger] r[i] == x || sorted.contains(r[i]) by {
            if i > 0 {
                assert(r[i] == t[i - 1]);
                if t[i - 1] != x {
                    let k = choose|k: int| 0 <= k < rest.len() && rest[k] == t[i - 1];
                    assert(sorted[k + 1] == rest[k]);
                }
            } else {
                assert(sorted[0] == r[0]);
            }
        }
        assert forall|i: int, j: int| 0 <= i < j < r.len() implies crate::record::strmap::bytes_lt(
            #[trigger] key_bytes(r[i]),
            #[trigger] key_bytes(r[j]),
        ) by {
            assert(r[j] == t[j - 1]);
            if i > 0 {
                assert(r[i] == t[i - 1]);
            } else {
                if t[j - 1] != x {
                    let k = choose|k: int| 0 <= k < rest.len() && rest[k] == t[j - 1];
                    assert(sorted[k + 1] == rest[k]);
                }
            }
        }
    }
}

/// The distinct references of a list are strictly increasing in byte order.
pub proof fn lemma_distinct_increasing(refs: Seq<Seq<char>>)
    ensures
        strictly_increasing(distinct_refs(refs)),
    decreases refs.len(),
{
    if refs.len() > 0 {
        lemma_distinct_increasing(refs.drop_last());
        let d = distinct_refs(refs.drop_last());
        if !d.contains(refs.last()) {
            lemma_insert_increasing(d, refs.last());
        }
    }
}

/// Resolving strictly increasing references gives bindings whose references
/// are strictly increasing and drawn from them.
proof fn lemma_bindings_increasing(es: Seq<ContractEntry>, refs: Seq<Seq<char>>)
    requires
        strictly_increasing(refs),
    ensures
        strictly_increasing(resolve_all(es, refs).0.map_values(|b: BindingView| b.reference)),
        forall|i: int|
            0 <= i < resolve_all(es, refs).0.len() ==> refs.contains(#[trigger] resolve_all(es, refs).0[i].reference),
    decreases refs.len(),
{
    if refs.len() > 0 {
        let front = refs.drop_last();
        assert forall|i: int, j: int| 0 <= i < j < front.len() implies crate::record::strmap::bytes_lt(
            #[trigger] key_bytes(front[i]),
            #[trigger] key_bytes(front[j]),
        ) by {
            assert(front[i] == refs[i] && front[j] == refs[j]);
        }
        lemma_bindings_increasing(es, front);
        let bs = resolve_all(es, front).0;
        let all = resolve_all(es, refs).0;
        let (b, js) = resolve_step(es, refs.last());
        assert forall|i: int| 0 <= i < bs.len() implies crate::record::strmap::bytes_lt(
            key_bytes(#[trigger] bs[i].reference),
            key_bytes(refs.last()),
        ) by {
            let k = choose|k: int| 0 <= k < front.len() && front[k] == bs[i].reference;
            assert(refs[k] == front[k]);
            assert(refs[refs.len() - 1] == refs.last());
        }
        assert forall|i: int| 0 <= i < all.len() implies refs.contains(#[trigger] all[i].reference) by {
            if i < bs.len() {
                assert(all[i] == bs[i]);
                let k = choose|k: int| 0 <= k < front.len() && front[k] == bs[i].reference;
                assert(refs[k] == front[k]);
            } else {
                assert(all[i].reference == refs.last());
                assert(refs[refs.len() - 1] == refs.last());
            }
        }
        let m = all.map_values(|x: BindingView| x.reference);
        assert forall|i: int, j: int| 0 <= i < j < m.len() implies crate::record::strmap::bytes_lt(
            #[trigger] key_bytes(m[i]),
            #[trigger] key_bytes(m[j]),
        ) by {
            assert(m[i] == all[i].reference && m[j] == all[j].reference);
            assert(all[i] == bs[i]);
            if j < bs.len() {
                assert(all[j] == bs[j]);
                let mb = bs.map_values(|x: BindingView| x.reference);
                assert(mb[i] == bs[i].reference && mb[j] == bs[j].reference);
            }
        }
    }
}

/// A report made without a registry resolves nothing; one made against a
/// registry lists its bindings in strictly increasing byte order of their
/// references, each reference once.
pub proof fn resolved_in_reference_order(raw: RawDeployment, reg: Option<Seq<ContractEntry>>, r: ReportView)
    requires
        report_ok(raw, reg, r),
    ensures
        reg is None ==> r.resolved.len() == 0,
        strictly_increasing(r.resolved.map_values(|b: BindingView| b.reference)),
{
    if !count_limited(raw) {
        if let Some(es) = reg {
            let refs = distinct_refs(all_refs(built_deployment(raw)));
            lemma_distinct_increasing(all_refs(built_deployment(raw)));
            lemma_bindings_increasing(es, refs);
        }
    }
}

/// A declared identity reads `neuradix.deployment.declared.v3:sha256:`, or
/// `...v2:sha256:` where no connection declares a delay, followed by the
/// lowercase hexadecimal digits of a digest; a resolved identity reads the
/// same with `resolved` in place of `declared`.
/// The version labels of a deployment's identities, spelled out.
proof fn lemma_version_labels(d: crate::graph::assemble::DeploymentView)
    ensures
        identity_version(d, "declared"@) == "neuradix.deployment.declared.v"@ + (if any_delay(d) {
            "3"@
        } else {
            "2"@
        }),
        identity_version(d, "resolved"@) == "neuradix.deployment.resolved.v"@ + (if any_delay(d) {
            "3"@
        } else {
            "2"@
        }),
{
    reveal_strlit("neuradix.deployment.declared.v");
    reveal_strlit("neuradix.deployment.resolved.v");
    reveal_strlit("neuradix.deployment.");
    reveal_strlit("declared");
    reveal_strlit("resolved");
    reveal_strlit(".v");
    let digit = if any_delay(d) { "3"@ } else { "2"@ };
    assert("neuradix.deployment."@ + "declared"@ + ".v"@ + digit =~= "neuradix.deployment.declared.v"@ + digit);
    assert("neuradix.deployment."@ + "resolved"@ + ".v"@ + digit =~= "neuradix.deployment.resolved.v"@ + digit);
}

#[verifier::spinoff_prover]
#[verifier::rlimit(40)]
pub proof fn identity_format(raw: RawDeployment, reg: Option<Seq<ContractEntry>>, r: ReportView)
    requires
        report_ok(raw, reg, r),
    ensures
        r.identity matches Some(s) ==> exists|h: Seq<char>|
            #[trigger] lower_hex(h) && s == "neuradix.deployment.declared.v"@ + (if any_delay(built_deployment(raw)) {
                "3"@
            } else {
                "2"@
            }) + ":sha256:"@ + h,
        r.resolved_identity matches Some(s) ==> exists|h: Seq<char>|
            #[trigger] lower_hex(h) && s == "neuradix.deployment.resolved.v"@ + (if any_delay(built_deployment(raw)) {
                "3"@
            } else {
                "2"@
            }) + ":sha256:"@ + h,
{
    if !count_limited(raw) {
        let d = built_deployment(raw);
        lemma_version_labels(d);
        let bindings = match reg {
            Some(es) => resolve_all(es, distinct_refs(all_refs(d))).0,
            None => Seq::empty(),
        };
        lemma_identity_shapes(d, bindings);
    }
}

/// Bindings resolved against tagged entries carry tagged schema identities.
proof fn lemma_tagged_bindings(es: Seq<ContractEntry>, refs: Seq<Seq<char>>)
    requires
        tagged_entries(es),
    ensures
        forall|i: int| 0 <= i < resolve_all(es, refs).0.len() ==> sha256_tagged(#[trigger] resolve_all(es, refs).0[i].schema_id),
    decreases refs.len(),
{
    if refs.len() > 0 {
        lemma_tagged_bindings(es, refs.drop_last());
        lemma_resolution_index(es, refs.last());
        let bs = resolve_all(es, refs.drop_last()).0;
        let b = resolve_step(es, refs.last()).0;
        if let ResolutionView::Resolved(k) = resolution(es, refs.last()) {
            assert(sha256_tagged(es[k].schema_id@));
        }
        assert forall|i: int| 0 <= i < resolve_all(es, refs).0.len() implies sha256_tagged(
            #[trigger] resolve_all(es, refs).0[i].schema_id,
        ) by {
            if i < bs.len() {
                assert(resolve_all(es, refs).0[i] == bs[i]);
            } else {
                assert(b is Some && resolve_all(es, refs).0[i] == b->0);
            }
        }
    }
}

/// Every binding of a report checked against a registry whose schema
/// identities carry the `sha256:` tag carries it too.
pub proof fn resolved_schema_ids(raw: RawDeployment, es: Seq<ContractEntry>, r: ReportView)
    requires
        report_ok(raw, Some(es), r),
        tagged_entries(es),
    ensures
        forall|i: int| 0 <= i < r.resolved.len() ==> sha256_tagged(#[trigger] r.resolved[i].schema_id),
{
    if !count_limited(raw) {
        lemma_tagged_bindings(es, distinct_refs(all_refs(built_deployment(raw))));
    }
}

/// References whose resolution issues nothing resolved to a supported layout.
#[verifier::spinoff_prover]
#[verifier::rlimit(30)]
proof fn lemma_resolved_all(es: Seq<ContractEntry>, refs: Seq<Seq<char>>, i: int)
    requires
        0 <= i < refs.len(),
        !has_error(resolve_all(es, refs).1),
    ensures
        resolution(es, refs[i]) matches ResolutionView::Resolved(k) && es[k].layout is Supported,
    decreases refs.len(),
{
    let (bs, is) = resolve_all(es, refs.drop_last());
    let (b, js) = resolve_step(es, refs.last());
    lemma_error_concat(is, js);
    if i < refs.len() - 1 {
        lemma_resolved_all(es, refs.drop_last(), i);
    } else {
        match resolution(es, refs.last()) {
            ResolutionView::Resolved(k) => {
                if !(es[k].layout is Supported) {
                    assert(js[0].severity == Severity::Error);
                }
            },
            _ => {
                assert(js[0].severity == Severity::Error);
            },
        }
    }
}

/// In a valid report checked against a registry, every contract reference
/// of the deployment resolves to a registered contract with a supported layout.
pub proof fn valid_references_resolve(raw: RawDeployment, es: Seq<ContractEntry>, r: ReportView, i: int)
    requires
        report_ok(raw, Some(es), r),
        !has_error(r.issues),
        0 <= i < distinct_refs(all_refs(built_deployment(raw))).len(),
    ensures
        ({
            let x = distinct_refs(all_refs(built_deployment(raw)))[i];
            resolution(es, x) matches ResolutionView::Resolved(k) && es[k].layout is Supported
        }),
{
    report_validity(raw, Some(es), r);
    let d = built_deployment(raw);
    let refs = distinct_refs(all_refs(d));
    let ri = resolve_all(es, refs).1;
    let cyc = choose|cyc: Seq<IssueView>|
        cycle_issue_ok(d, cyc) && r.issues == build_issues(raw) + config_issue(d) + policy_issues(d) + cyc + ri;
    lemma_error_concat(build_issues(raw) + config_issue(d) + policy_issues(d) + cyc, ri);
    lemma_resolved_all(es, refs, i);
}

} // verus!
