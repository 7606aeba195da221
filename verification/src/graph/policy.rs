//! Graph-level placement, contract, runtime and safety-authority checks.
use crate::graph::assemble::{ComponentView, ConnectionView, DeploymentView, component_view, connection_view, deployment_view, strs};
use crate::graph::delay::MAX_TOTAL_TICKS;
use crate::graph::issues::{concat3, concat5, err, error, has_error, issue_views, lemma_error_concat, GraphIssue, IssueView};
use crate::graph::model::{class_deterministic, class_name, Component, Connection, Deployment, Role, Runtime};
use crate::text::{push_str, str_equal};
use vstd::prelude::*;

verus! {

/// Whether a node with this name is declared.
pub open spec fn node_declared(d: DeploymentView, name: Seq<char>) -> bool {
    exists|k: int| 0 <= k < d.nodes.len() && d.nodes[k].name == name
}

/// The last component with this name (later declarations win).
pub open spec fn component_named(cs: Seq<ComponentView>, name: Seq<char>) -> Option<int>
    decreases cs.len(),
{
    if cs.len() == 0 {
        None
    } else if cs.last().name == name {
        Some(cs.len() - 1)
    } else {
        component_named(cs.drop_last(), name)
    }
}

/// The path of a component issue.
pub open spec fn component_path(name: Seq<char>) -> Seq<char> {
    "component `"@ + name + "`"@
}

/// Placement and Python-runtime issues of one component.
pub open spec fn component_policy(d: DeploymentView, c: ComponentView) -> Seq<IssueView> {
    let placement = if c.node.len() != 0 && !node_declared(d, c.node) {
        seq![err("unknown-node"@, component_path(c.name), "placed on unknown node `"@ + c.node + "`"@)]
    } else {
        Seq::empty()
    };
    let python = if c.runtime == Runtime::Python && class_deterministic(c.class) {
        seq![
            err(
                "python-in-deterministic-path"@,
                component_path(c.name),
                "Python components must not run in the `"@ + class_name(c.class)
                    + "` (deterministic) execution class"@,
            ),
        ]
    } else {
        Seq::empty()
    };
    placement + python
}

/// Component issues, in component order.
pub open spec fn components_policy(d: DeploymentView, cs: Seq<ComponentView>) -> Seq<IssueView>
    decreases cs.len(),
{
    if cs.len() == 0 {
        Seq::empty()
    } else {
        components_policy(d, cs.drop_last()) + component_policy(d, cs.last())
    }
}

/// The path of a connection issue.
pub open spec fn connection_path(c: ConnectionView) -> Seq<char> {
    "connection "@ + c.from + "->"@ + c.to
}

/// Endpoint, contract, runtime and authority issues of one connection.
pub open spec fn connection_policy(d: DeploymentView, c: ConnectionView) -> Seq<IssueView> {
    let p = connection_path(c);
    let f = component_named(d.components, c.from);
    let t = component_named(d.components, c.to);
    let unknown_from = if f is None {
        seq![err("unknown-endpoint"@, p, "unknown producer component `"@ + c.from + "`"@)]
    } else {
        Seq::empty()
    };
    let unknown_to = if t is None {
        seq![err("unknown-endpoint"@, p, "unknown consumer component `"@ + c.to + "`"@)]
    } else {
        Seq::empty()
    };
    match (f, t) {
        (Some(fi), Some(ti)) => {
            let from = d.components[fi];
            let to = d.components[ti];
            let provider = if !from.provides.contains(c.contract) {
                seq![err("provider-mismatch"@, p, "`"@ + c.from + "` does not provide `"@ + c.contract + "`"@)]
            } else {
                Seq::empty()
            };
            let consumer = if !to.requires.contains(c.contract) {
                seq![err("consumer-mismatch"@, p, "`"@ + c.to + "` does not require `"@ + c.contract + "`"@)]
            } else {
                Seq::empty()
            };
            let feeds = if from.runtime == Runtime::Python && class_deterministic(to.class) {
                seq![
                    err(
                        "python-feeds-deterministic-path"@,
                        p,
                        "Python component `"@ + c.from + "` feeds deterministic component `"@ + c.to + "`"@,
                    ),
                ]
            } else {
                Seq::empty()
            };
            let bypass = if to.role == Role::Actuator && from.role != Role::Safety {
                seq![
                    err(
                        "actuator-authority-bypass"@,
                        p,
                        "actuator `"@ + c.to + "` is commanded by `"@ + c.from
                            + "` without passing through Safety (§16.1)"@,
                    ),
                ]
            } else {
                Seq::empty()
            };
            unknown_from + unknown_to + provider + consumer + feeds + bypass
        },
        _ => unknown_from + unknown_to,
    }
}

/// Connection issues, in connection order.
pub open spec fn connections_policy(d: DeploymentView, cs: Seq<ConnectionView>) -> Seq<IssueView>
    decreases cs.len(),
{
    if cs.len() == 0 {
        Seq::empty()
    } else {
        connections_policy(d, cs.drop_last()) + connection_policy(d, cs.last())
    }
}

/// Whether some connection delivers `contract` to the component `name`.
pub open spec fn requirement_met(d: DeploymentView, name: Seq<char>, contract: Seq<char>) -> bool {
    exists|k: int| 0 <= k < d.connections.len() && d.connections[k].to == name && d.connections[k].contract == contract
}

/// Unresolved requirements of one component, in requirement order.
pub open spec fn requirement_issues(d: DeploymentView, name: Seq<char>, reqs: Seq<Seq<char>>) -> Seq<IssueView>
    decreases reqs.len(),
{
    if reqs.len() == 0 {
        Seq::empty()
    } else {
        requirement_issues(d, name, reqs.drop_last()) + if requirement_met(d, name, reqs.last()) {
            Seq::empty()
        } else {
            seq![
                err(
                    "unresolved-requirement"@,
                    component_path(name),
                    "requires `"@ + reqs.last() + "` but no connection provides it"@,
                ),
            ]
        }
    }
}

/// Unresolved requirements of every component.
pub open spec fn requirements_policy(d: DeploymentView, cs: Seq<ComponentView>) -> Seq<IssueView>
    decreases cs.len(),
{
    if cs.len() == 0 {
        Seq::empty()
    } else {
        requirements_policy(d, cs.drop_last()) + requirement_issues(d, cs.last().name, cs.last().requires)
    }
}

/// Whether some component has the role.
pub open spec fn has_role(d: DeploymentView, role: Role) -> bool {
    exists|k: int| 0 <= k < d.components.len() && d.components[k].role == role
}

/// The missing-safety issue.
pub open spec fn safety_policy(d: DeploymentView) -> Seq<IssueView> {
    if has_role(d, Role::Actuator) && !has_role(d, Role::Safety) {
        seq![
            err(
                "missing-safety"@,
                "spec.components"@,
                "deployment has actuators but no Safety authority component"@,
            ),
        ]
    } else {
        Seq::empty()
    }
}

/// Sum of declared delay ticks.
pub open spec fn total_ticks(cs: Seq<ConnectionView>) -> nat
    decreases cs.len(),
{
    if cs.len() == 0 {
        0
    } else {
        total_ticks(cs.drop_last()) + cs.last().delay
    }
}

/// The delay-history issue.
pub open spec fn delay_policy(d: DeploymentView) -> Seq<IssueView> {
    if total_ticks(d.connections) > MAX_TOTAL_TICKS {
        seq![
            err(
                "delay-history-limit"@,
                "spec.connections"@,
                "sum of delay ticks exceeds 65536 history slots"@,
            ),
        ]
    } else {
        Seq::empty()
    }
}

/// Every policy issue except the cycle check, in the order they are found.
pub open spec fn policy_issues(d: DeploymentView) -> Seq<IssueView> {
    components_policy(d, d.components) + connections_policy(d, d.connections) + requirements_policy(
        d,
        d.components,
    ) + safety_policy(d) + delay_policy(d)
}

/// The last component with this name.
pub fn find_component(cs: &Vec<Component>, name: &String) -> (r: Option<usize>)
    ensures
        ({
            let v = cs@.map_values(|c: Component| component_view(c));
            match r {
                Some(k) => component_named(v, name@) == Some(k as int) && k < cs@.len(),
                None => component_named(v, name@) is None,
            }
        }),
{
    let ghost v = cs@.map_values(|c: Component| component_view(c));
    let mut found: Option<usize> = None;
    let mut k: usize = 0;
    while k < cs.len()
        invariant
            k <= cs@.len(),
            v == cs@.map_values(|c: Component| component_view(c)),
            match found {
                Some(q) => component_named(v.take(k as int), name@) == Some(q as int) && q < k,
                None => component_named(v.take(k as int), name@) is None,
            },
        decreases cs@.len() - k,
    {
        proof {
            assert(v.take(k + 1).drop_last() =~= v.take(k as int));
            assert(v.take(k + 1).last() == component_view(cs@[k as int]));
        }
        if str_equal(cs[k].name.as_str(), name.as_str()) {
            found = Some(k);
        }
        k = k + 1;
    }
    proof {
        assert(v.take(k as int) =~= v);
    }
    found
}

/// Whether a string occurs in a list.
pub fn contains_str(v: &Vec<String>, s: &String) -> (b: bool)
    ensures
        b == strs(v@).contains(s@),
{
    let mut k: usize = 0;
    while k < v.len()
        invariant
            k <= v@.len(),
            forall|q: int| 0 <= q < k ==> v@[q]@ != s@,
        decreases v@.len() - k,
    {
        if str_equal(v[k].as_str(), s.as_str()) {
            assert(strs(v@)[k as int] == s@);
            return true;
        }
        k = k + 1;
    }
    proof {
        if strs(v@).contains(s@) {
            let q = choose|q: int| 0 <= q < strs(v@).len() && strs(v@)[q] == s@;
            assert(v@[q]@ == s@);
        }
    }
    false
}

/// Whether a node with this name is declared.
fn node_exists(d: &Deployment, name: &String) -> (b: bool)
    ensures
        b == node_declared(deployment_view(*d), name@),
{
    let ghost dv = deployment_view(*d);
    let mut k: usize = 0;
    while k < d.nodes.len()
        invariant
            k <= d.nodes@.len(),
            dv == deployment_view(*d),
            forall|q: int| 0 <= q < k ==> dv.nodes[q].name != name@,
        decreases d.nodes@.len() - k,
    {
        if str_equal(d.nodes[k].name.as_str(), name.as_str()) {
            assert(dv.nodes[k as int].name == name@);
            return true;
        }
        k = k + 1;
    }
    false
}

/// Check one component's placement and runtime.
fn check_component(d: &Deployment, c: &Component, issues: &mut Vec<GraphIssue>)
    ensures
        issue_views(final(issues)@) == issue_views(old(issues)@) + component_policy(deployment_view(*d), component_view(*c)),
{
    let ghost dv = deployment_view(*d);
    let ghost o = issue_views(old(issues)@);
    let path = concat3("component `", c.name.as_str(), "`");
    if !c.node.as_str().is_empty() && !node_exists(d, &c.node) {
        let m = concat3("placed on unknown node `", c.node.as_str(), "`");
        error(issues, "unknown-node", path.clone(), m);
    }
    let ghost s1 = issue_views(issues@);
    if c.runtime.is_python() && c.execution_class.is_deterministic_path() {
        let m = concat3("Python components must not run in the `", c.execution_class.as_str(), "` (deterministic) execution class");
        error(issues, "python-in-deterministic-path", path, m);
    }
    proof {
        assert(issue_views(issues@) =~= o + component_policy(dv, component_view(*c)));
    }
}

/// Check every component's placement and runtime.
fn check_components(d: &Deployment, issues: &mut Vec<GraphIssue>)
    ensures
        issue_views(final(issues)@) == issue_views(old(issues)@) + components_policy(deployment_view(*d), deployment_view(*d).components),
{
    let ghost dv = deployment_view(*d);
    let mut i: usize = 0;
    while i < d.components.len()
        invariant
            i <= d.components@.len(),
            dv == deployment_view(*d),
            issue_views(issues@) == issue_views(old(issues)@) + components_policy(dv, dv.components.take(i as int)),
        decreases d.components@.len() - i,
    {
        proof {
            assert(dv.components.take(i + 1).drop_last() =~= dv.components.take(i as int));
            assert(dv.components.take(i + 1).last() == component_view(d.components@[i as int]));
        }
        check_component(d, &d.components[i], issues);
        i = i + 1;
        assert(issue_views(issues@) =~= issue_views(old(issues)@) + components_policy(dv, dv.components.take(i as int)));
    }
    assert(dv.components.take(i as int) =~= dv.components);
}

/// Check one connection's endpoints, contract, runtime and authority.
#[verifier::rlimit(40)]
fn check_connection(d: &Deployment, c: &Connection, issues: &mut Vec<GraphIssue>)
    ensures
        issue_views(final(issues)@) == issue_views(old(issues)@) + connection_policy(deployment_view(*d), connection_view(*c)),
{
    let ghost dv = deployment_view(*d);
    let ghost cv = connection_view(*c);
    let ghost o = issue_views(old(issues)@);
    let mut path = "connection ".to_owned();
    push_str(&mut path, c.from.as_str());
    push_str(&mut path, "->");
    push_str(&mut path, c.to.as_str());
    assert(path@ == connection_path(cv));
    let f = find_component(&d.components, &c.from);
    let t = find_component(&d.components, &c.to);
    if f.is_none() {
        let m = concat3("unknown producer component `", c.from.as_str(), "`");
        error(issues, "unknown-endpoint", path.clone(), m);
    }
    if t.is_none() {
        let m = concat3("unknown consumer component `", c.to.as_str(), "`");
        error(issues, "unknown-endpoint", path.clone(), m);
    }
    let ghost s1 = issue_views(issues@);
    match (f, t) {
        (Some(fi), Some(ti)) => {
            let from = &d.components[fi];
            let to = &d.components[ti];
            proof {
                assert(dv.components[fi as int] == component_view(*from));
                assert(dv.components[ti as int] == component_view(*to));
            }
            if !contains_str(&from.provides, &c.contract) {
                let m = concat5("`", c.from.as_str(), "` does not provide `", c.contract.as_str(), "`");
                error(issues, "provider-mismatch", path.clone(), m);
            }
            let ghost s2 = issue_views(issues@);
            if !contains_str(&to.requires, &c.contract) {
                let m = concat5("`", c.to.as_str(), "` does not require `", c.contract.as_str(), "`");
                error(issues, "consumer-mismatch", path.clone(), m);
            }
            let ghost s3 = issue_views(issues@);
            if from.runtime.is_python() && to.execution_class.is_deterministic_path() {
                let m = concat5("Python component `", c.from.as_str(), "` feeds deterministic component `", c.to.as_str(), "`");
                error(issues, "python-feeds-deterministic-path", path.clone(), m);
            }
            let ghost s4 = issue_views(issues@);
            if to.role.same(Role::Actuator) && !from.role.same(Role::Safety) {
                let m = concat5("actuator `", c.to.as_str(), "` is commanded by `", c.from.as_str(), "` without passing through Safety (§16.1)");
                error(issues, "actuator-authority-bypass", path, m);
            }
            proof {
                assert(issue_views(issues@) =~= o + connection_policy(dv, cv));
            }
        },
        _ => {
            proof {
                assert(issue_views(issues@) =~= o + connection_policy(dv, cv));
            }
        },
    }
}

/// Check every connection.
fn check_connections(d: &Deployment, issues: &mut Vec<GraphIssue>)
    ensures
        issue_views(final(issues)@) == issue_views(old(issues)@) + connections_policy(deployment_view(*d), deployment_view(*d).connections),
{
    let ghost dv = deployment_view(*d);
    let mut i: usize = 0;
    while i < d.connections.len()
        invariant
            i <= d.connections@.len(),
            dv == deployment_view(*d),
            issue_views(issues@) == issue_views(old(issues)@) + connections_policy(dv, dv.connections.take(i as int)),
        decreases d.connections@.len() - i,
    {
        proof {
            assert(dv.connections.take(i + 1).drop_last() =~= dv.connections.take(i as int));
            assert(dv.connections.take(i + 1).last() == connection_view(d.connections@[i as int]));
        }
        check_connection(d, &d.connections[i], issues);
        i = i + 1;
        assert(issue_views(issues@) =~= issue_views(old(issues)@) + connections_policy(dv, dv.connections.take(i as int)));
    }
    assert(dv.connections.take(i as int) =~= dv.connections);
}

/// Whether some connection delivers `contract` to the component `name`.
fn requirement_provided(d: &Deployment, name: &String, contract: &String) -> (b: bool)
    ensures
        b == requirement_met(deployment_view(*d), name@, contract@),
{
    let ghost dv = deployment_view(*d);
    let mut k: usize = 0;
    while k < d.connections.len()
        invariant
            k <= d.connections@.len(),
            dv == deployment_view(*d),
            forall|q: int| 0 <= q < k ==> !(dv.connections[q].to == name@ && dv.connections[q].contract == contract@),
        decreases d.connections@.len() - k,
    {
        if str_equal(d.connections[k].to.as_str(), name.as_str()) && str_equal(d.connections[k].contract.as_str(), contract.as_str()) {
            assert(dv.connections[k as int].to == name@ && dv.connections[k as int].contract == contract@);
            return true;
        }
        k = k + 1;
    }
    false
}

/// Check that every requirement of every component has a provider connection.
fn check_requirements(d: &Deployment, issues: &mut Vec<GraphIssue>)
    ensures
        issue_views(final(issues)@) == issue_views(old(issues)@) + requirements_policy(deployment_view(*d), deployment_view(*d).components),
{
    let ghost dv = deployment_view(*d);
    let mut i: usize = 0;
    while i < d.components.len()
        invariant
            i <= d.components@.len(),
            dv == deployment_view(*d),
            issue_views(issues@) == issue_views(old(issues)@) + requirements_policy(dv, dv.components.take(i as int)),
        decreases d.components@.len() - i,
    {
        let c = &d.components[i];
        proof {
            assert(dv.components.take(i + 1).drop_last() =~= dv.components.take(i as int));
            assert(dv.components.take(i + 1).last() == component_view(*c));
        }
        let ghost before = issue_views(issues@);
        let ghost reqs = strs(c.requires@);
        let mut j: usize = 0;
        while j < c.requires.len()
            invariant
                j <= c.requires@.len(),
                dv == deployment_view(*d),
                reqs == strs(c.requires@),
                issue_views(issues@) == before + requirement_issues(dv, c.name@, reqs.take(j as int)),
            decreases c.requires@.len() - j,
        {
            proof {
                assert(reqs.take(j + 1).drop_last() =~= reqs.take(j as int));
                assert(reqs.take(j + 1).last() == c.requires@[j as int]@);
            }
            if !requirement_provided(d, &c.name, &c.requires[j]) {
                let m = concat3("requires `", c.requires[j].as_str(), "` but no connection provides it");
                error(issues, "unresolved-requirement", concat3("component `", c.name.as_str(), "`"), m);
            }
            j = j + 1;
            assert(issue_views(issues@) =~= before + requirement_issues(dv, c.name@, reqs.take(j as int)));
        }
        proof {
            assert(reqs.take(j as int) =~= reqs);
        }
        i = i + 1;
        assert(issue_views(issues@) =~= issue_views(old(issues)@) + requirements_policy(dv, dv.components.take(i as int)));
    }
    assert(dv.components.take(i as int) =~= dv.components);
}

/// Whether some component has the role.
fn any_role(d: &Deployment, role: Role) -> (b: bool)
    ensures
        b == has_role(deployment_view(*d), role),
{
    let ghost dv = deployment_view(*d);
    let mut k: usize = 0;
    while k < d.components.len()
        invariant
            k <= d.components@.len(),
            dv == deployment_view(*d),
            forall|q: int| 0 <= q < k ==> dv.components[q].role != role,
        decreases d.components@.len() - k,
    {
        if d.components[k].role.same(role) {
            assert(dv.components[k as int].role == role);
            return true;
        }
        k = k + 1;
    }
    false
}

/// Check the safety authority and the delay history budget.
fn check_safety_and_delays(d: &Deployment, issues: &mut Vec<GraphIssue>)
    ensures
        issue_views(final(issues)@) == issue_views(old(issues)@) + safety_policy(deployment_view(*d)) + delay_policy(deployment_view(*d)),
{
    let ghost dv = deployment_view(*d);
    let ghost o = issue_views(old(issues)@);
    if any_role(d, Role::Actuator) && !any_role(d, Role::Safety) {
        error(issues, "missing-safety", "spec.components".to_owned(), "deployment has actuators but no Safety authority component".to_owned());
    }
    let ghost s1 = issue_views(issues@);
    let mut total: u64 = 0;
    let mut exceeded = false;
    let mut k: usize = 0;
    while k < d.connections.len()
        invariant
            k <= d.connections@.len(),
            dv == deployment_view(*d),
            exceeded ==> total_ticks(dv.connections.take(k as int)) > MAX_TOTAL_TICKS,
            !exceeded ==> total == total_ticks(dv.connections.take(k as int)) && total <= MAX_TOTAL_TICKS,
        decreases d.connections@.len() - k,
    {
        proof {
            assert(dv.connections.take(k + 1).drop_last() =~= dv.connections.take(k as int));
            assert(dv.connections.take(k + 1).last() == connection_view(d.connections@[k as int]));
        }
        if !exceeded {
            total = total + d.connections[k].delay.ticks() as u64;
            if total > MAX_TOTAL_TICKS {
                exceeded = true;
            }
        }
        k = k + 1;
    }
    proof {
        assert(dv.connections.take(k as int) =~= dv.connections);
    }
    if exceeded {
        error(issues, "delay-history-limit", "spec.connections".to_owned(), "sum of delay ticks exceeds 65536 history slots".to_owned());
    }
    proof {
        assert(issue_views(issues@) =~= o + safety_policy(dv) + delay_policy(dv));
    }
}

/// Run every policy check except the cycle check.
pub fn check_all(d: &Deployment, issues: &mut Vec<GraphIssue>)
    ensures
        issue_views(final(issues)@) == issue_views(old(issues)@) + policy_issues(deployment_view(*d)),
{
    let ghost dv = deployment_view(*d);
    let ghost o = issue_views(old(issues)@);
    check_components(d, issues);
    let ghost s1 = issue_views(issues@);
    check_connections(d, issues);
    let ghost s2 = issue_views(issues@);
    check_requirements(d, issues);
    let ghost s3 = issue_views(issues@);
    check_safety_and_delays(d, issues);
    proof {
        assert(issue_views(issues@) =~= o + policy_issues(dv));
    }
}

/// A component's issues are among the component issues.
proof fn lemma_component_clean(d: DeploymentView, cs: Seq<ComponentView>, k: int)
    requires
        0 <= k < cs.len(),
        !has_error(components_policy(d, cs)),
    ensures
        !has_error(component_policy(d, cs[k])),
    decreases cs.len(),
{
    lemma_error_concat(components_policy(d, cs.drop_last()), component_policy(d, cs.last()));
    if k < cs.len() - 1 {
        lemma_component_clean(d, cs.drop_last(), k);
    }
}

/// A connection's issues are among the connection issues.
proof fn lemma_connection_clean(d: DeploymentView, cs: Seq<ConnectionView>, k: int)
    requires
        0 <= k < cs.len(),
        !has_error(connections_policy(d, cs)),
    ensures
        !has_error(connection_policy(d, cs[k])),
    decreases cs.len(),
{
    lemma_error_concat(connections_policy(d, cs.drop_last()), connection_policy(d, cs.last()));
    if k < cs.len() - 1 {
        lemma_connection_clean(d, cs.drop_last(), k);
    }
}

/// Every requirement of a clean requirement list is met.
proof fn lemma_requirements_clean(d: DeploymentView, name: Seq<char>, reqs: Seq<Seq<char>>, j: int)
    requires
        0 <= j < reqs.len(),
        !has_error(requirement_issues(d, name, reqs)),
    ensures
        requirement_met(d, name, reqs[j]),
    decreases reqs.len(),
{
    let last = if requirement_met(d, name, reqs.last()) {
        Seq::<IssueView>::empty()
    } else {
        seq![
            err(
                "unresolved-requirement"@,
                component_path(name),
                "requires `"@ + reqs.last() + "` but no connection provides it"@,
            ),
        ]
    };
    lemma_error_concat(requirement_issues(d, name, reqs.drop_last()), last);
    if j < reqs.len() - 1 {
        lemma_requirements_clean(d, name, reqs.drop_last(), j);
    } else if !requirement_met(d, name, reqs.last()) {
        assert(last[0].severity == crate::graph::issues::Severity::Error);
    }
}

/// A component's requirement issues are among all requirement issues.
proof fn lemma_component_requirements_clean(d: DeploymentView, cs: Seq<ComponentView>, k: int)
    requires
        0 <= k < cs.len(),
        !has_error(requirements_policy(d, cs)),
    ensures
        !has_error(requirement_issues(d, cs[k].name, cs[k].requires)),
    decreases cs.len(),
{
    lemma_error_concat(requirements_policy(d, cs.drop_last()), requirement_issues(d, cs.last().name, cs.last().requires));
    if k < cs.len() - 1 {
        lemma_component_requirements_clean(d, cs.drop_last(), k);
    }
}

/// A deployment without policy errors places every component on a declared
/// node, keeps Python off the deterministic path, wires every connection
/// between known components with a provided and required contract, never
/// lets Python feed the deterministic path, commands actuators only through
/// Safety, meets every requirement, has a Safety authority when it has
/// actuators, and stays within the delay history budget.
pub proof fn clean_policy_properties(d: DeploymentView)
    requires
        !has_error(policy_issues(d)),
    ensures
        forall|k: int| 0 <= k < d.components.len() ==> {
            let c = #[trigger] d.components[k];
            &&& (c.node.len() != 0 ==> node_declared(d, c.node))
            &&& !(c.runtime == Runtime::Python && class_deterministic(c.class))
            &&& forall|j: int| 0 <= j < c.requires.len() ==> requirement_met(d, c.name, #[trigger] c.requires[j])
        },
        forall|k: int| 0 <= k < d.connections.len() ==> {
            let c = #[trigger] d.connections[k];
            &&& component_named(d.components, c.from) is Some
            &&& component_named(d.components, c.to) is Some
            &&& ({
                let from = d.components[component_named(d.components, c.from)->0];
                let to = d.components[component_named(d.components, c.to)->0];
                &&& from.provides.contains(c.contract)
                &&& to.requires.contains(c.contract)
                &&& !(from.runtime == Runtime::Python && class_deterministic(to.class))
                &&& (to.role == Role::Actuator ==> from.role == Role::Safety)
            })
        },
        has_role(d, Role::Actuator) ==> has_role(d, Role::Safety),
        total_ticks(d.connections) <= MAX_TOTAL_TICKS,
{
    let a = components_policy(d, d.components);
    let b = connections_policy(d, d.connections);
    let c = requirements_policy(d, d.components);
    lemma_error_concat(a + b + c + safety_policy(d), delay_policy(d));
    lemma_error_concat(a + b + c, safety_policy(d));
    lemma_error_concat(a + b, c);
    lemma_error_concat(a, b);
    assert forall|k: int| 0 <= k < d.components.len() implies {
        let c = #[trigger] d.components[k];
        &&& (c.node.len() != 0 ==> node_declared(d, c.node))
        &&& !(c.runtime == Runtime::Python && class_deterministic(c.class))
        &&& forall|j: int| 0 <= j < c.requires.len() ==> requirement_met(d, c.name, #[trigger] c.requires[j])
    } by {
        let x = d.components[k];
        lemma_component_clean(d, d.components, k);
        let placement = if x.node.len() != 0 && !node_declared(d, x.node) {
            seq![err("unknown-node"@, component_path(x.name), "placed on unknown node `"@ + x.node + "`"@)]
        } else {
            Seq::empty()
        };
        let python = if x.runtime == Runtime::Python && class_deterministic(x.class) {
            seq![
                err(
                    "python-in-deterministic-path"@,
                    component_path(x.name),
                    "Python components must not run in the `"@ + class_name(x.class)
                        + "` (deterministic) execution class"@,
                ),
            ]
        } else {
            Seq::empty()
        };
        lemma_error_concat(placement, python);
        if x.node.len() != 0 && !node_declared(d, x.node) {
            assert(placement[0].severity == crate::graph::issues::Severity::Error);
        }
        if x.runtime == Runtime::Python && class_deterministic(x.class) {
            assert(python[0].severity == crate::graph::issues::Severity::Error);
        }
        lemma_component_requirements_clean(d, d.components, k);
        assert forall|j: int| 0 <= j < x.requires.len() implies requirement_met(d, x.name, #[trigger] x.requires[j]) by {
            lemma_requirements_clean(d, x.name, x.requires, j);
        }
    }
    assert forall|k: int| 0 <= k < d.connections.len() implies {
        let c = #[trigger] d.connections[k];
        &&& component_named(d.components, c.from) is Some
        &&& component_named(d.components, c.to) is Some
        &&& ({
            let from = d.components[component_named(d.components, c.from)->0];
            let to = d.components[component_named(d.components, c.to)->0];
            &&& from.provides.contains(c.contract)
            &&& to.requires.contains(c.contract)
            &&& !(from.runtime == Runtime::Python && class_deterministic(to.class))
            &&& (to.role == Role::Actuator ==> from.role == Role::Safety)
        })
    } by {
        let x = d.connections[k];
        lemma_connection_clean(d, d.connections, k);
        connection_clean_facts(d, x);
    }
    if has_role(d, Role::Actuator) && !has_role(d, Role::Safety) {
        assert(safety_policy(d)[0].severity == crate::graph::issues::Severity::Error);
    }
    if total_ticks(d.connections) > MAX_TOTAL_TICKS {
        assert(delay_policy(d)[0].severity == crate::graph::issues::Severity::Error);
    }
}

/// The facts a connection without issues guarantees.
proof fn connection_clean_facts(d: DeploymentView, c: ConnectionView)
    requires
        !has_error(connection_policy(d, c)),
    ensures
        component_named(d.components, c.from) is Some,
        component_named(d.components, c.to) is Some,
        ({
            let from = d.components[component_named(d.components, c.from)->0];
            let to = d.components[component_named(d.components, c.to)->0];
            &&& from.provides.contains(c.contract)
            &&& to.requires.contains(c.contract)
            &&& !(from.runtime == Runtime::Python && class_deterministic(to.class))
            &&& (to.role == Role::Actuator ==> from.role == Role::Safety)
        }),
{
    let p = connection_path(c);
    let f = component_named(d.components, c.from);
    let t = component_named(d.components, c.to);
    let unknown_from = if f is None {
        seq![err("unknown-endpoint"@, p, "unknown producer component `"@ + c.from + "`"@)]
    } else {
        Seq::<IssueView>::empty()
    };
    let unknown_to = if t is None {
        seq![err("unknown-endpoint"@, p, "unknown consumer component `"@ + c.to + "`"@)]
    } else {
        Seq::<IssueView>::empty()
    };
    lemma_error_concat(unknown_from, unknown_to);
    if f is None {
        assert(unknown_from[0].severity == crate::graph::issues::Severity::Error);
        assert(has_error(unknown_from + unknown_to));
    } else if t is None {
        assert(unknown_to[0].severity == crate::graph::issues::Severity::Error);
        assert(has_error(unknown_from + unknown_to));
    } else {
        let from = d.components[f->0];
        let to = d.components[t->0];
        let provider = if !from.provides.contains(c.contract) {
            seq![err("provider-mismatch"@, p, "`"@ + c.from + "` does not provide `"@ + c.contract + "`"@)]
        } else {
            Seq::<IssueView>::empty()
        };
        let consumer = if !to.requires.contains(c.contract) {
            seq![err("consumer-mismatch"@, p, "`"@ + c.to + "` does not require `"@ + c.contract + "`"@)]
        } else {
            Seq::<IssueView>::empty()
        };
        let feeds = if from.runtime == Runtime::Python && class_deterministic(to.class) {
            seq![
                err(
                    "python-feeds-deterministic-path"@,
                    p,
                    "Python component `"@ + c.from + "` feeds deterministic component `"@ + c.to + "`"@,
                ),
            ]
        } else {
            Seq::<IssueView>::empty()
        };
        let bypass = if to.role == Role::Actuator && from.role != Role::Safety {
            seq![
                err(
                    "actuator-authority-bypass"@,
                    p,
                    "actuator `"@ + c.to + "` is commanded by `"@ + c.from
                        + "` without passing through Safety (§16.1)"@,
                ),
            ]
        } else {
            Seq::<IssueView>::empty()
        };
        assert(connection_policy(d, c) == unknown_from + unknown_to + provider + consumer + feeds + bypass);
        lemma_error_concat(unknown_from + unknown_to + provider + consumer + feeds, bypass);
        lemma_error_concat(unknown_from + unknown_to + provider + consumer, feeds);
        lemma_error_concat(unknown_from + unknown_to + provider, consumer);
        lemma_error_concat(unknown_from + unknown_to, provider);
        if !from.provides.contains(c.contract) {
            assert(provider[0].severity == crate::graph::issues::Severity::Error);
        }
        if !to.requires.contains(c.contract) {
            assert(consumer[0].severity == crate::graph::issues::Severity::Error);
        }
        if from.runtime == Runtime::Python && class_deterministic(to.class) {
            assert(feeds[0].severity == crate::graph::issues::Severity::Error);
        }
        if to.role == Role::Actuator && from.role != Role::Safety {
            assert(bypass[0].severity == crate::graph::issues::Severity::Error);
        }
    }
}

} // verus!
