//! Building the typed deployment model from a raw document, collecting every
//! structural issue in the order it is found.
use crate::graph::configuration::{configuration_decode, ComponentConfiguration};
use crate::graph::delay::{delay_decode, ConnectionDelay};
use crate::graph::issues::{
    concat3, concat5, err, error, indexed, indexed_path, issue_views, missing, GraphIssue, IssueView,
};
use crate::graph::model::{
    class_named, role_named, runtime_named,
    Component, Connection, Deployment, ExecutionClass, Node, RawComponent, RawConnection,
    RawDeployment, RawNode, Role, Runtime, SUPPORTED_API_VERSION,
};
use crate::graph::yaml::YamlValue;
use crate::text::{is_blank, str_equal, trim};
use vstd::prelude::*;

verus! {

/// A built node.
pub struct NodeView {
    /// Name.
    pub name: Seq<char>,
    /// Target.
    pub target: Seq<char>,
}

/// A built component.
pub struct ComponentView {
    /// Name.
    pub name: Seq<char>,
    /// Placement node.
    pub node: Seq<char>,
    /// Execution class.
    pub class: ExecutionClass,
    /// Runtime.
    pub runtime: Runtime,
    /// Role.
    pub role: Role,
    /// Provided references.
    pub provides: Seq<Seq<char>>,
    /// Required references.
    pub requires: Seq<Seq<char>>,
    /// Canonical configuration text.
    pub configuration: Seq<char>,
}

/// A built connection.
pub struct ConnectionView {
    /// Producer.
    pub from: Seq<char>,
    /// Consumer.
    pub to: Seq<char>,
    /// Contract reference.
    pub contract: Seq<char>,
    /// Delay ticks; zero is instantaneous.
    pub delay: nat,
}

/// A built deployment.
pub struct DeploymentView {
    /// Name.
    pub name: Seq<char>,
    /// Profile.
    pub profile: Option<Seq<char>>,
    /// Nodes.
    pub nodes: Seq<NodeView>,
    /// Components.
    pub components: Seq<ComponentView>,
    /// Connections.
    pub connections: Seq<ConnectionView>,
}

/// The views of owned strings.
pub open spec fn strs(v: Seq<String>) -> Seq<Seq<char>> {
    v.map_values(|s: String| s@)
}

/// The view of an optional string.
pub open spec fn opt_str(o: Option<String>) -> Option<Seq<char>> {
    match o {
        Some(s) => Some(s@),
        None => None,
    }
}

/// The view of a node.
pub open spec fn node_view(n: Node) -> NodeView {
    NodeView { name: n.name@, target: n.target@ }
}

/// The view of a component.
pub open spec fn component_view(c: Component) -> ComponentView {
    ComponentView {
        name: c.name@,
        node: c.node@,
        class: c.execution_class,
        runtime: c.runtime,
        role: c.role,
        provides: strs(c.provides@),
        requires: strs(c.requires@),
        configuration: c.configuration@,
    }
}

/// The view of a connection.
pub open spec fn connection_view(c: Connection) -> ConnectionView {
    ConnectionView { from: c.from@, to: c.to@, contract: c.contract@, delay: c.delay@ }
}

/// The view of a deployment.
pub open spec fn deployment_view(d: Deployment) -> DeploymentView {
    DeploymentView {
        name: d.name@,
        profile: opt_str(d.profile),
        nodes: d.nodes@.map_values(|n: Node| node_view(n)),
        components: d.components@.map_values(|c: Component| component_view(c)),
        connections: d.connections@.map_values(|c: Connection| connection_view(c)),
    }
}

/// A present, non-blank value.
pub open spec fn required(v: Option<Seq<char>>) -> Option<Seq<char>> {
    match v {
        Some(s) => if trim(s).len() != 0 {
            Some(s)
        } else {
            None
        },
        None => None,
    }
}

/// Require a present, non-blank value at `path`.
fn require(value: &Option<String>, path: String, issues: &mut Vec<GraphIssue>) -> (r: Option<String>)
    ensures
        match required(opt_str(*value)) {
            Some(s) => r matches Some(x) && x@ == s && issue_views(final(issues)@) == issue_views(
                old(issues)@,
            ),
            None => r is None && issue_views(final(issues)@) == issue_views(old(issues)@).push(
                missing(path@),
            ),
        },
{
    match value {
        Some(s) => {
            if !is_blank(s.as_str()) {
                return Some(s.clone());
            }
        },
        None => {},
    }
    error(issues, "missing-field", path, "is required".to_owned());
    None
}

/// Header issues: api version, kind and name, with the built name.
pub open spec fn header_issues(raw: RawDeployment) -> (Seq<char>, Seq<IssueView>) {
    let api = match opt_str(raw.api_version) {
        Some(v) => if v == SUPPORTED_API_VERSION@ {
            Seq::empty()
        } else {
            seq![
                err(
                    "unsupported-api-version"@,
                    "apiVersion"@,
                    "unsupported apiVersion `"@ + v + "`; expected `"@ + SUPPORTED_API_VERSION@ + "`"@,
                ),
            ]
        },
        None => seq![missing("apiVersion"@)],
    };
    let kind = match opt_str(raw.kind) {
        Some(v) => if v == "RobotDeployment"@ {
            Seq::empty()
        } else {
            seq![
                err(
                    "unsupported-kind"@,
                    "kind"@,
                    "unsupported kind `"@ + v + "`; expected `RobotDeployment`"@,
                ),
            ]
        },
        None => seq![missing("kind"@)],
    };
    let name = match raw.metadata {
        Some(m) => match opt_str(m.name) {
            Some(n) => if trim(n).len() != 0 {
                Some(n)
            } else {
                None
            },
            None => None,
        },
        None => None,
    };
    match name {
        Some(n) => (n, api + kind),
        None => (Seq::empty(), api + kind + seq![missing("metadata.name"@)]),
    }
}

/// Check the header and return the deployment name.
fn build_header(raw: &RawDeployment, issues: &mut Vec<GraphIssue>) -> (name: String)
    ensures
        name@ == header_issues(*raw).0,
        issue_views(final(issues)@) == issue_views(old(issues)@) + header_issues(*raw).1,
{
    let ghost start = issue_views(issues@);
    match &raw.api_version {
        Some(v) => {
            if !str_equal(v.as_str(), SUPPORTED_API_VERSION) {
                let m = concat5("unsupported apiVersion `", v.as_str(), "`; expected `", SUPPORTED_API_VERSION, "`");
                error(issues, "unsupported-api-version", "apiVersion".to_owned(), m);
            }
        },
        None => error(issues, "missing-field", "apiVersion".to_owned(), "is required".to_owned()),
    }
    let ghost after_api = issue_views(issues@);
    match &raw.kind {
        Some(v) => {
            if !str_equal(v.as_str(), "RobotDeployment") {
                let m = concat3("unsupported kind `", v.as_str(), "`; expected `RobotDeployment`");
                error(issues, "unsupported-kind", "kind".to_owned(), m);
            }
        },
        None => error(issues, "missing-field", "kind".to_owned(), "is required".to_owned()),
    }
    let ghost after_kind = issue_views(issues@);
    let name: Option<String> = match &raw.metadata {
        Some(m) => match &m.name {
            Some(n) => if !is_blank(n.as_str()) {
                Some(n.clone())
            } else {
                None
            },
            None => None,
        },
        None => None,
    };
    let r = match name {
        Some(n) => n,
        None => {
            error(issues, "missing-field", "metadata.name".to_owned(), "is required".to_owned());
            String::new()
        },
    };
    proof {
        let h = header_issues(*raw);
        assert(after_api.len() >= start.len());
        assert(issue_views(issues@) =~= start + h.1);
    }
    r
}

/// The structural issues of one raw node and the node built from it.
pub open spec fn node_step(i: nat, raw: RawNode, built: Seq<NodeView>) -> (Option<NodeView>, Seq<IssueView>) {
    let base = indexed("spec.nodes"@, i, Seq::empty());
    match required(opt_str(raw.name)) {
        None => (None, seq![missing(base + ".name"@)]),
        Some(n) => {
            let (target, t_issues) = match opt_str(raw.target) {
                Some(t) => (t, Seq::<IssueView>::empty()),
                None => (Seq::<char>::empty(), seq![missing(base + ".target"@)]),
            };
            let dup = if exists|k: int| 0 <= k < built.len() && built[k].name == n {
                seq![err("duplicate-node"@, base, "duplicate node name `"@ + n + "`"@)]
            } else {
                Seq::empty()
            };
            (Some(NodeView { name: n, target }), t_issues + dup)
        },
    }
}

/// Nodes built from a raw list, with their issues.
pub open spec fn nodes_fold(raw: Seq<RawNode>) -> (Seq<NodeView>, Seq<IssueView>)
    decreases raw.len(),
{
    if raw.len() == 0 {
        (Seq::empty(), Seq::empty())
    } else {
        let (ns, is) = nodes_fold(raw.drop_last());
        let (n, js) = node_step((raw.len() - 1) as nat, raw.last(), ns);
        (
            match n {
                Some(x) => ns.push(x),
                None => ns,
            },
            is + js,
        )
    }
}

/// Build the nodes of a raw list.
#[verifier::loop_isolation(false)]
fn build_nodes(raw: &Vec<RawNode>, issues: &mut Vec<GraphIssue>) -> (nodes: Vec<Node>)
    ensures
        nodes@.map_values(|n: Node| node_view(n)) == nodes_fold(raw@).0,
        issue_views(final(issues)@) == issue_views(old(issues)@) + nodes_fold(raw@).1,
{
    let mut nodes: Vec<Node> = Vec::new();
    let mut i: usize = 0;
    while i < raw.len()
        invariant
            i <= raw@.len(),
            nodes@.map_values(|n: Node| node_view(n)) == nodes_fold(raw@.take(i as int)).0,
            issue_views(issues@) == issue_views(old(issues)@) + nodes_fold(raw@.take(i as int)).1,
        decreases raw@.len() - i,
    {
        let ghost before = issue_views(issues@);
        let ghost built = nodes@.map_values(|n: Node| node_view(n));
        proof {
            assert(raw@.take(i + 1).drop_last() =~= raw@.take(i as int));
            assert(raw@.take(i + 1).last() == raw@[i as int]);
        }
        let n = &raw[i];
        let name = require(&n.name, indexed_path("spec.nodes", i, ".name"), issues);
        match name {
            None => {
                proof {
                    reveal_strlit("");
                    assert(indexed("spec.nodes"@, i as nat, ".name"@) =~= indexed("spec.nodes"@, i as nat, Seq::empty()) + ".name"@);
                }
            },
            Some(nname) => {
                let target = match &n.target {
                    Some(t) => t.clone(),
                    None => {
                        let p = indexed_path("spec.nodes", i, ".target");
                        proof {
                            assert(p@ =~= indexed("spec.nodes"@, i as nat, Seq::empty()) + ".target"@);
                        }
                        error(issues, "missing-field", p, "is required".to_owned());
                        String::new()
                    },
                };
                let mut dup = false;
                let mut k: usize = 0;
                while k < nodes.len()
                    invariant
                        k <= nodes@.len(),
                        built == nodes@.map_values(|n: Node| node_view(n)),
                        dup == exists|q: int| 0 <= q < k && built[q].name == nname@,
                    decreases nodes@.len() - k,
                {
                    proof {
                        assert(built[k as int] == node_view(nodes@[k as int]));
                    }
                    if str_equal(nodes[k].name.as_str(), nname.as_str()) {
                        dup = true;
                    }
                    proof {
                        if !dup {
                            assert forall|q: int| 0 <= q < k + 1 implies built[q].name != nname@ by {
                                if q == k {
                                } else {
                                    assert(!(0 <= q < k && built[q].name == nname@));
                                }
                            }
                        }
                    }
                    k = k + 1;
                }
                if dup {
                    let base = indexed_path("spec.nodes", i, "");
                    let m = concat3("duplicate node name `", nname.as_str(), "`");
                    proof {
                        reveal_strlit("");
                        assert(base@ =~= indexed("spec.nodes"@, i as nat, Seq::empty()));
                    }
                    error(issues, "duplicate-node", base, m);
                }
                nodes.push(Node { name: nname, target });
            },
        }
        proof {
            let (ns, is) = nodes_fold(raw@.take(i as int));
            assert(ns == built);
            assert(nodes@.map_values(|n: Node| node_view(n)) =~= nodes_fold(raw@.take(i + 1)).0);
            assert(issue_views(issues@) =~= issue_views(old(issues)@) + nodes_fold(raw@.take(i + 1)).1);
        }
        i = i + 1;
    }
    proof {
        assert(raw@.take(i as int) =~= raw@);
    }
    nodes
}

/// The execution class of a raw component and its issues.
pub open spec fn class_of(base: Seq<char>, v: Option<Seq<char>>) -> (ExecutionClass, Seq<IssueView>) {
    match v {
        None => (ExecutionClass::Interactive, seq![missing(base + ".executionClass"@)]),
        Some(s) => match class_named(s) {
            Some(c) => (c, Seq::empty()),
            None => (
                ExecutionClass::Interactive,
                seq![
                    err(
                        "unknown-value"@,
                        base + ".executionClass"@,
                        "unknown execution class `"@ + s
                            + "`; supported: hard-real-time, deterministic, interactive, best-effort, batch-ai"@,
                    ),
                ],
            ),
        },
    }
}

/// The runtime of a raw component and its issues.
pub open spec fn runtime_of(base: Seq<char>, v: Option<Seq<char>>) -> (Runtime, Seq<IssueView>) {
    match v {
        None => (Runtime::Rust, Seq::empty()),
        Some(s) => match runtime_named(s) {
            Some(r) => (r, Seq::empty()),
            None => (
                Runtime::Rust,
                seq![
                    err(
                        "unknown-value"@,
                        base + ".runtime"@,
                        "unknown runtime `"@ + s + "`; supported: rust, python"@,
                    ),
                ],
            ),
        },
    }
}

/// The role of a raw component and its issues.
pub open spec fn role_of(base: Seq<char>, v: Option<Seq<char>>) -> (Role, Seq<IssueView>) {
    match v {
        None => (Role::Normal, Seq::empty()),
        Some(s) => match role_named(s) {
            Some(r) => (r, Seq::empty()),
            None => (
                Role::Normal,
                seq![
                    err(
                        "unknown-value"@,
                        base + ".role"@,
                        "unknown role `"@ + s + "`; supported: normal, safety, actuator"@,
                    ),
                ],
            ),
        },
    }
}

/// Whether some reference occurs twice.
pub open spec fn has_duplicate(s: Seq<Seq<char>>) -> bool {
    exists|i: int, j: int| 0 <= i < j < s.len() && s[i] == s[j]
}

/// The duplicate-reference issue for one list, if it repeats a reference.
pub open spec fn duplicate_refs(base: Seq<char>, s: Seq<Seq<char>>) -> Seq<IssueView> {
    if has_duplicate(s) {
        seq![err("duplicate-contract-reference"@, base, "duplicate provides/requires reference"@)]
    } else {
        Seq::empty()
    }
}

/// The missing-node issue of a raw component.
pub open spec fn node_issue_of(base: Seq<char>, node: Option<Seq<char>>) -> Seq<IssueView> {
    match node {
        Some(t) => Seq::empty(),
        None => seq![missing(base + ".node"@)],
    }
}

/// The duplicate-name issue of a component.
pub open spec fn dup_component_of(base: Seq<char>, n: Seq<char>, built: Seq<ComponentView>) -> Seq<IssueView> {
    if exists|k: int| 0 <= k < built.len() && built[k].name == n {
        seq![err("duplicate-component"@, base, "duplicate component name `"@ + n + "`"@)]
    } else {
        Seq::empty()
    }
}

/// The configuration issue of a raw component.
pub open spec fn config_issue_of(base: Seq<char>, v: YamlValue) -> Seq<IssueView> {
    match configuration_decode(v) {
        Ok(t) => Seq::empty(),
        Err(e) => seq![err("invalid-configuration"@, base + ".configuration"@, e@)],
    }
}

/// Issues of placement, class, runtime and role.
pub open spec fn head_issues(base: Seq<char>, raw: RawComponent) -> Seq<IssueView> {
    node_issue_of(base, opt_str(raw.node)) + class_of(base, opt_str(raw.execution_class)).1 + runtime_of(
        base,
        opt_str(raw.runtime),
    ).1 + role_of(base, opt_str(raw.role)).1
}

/// Issues of duplicate name, configuration and repeated references.
pub open spec fn tail_issues(base: Seq<char>, n: Seq<char>, raw: RawComponent, built: Seq<ComponentView>) -> Seq<IssueView> {
    dup_component_of(base, n, built) + config_issue_of(base, raw.configuration) + duplicate_refs(
        base,
        strs(raw.provides@),
    ) + duplicate_refs(base, strs(raw.requires@))
}

/// The component built from a raw component named `n`.
pub open spec fn built_component(base: Seq<char>, n: Seq<char>, raw: RawComponent) -> ComponentView {
    ComponentView {
        name: n,
        node: match opt_str(raw.node) {
            Some(t) => t,
            None => Seq::<char>::empty(),
        },
        class: class_of(base, opt_str(raw.execution_class)).0,
        runtime: runtime_of(base, opt_str(raw.runtime)).0,
        role: role_of(base, opt_str(raw.role)).0,
        provides: strs(raw.provides@),
        requires: strs(raw.requires@),
        configuration: match configuration_decode(raw.configuration) {
            Ok(t) => t,
            Err(e) => seq!['{', '}'],
        },
    }
}

/// The structural issues of one raw component and the component built from it.
pub open spec fn component_step(i: nat, raw: RawComponent, built: Seq<ComponentView>) -> (Option<ComponentView>, Seq<IssueView>) {
    let base = indexed("spec.components"@, i, Seq::empty());
    match required(opt_str(raw.name)) {
        None => (None, seq![missing(base + ".name"@)]),
        Some(n) => (Some(built_component(base, n, raw)), head_issues(base, raw) + tail_issues(base, n, raw, built)),
    }
}

/// Components built from a raw list, with their issues.
pub open spec fn components_fold(raw: Seq<RawComponent>) -> (Seq<ComponentView>, Seq<IssueView>)
    decreases raw.len(),
{
    if raw.len() == 0 {
        (Seq::empty(), Seq::empty())
    } else {
        let (cs, is) = components_fold(raw.drop_last());
        let (c, js) = component_step((raw.len() - 1) as nat, raw.last(), cs);
        (
            match c {
                Some(x) => cs.push(x),
                None => cs,
            },
            is + js,
        )
    }
}

/// Whether some string occurs twice.
fn repeats(v: &Vec<String>) -> (b: bool)
    ensures
        b == has_duplicate(strs(v@)),
{
    let ghost s = strs(v@);
    let mut j: usize = 0;
    while j < v.len()
        invariant
            j <= v@.len(),
            s == strs(v@),
            forall|a: int, b: int| 0 <= a < b < j ==> s[a] != s[b],
        decreases v@.len() - j,
    {
        let mut a: usize = 0;
        while a < j
            invariant
                a <= j < v@.len(),
                s == strs(v@),
                forall|x: int| 0 <= x < a ==> s[x] != s[j as int],
            decreases j - a,
        {
            if str_equal(v[a].as_str(), v[j].as_str()) {
                assert(s[a as int] == s[j as int]);
                return true;
            }
            a = a + 1;
        }
        j = j + 1;
    }
    false
}

/// Parse the execution class, recording its issue.
fn parse_class(base: &String, v: &Option<String>, issues: &mut Vec<GraphIssue>) -> (c: ExecutionClass)
    ensures
        c == class_of(base@, opt_str(*v)).0,
        issue_views(final(issues)@) == issue_views(old(issues)@) + class_of(base@, opt_str(*v)).1,
{
    match v {
        None => {
            error(issues, "missing-field", concat3(base.as_str(), ".executionClass", ""), "is required".to_owned());
            proof { reveal_strlit(""); }
            assert(issue_views(issues@) =~= issue_views(old(issues)@) + class_of(base@, opt_str(*v)).1);
            ExecutionClass::Interactive
        },
        Some(s) => match ExecutionClass::parse(s.as_str()) {
            Some(c) => {
                assert(issue_views(issues@) =~= issue_views(old(issues)@) + class_of(base@, opt_str(*v)).1);
                c
            },
            None => {
                let m = concat3("unknown execution class `", s.as_str(), "`; supported: hard-real-time, deterministic, interactive, best-effort, batch-ai");
                error(issues, "unknown-value", concat3(base.as_str(), ".executionClass", ""), m);
                proof { reveal_strlit(""); }
                assert(issue_views(issues@) =~= issue_views(old(issues)@) + class_of(base@, opt_str(*v)).1);
                ExecutionClass::Interactive
            },
        },
    }
}

/// Parse the runtime, recording its issue.
fn parse_runtime(base: &String, v: &Option<String>, issues: &mut Vec<GraphIssue>) -> (r: Runtime)
    ensures
        r == runtime_of(base@, opt_str(*v)).0,
        issue_views(final(issues)@) == issue_views(old(issues)@) + runtime_of(base@, opt_str(*v)).1,
{
    match v {
        None => {
            assert(issue_views(issues@) =~= issue_views(old(issues)@) + runtime_of(base@, opt_str(*v)).1);
            Runtime::Rust
        },
        Some(s) => match Runtime::parse(s.as_str()) {
            Some(r) => {
                assert(issue_views(issues@) =~= issue_views(old(issues)@) + runtime_of(base@, opt_str(*v)).1);
                r
            },
            None => {
                let m = concat3("unknown runtime `", s.as_str(), "`; supported: rust, python");
                error(issues, "unknown-value", concat3(base.as_str(), ".runtime", ""), m);
                proof { reveal_strlit(""); }
                assert(issue_views(issues@) =~= issue_views(old(issues)@) + runtime_of(base@, opt_str(*v)).1);
                Runtime::Rust
            },
        },
    }
}

/// Parse the role, recording its issue.
fn parse_role(base: &String, v: &Option<String>, issues: &mut Vec<GraphIssue>) -> (r: Role)
    ensures
        r == role_of(base@, opt_str(*v)).0,
        issue_views(final(issues)@) == issue_views(old(issues)@) + role_of(base@, opt_str(*v)).1,
{
    match v {
        None => {
            assert(issue_views(issues@) =~= issue_views(old(issues)@) + role_of(base@, opt_str(*v)).1);
            Role::Normal
        },
        Some(s) => match Role::parse(s.as_str()) {
            Some(r) => {
                assert(issue_views(issues@) =~= issue_views(old(issues)@) + role_of(base@, opt_str(*v)).1);
                r
            },
            None => {
                let m = concat3("unknown role `", s.as_str(), "`; supported: normal, safety, actuator");
                error(issues, "unknown-value", concat3(base.as_str(), ".role", ""), m);
                proof { reveal_strlit(""); }
                assert(issue_views(issues@) =~= issue_views(old(issues)@) + role_of(base@, opt_str(*v)).1);
                Role::Normal
            },
        },
    }
}

/// Copy a list of strings.
fn clone_strings(v: &Vec<String>) -> (r: Vec<String>)
    ensures
        strs(r@) == strs(v@),
{
    let mut r: Vec<String> = Vec::new();
    let mut i: usize = 0;
    while i < v.len()
        invariant
            i <= v@.len(),
            r@.len() == i,
            forall|k: int| 0 <= k < i ==> #[trigger] r@[k]@ == v@[k]@,
        decreases v@.len() - i,
    {
        let x = v[i].clone();
        r.push(x);
        i = i + 1;
    }
    assert(strs(r@) =~= strs(v@));
    r
}

/// Whether a built component already has this name.
fn component_name_taken(built: &Vec<Component>, name: &String) -> (b: bool)
    ensures
        b == exists|q: int| 0 <= q < built@.len() && component_view(built@[q]).name == name@,
{
    let mut k: usize = 0;
    while k < built.len()
        invariant
            k <= built@.len(),
            forall|q: int| 0 <= q < k ==> component_view(#[trigger] built@[q]).name != name@,
        decreases built@.len() - k,
    {
        if str_equal(built[k].name.as_str(), name.as_str()) {
            assert(component_view(built@[k as int]).name == name@);
            return true;
        }
        k = k + 1;
    }
    false
}

/// Placement, class, runtime and role of a raw component, recording their issues.
fn component_head(base: &String, c: &RawComponent, issues: &mut Vec<GraphIssue>) -> (r: (String, ExecutionClass, Runtime, Role))
    ensures
        r.0@ == (match opt_str(c.node) {
            Some(t) => t,
            None => Seq::<char>::empty(),
        }),
        r.1 == class_of(base@, opt_str(c.execution_class)).0,
        r.2 == runtime_of(base@, opt_str(c.runtime)).0,
        r.3 == role_of(base@, opt_str(c.role)).0,
        issue_views(final(issues)@) == issue_views(old(issues)@) + head_issues(base@, *c),
{
    let ghost o = issue_views(old(issues)@);
    let ghost b = base@;
    let node = match &c.node {
        Some(t) => t.clone(),
        None => {
            let p = concat3(base.as_str(), ".node", "");
            proof {
                reveal_strlit("");
                assert(p@ =~= b + ".node"@);
            }
            error(issues, "missing-field", p, "is required".to_owned());
            String::new()
        },
    };
    let ghost mut acc = node_issue_of(b, opt_str(c.node));
    assert(issue_views(issues@) =~= o + acc);
    let execution_class = parse_class(base, &c.execution_class, issues);
    proof {
        acc = acc + class_of(b, opt_str(c.execution_class)).1;
        assert(issue_views(issues@) =~= o + acc);
    }
    let runtime = parse_runtime(base, &c.runtime, issues);
    proof {
        acc = acc + runtime_of(b, opt_str(c.runtime)).1;
        assert(issue_views(issues@) =~= o + acc);
    }
    let role = parse_role(base, &c.role, issues);
    proof {
        acc = acc + role_of(b, opt_str(c.role)).1;
        assert(issue_views(issues@) =~= o + acc);
    }
    (node, execution_class, runtime, role)
}

/// Duplicate-name, configuration and reference issues of a named component.
fn component_tail(base: &String, name: &String, c: &RawComponent, built: &Vec<Component>, issues: &mut Vec<GraphIssue>) -> (cfg: ComponentConfiguration)
    ensures
        cfg@ == (match configuration_decode(c.configuration) {
            Ok(t) => t,
            Err(e) => seq!['{', '}'],
        }),
        issue_views(final(issues)@) == issue_views(old(issues)@) + tail_issues(
            base@,
            name@,
            *c,
            built@.map_values(|k: Component| component_view(k)),
        ),
{
    let ghost o = issue_views(old(issues)@);
    let ghost b = base@;
    let ghost bviews = built@.map_values(|k: Component| component_view(k));
    let taken = component_name_taken(built, name);
    proof {
        assert((exists|k: int| 0 <= k < bviews.len() && bviews[k].name == name@) == taken) by {
            if taken {
                let q = choose|q: int| 0 <= q < built@.len() && component_view(built@[q]).name == name@;
                assert(bviews[q] == component_view(built@[q]));
            }
        }
    }
    if taken {
        let m = concat3("duplicate component name `", name.as_str(), "`");
        error(issues, "duplicate-component", base.clone(), m);
    }
    let ghost mut acc = dup_component_of(b, name@, bviews);
    assert(issue_views(issues@) =~= o + acc);
    let configuration = match ComponentConfiguration::from_value(&c.configuration) {
        Ok(cfg) => cfg,
        Err(reason) => {
            let p = concat3(base.as_str(), ".configuration", "");
            proof {
                reveal_strlit("");
                assert(p@ =~= b + ".configuration"@);
            }
            error(issues, "invalid-configuration", p, reason.to_owned());
            ComponentConfiguration::default()
        },
    };
    proof {
        acc = acc + config_issue_of(b, c.configuration);
        assert(issue_views(issues@) =~= o + acc);
    }
    if repeats(&c.provides) {
        error(issues, "duplicate-contract-reference", base.clone(), "duplicate provides/requires reference".to_owned());
    }
    proof {
        acc = acc + duplicate_refs(b, strs(c.provides@));
        assert(issue_views(issues@) =~= o + acc);
    }
    if repeats(&c.requires) {
        error(issues, "duplicate-contract-reference", base.clone(), "duplicate provides/requires reference".to_owned());
    }
    proof {
        acc = acc + duplicate_refs(b, strs(c.requires@));
        assert(issue_views(issues@) =~= o + acc);
    }
    configuration
}

/// Build one component, recording its issues.
fn build_component(i: usize, c: &RawComponent, built: &Vec<Component>, issues: &mut Vec<GraphIssue>) -> (r: Option<Component>)
    ensures
        ({
            let (x, js) = component_step(i as nat, *c, built@.map_values(|k: Component| component_view(k)));
            &&& issue_views(final(issues)@) == issue_views(old(issues)@) + js
            &&& match x {
                Some(v) => r matches Some(k) && component_view(k) == v,
                None => r is None,
            }
        }),
{
    let base = indexed_path("spec.components", i, "");
    let p = concat3(base.as_str(), ".name", "");
    proof {
        reveal_strlit("");
        assert(base@ =~= indexed("spec.components"@, i as nat, Seq::empty()));
        assert(p@ =~= base@ + ".name"@);
    }
    let name = require(&c.name, p, issues);
    let cname = match name {
        None => {
            return None;
        },
        Some(n) => n,
    };
    let ghost s1 = issue_views(issues@);
    let (node, execution_class, runtime, role) = component_head(&base, c, issues);
    let ghost s2 = issue_views(issues@);
    let configuration = component_tail(&base, &cname, c, built, issues);
    let provides = clone_strings(&c.provides);
    let required_refs = clone_strings(&c.requires);
    proof {
        let b = base@;
        let bv = built@.map_values(|k: Component| component_view(k));
        assert(s2 == s1 + head_issues(b, *c));
        assert(issue_views(issues@) == s2 + tail_issues(b, cname@, *c, bv));
        assert(issue_views(issues@) =~= issue_views(old(issues)@) + (head_issues(b, *c) + tail_issues(b, cname@, *c, bv)));
    }
    Some(
        Component {
            name: cname,
            node,
            execution_class,
            runtime,
            role,
            provides,
            requires: required_refs,
            configuration,
        },
    )
}

/// Build the components of a raw list.
#[verifier::loop_isolation(false)]
fn build_components(raw: &Vec<RawComponent>, issues: &mut Vec<GraphIssue>) -> (comps: Vec<Component>)
    ensures
        comps@.map_values(|c: Component| component_view(c)) == components_fold(raw@).0,
        issue_views(final(issues)@) == issue_views(old(issues)@) + components_fold(raw@).1,
{
    let mut comps: Vec<Component> = Vec::new();
    let mut i: usize = 0;
    while i < raw.len()
        invariant
            i <= raw@.len(),
            comps@.map_values(|c: Component| component_view(c)) == components_fold(raw@.take(i as int)).0,
            issue_views(issues@) == issue_views(old(issues)@) + components_fold(raw@.take(i as int)).1,
        decreases raw@.len() - i,
    {
        proof {
            assert(raw@.take(i + 1).drop_last() =~= raw@.take(i as int));
            assert(raw@.take(i + 1).last() == raw@[i as int]);
        }
        let ghost before = issue_views(issues@);
        let ghost built = comps@.map_values(|c: Component| component_view(c));
        match build_component(i, &raw[i], &comps, issues) {
            Some(c) => comps.push(c),
            None => {},
        }
        proof {
            assert(comps@.map_values(|c: Component| component_view(c)) =~= components_fold(raw@.take(i + 1)).0);
            assert(issue_views(issues@) =~= issue_views(old(issues)@) + components_fold(raw@.take(i + 1)).1);
        }
        i = i + 1;
    }
    proof {
        assert(raw@.take(i as int) =~= raw@);
    }
    comps
}

/// The most recent built connection with the same endpoints and contract.
pub open spec fn last_same(built: Seq<ConnectionView>, from: Seq<char>, to: Seq<char>, contract: Seq<char>) -> Option<int>
    decreases built.len(),
{
    if built.len() == 0 {
        None
    } else if built.last().from == from && built.last().to == to && built.last().contract == contract {
        Some(built.len() - 1)
    } else {
        last_same(built.drop_last(), from, to, contract)
    }
}

/// The most recent match lies within the list and matches.
proof fn lemma_last_same_bounds(built: Seq<ConnectionView>, from: Seq<char>, to: Seq<char>, contract: Seq<char>)
    ensures
        last_same(built, from, to, contract) matches Some(k) ==> 0 <= k < built.len() && built[k].from
            == from && built[k].to == to && built[k].contract == contract,
    decreases built.len(),
{
    if built.len() > 0 {
        lemma_last_same_bounds(built.drop_last(), from, to, contract);
    }
}

/// The missing-field issue of one required value.
pub open spec fn required_issue(v: Option<Seq<char>>, path: Seq<char>) -> Seq<IssueView> {
    match required(v) {
        Some(_) => Seq::empty(),
        None => seq![missing(path)],
    }
}

/// The delay of a raw connection and its issue.
pub open spec fn delay_of(base: Seq<char>, v: YamlValue) -> (nat, Seq<IssueView>) {
    match delay_decode(v) {
        Ok(t) => (t, Seq::empty()),
        Err(e) => (0, seq![err("invalid-connection-delay"@, base + ".delay"@, e@)]),
    }
}

/// The duplicate issue of a connection against those built before it.
pub open spec fn repeat_issue(base: Seq<char>, c: ConnectionView, built: Seq<ConnectionView>) -> Seq<IssueView> {
    match last_same(built, c.from, c.to, c.contract) {
        None => Seq::empty(),
        Some(k) => seq![
            err(
                if built[k].delay == c.delay {
                    "duplicate-connection"@
                } else {
                    "conflicting-connection-delay"@
                },
                base,
                "duplicate connection or conflicting delay declaration"@,
            ),
        ],
    }
}

/// The structural issues of one raw connection and the connection built from it.
pub open spec fn connection_step(i: nat, raw: RawConnection, built: Seq<ConnectionView>) -> (Option<ConnectionView>, Seq<IssueView>) {
    let base = indexed("spec.connections"@, i, Seq::empty());
    let missing_issues = required_issue(opt_str(raw.from), base + ".from"@) + required_issue(
        opt_str(raw.to),
        base + ".to"@,
    ) + required_issue(opt_str(raw.contract), base + ".contract"@);
    match (required(opt_str(raw.from)), required(opt_str(raw.to)), required(opt_str(raw.contract))) {
        (Some(f), Some(t), Some(c)) => {
            let (delay, delay_issues) = delay_of(base, raw.delay);
            let conn = ConnectionView { from: f, to: t, contract: c, delay };
            (Some(conn), missing_issues + delay_issues + repeat_issue(base, conn, built))
        },
        _ => (None, missing_issues),
    }
}

/// Connections built from a raw list, with their issues.
pub open spec fn connections_fold(raw: Seq<RawConnection>) -> (Seq<ConnectionView>, Seq<IssueView>)
    decreases raw.len(),
{
    if raw.len() == 0 {
        (Seq::empty(), Seq::empty())
    } else {
        let (cs, is) = connections_fold(raw.drop_last());
        let (c, js) = connection_step((raw.len() - 1) as nat, raw.last(), cs);
        (
            match c {
                Some(x) => cs.push(x),
                None => cs,
            },
            is + js,
        )
    }
}

/// The index of the most recent built connection with the same key.
fn find_last_same(built: &Vec<Connection>, from: &String, to: &String, contract: &String) -> (r: Option<usize>)
    ensures
        ({
            let bv = built@.map_values(|c: Connection| connection_view(c));
            match r {
                Some(k) => last_same(bv, from@, to@, contract@) == Some(k as int) && k < built@.len(),
                None => last_same(bv, from@, to@, contract@) is None,
            }
        }),
{
    let ghost bv = built@.map_values(|c: Connection| connection_view(c));
    let mut found: Option<usize> = None;
    let mut k: usize = 0;
    while k < built.len()
        invariant
            k <= built@.len(),
            bv == built@.map_values(|c: Connection| connection_view(c)),
            match last_same(bv.take(k as int), from@, to@, contract@) {
                Some(q) => found == Some(q as usize),
                None => found is None,
            },
        decreases built@.len() - k,
    {
        proof {
            assert(bv.take(k + 1).drop_last() =~= bv.take(k as int));
            assert(bv.take(k + 1).last() == connection_view(built@[k as int]));
        }
        if str_equal(built[k].from.as_str(), from.as_str()) && str_equal(built[k].to.as_str(), to.as_str())
            && str_equal(built[k].contract.as_str(), contract.as_str())
        {
            found = Some(k);
        }
        k = k + 1;
    }
    proof {
        assert(bv.take(k as int) =~= bv);
        lemma_last_same_bounds(bv, from@, to@, contract@);
    }
    found
}

/// Build one connection, recording its issues.
fn build_connection(i: usize, c: &RawConnection, built: &Vec<Connection>, issues: &mut Vec<GraphIssue>) -> (r: Option<Connection>)
    ensures
        ({
            let (x, js) = connection_step(i as nat, *c, built@.map_values(|k: Connection| connection_view(k)));
            &&& issue_views(final(issues)@) == issue_views(old(issues)@) + js
            &&& match x {
                Some(v) => r matches Some(k) && connection_view(k) == v,
                None => r is None,
            }
        }),
{
    let ghost o = issue_views(old(issues)@);
    let base = indexed_path("spec.connections", i, "");
    let pf = concat3(base.as_str(), ".from", "");
    let pt = concat3(base.as_str(), ".to", "");
    let pc = concat3(base.as_str(), ".contract", "");
    proof {
        reveal_strlit("");
        assert(base@ =~= indexed("spec.connections"@, i as nat, Seq::empty()));
        assert(pf@ =~= base@ + ".from"@);
        assert(pt@ =~= base@ + ".to"@);
        assert(pc@ =~= base@ + ".contract"@);
    }
    let from = require(&c.from, pf, issues);
    let ghost a1 = issue_views(issues@);
    let to = require(&c.to, pt, issues);
    let ghost a2 = issue_views(issues@);
    let contract = require(&c.contract, pc, issues);
    let ghost b = base@;
    let ghost miss = required_issue(opt_str(c.from), b + ".from"@) + required_issue(opt_str(c.to), b + ".to"@)
        + required_issue(opt_str(c.contract), b + ".contract"@);
    proof {
        assert(a1 =~= o + required_issue(opt_str(c.from), b + ".from"@));
        assert(a2 =~= a1 + required_issue(opt_str(c.to), b + ".to"@));
        assert(issue_views(issues@) =~= o + miss);
    }
    let (from, to, contract) = match (from, to, contract) {
        (Some(f), Some(t), Some(k)) => (f, t, k),
        _ => {
            return None;
        },
    };
    let ghost s1 = issue_views(issues@);
    let delay = match ConnectionDelay::from_value(&c.delay) {
        Ok(d) => d,
        Err(reason) => {
            let p = concat3(base.as_str(), ".delay", "");
            proof {
                assert(p@ =~= b + ".delay"@);
            }
            error(issues, "invalid-connection-delay", p, reason.to_owned());
            ConnectionDelay::instantaneous()
        },
    };
    let ghost s2 = issue_views(issues@);
    proof {
        assert(s2 =~= s1 + delay_of(b, c.delay).1);
    }
    let ghost bv = built@.map_values(|k: Connection| connection_view(k));
    let ghost cv = ConnectionView { from: from@, to: to@, contract: contract@, delay: delay@ };
    match find_last_same(built, &from, &to, &contract) {
        None => {
            assert(repeat_issue(b, cv, bv) =~= Seq::<IssueView>::empty());
            assert(issue_views(issues@) =~= s2 + repeat_issue(b, cv, bv));
        },
        Some(k) => {
            let same = built[k].delay.same(delay);
            let code = if same {
                "duplicate-connection"
            } else {
                "conflicting-connection-delay"
            };
            proof {
                assert(bv[k as int] == connection_view(built@[k as int]));
                assert(same == (bv[k as int].delay == cv.delay));
                assert(last_same(bv, cv.from, cv.to, cv.contract) == Some(k as int));
                assert(repeat_issue(b, cv, bv) == seq![err(code@, b, "duplicate connection or conflicting delay declaration"@)]);
            }
            let m = "duplicate connection or conflicting delay declaration".to_owned();
            let ghost before = issue_views(issues@);
            error(issues, code, base.clone(), m);
            assert(issue_views(issues@) == before.push(err(code@, b, "duplicate connection or conflicting delay declaration"@)));
            assert(issue_views(issues@) =~= s2 + repeat_issue(b, cv, bv));
        },
    }
    let conn = Connection { from, to, contract, delay };
    proof {
        assert(connection_view(conn) == cv);
        assert(issue_views(issues@) =~= o + (miss + delay_of(b, c.delay).1 + repeat_issue(b, connection_view(conn), bv)));
    }
    Some(conn)
}

/// Build the connections of a raw list.
#[verifier::loop_isolation(false)]
fn build_connections(raw: &Vec<RawConnection>, issues: &mut Vec<GraphIssue>) -> (conns: Vec<Connection>)
    ensures
        conns@.map_values(|c: Connection| connection_view(c)) == connections_fold(raw@).0,
        issue_views(final(issues)@) == issue_views(old(issues)@) + connections_fold(raw@).1,
{
    let mut conns: Vec<Connection> = Vec::new();
    let mut i: usize = 0;
    while i < raw.len()
        invariant
            i <= raw@.len(),
            conns@.map_values(|c: Connection| connection_view(c)) == connections_fold(raw@.take(i as int)).0,
            issue_views(issues@) == issue_views(old(issues)@) + connections_fold(raw@.take(i as int)).1,
        decreases raw@.len() - i,
    {
        proof {
            assert(raw@.take(i + 1).drop_last() =~= raw@.take(i as int));
            assert(raw@.take(i + 1).last() == raw@[i as int]);
        }
        match build_connection(i, &raw[i], &conns, issues) {
            Some(c) => conns.push(c),
            None => {},
        }
        proof {
            assert(conns@.map_values(|c: Connection| connection_view(c)) =~= connections_fold(raw@.take(i + 1)).0);
            assert(issue_views(issues@) =~= issue_views(old(issues)@) + connections_fold(raw@.take(i + 1)).1);
        }
        i = i + 1;
    }
    proof {
        assert(raw@.take(i as int) =~= raw@);
    }
    conns
}

/// The raw node list (empty without a spec).
pub open spec fn raw_nodes(raw: RawDeployment) -> Seq<RawNode> {
    match raw.spec {
        Some(s) => s.nodes@,
        None => Seq::empty(),
    }
}

/// The raw component list (empty without a spec).
pub open spec fn raw_components(raw: RawDeployment) -> Seq<RawComponent> {
    match raw.spec {
        Some(s) => s.components@,
        None => Seq::empty(),
    }
}

/// The raw connection list (empty without a spec).
pub open spec fn raw_connections(raw: RawDeployment) -> Seq<RawConnection> {
    match raw.spec {
        Some(s) => s.connections@,
        None => Seq::empty(),
    }
}

/// The deployment built from a raw document.
pub open spec fn built_deployment(raw: RawDeployment) -> DeploymentView {
    DeploymentView {
        name: header_issues(raw).0,
        profile: match raw.spec {
            Some(s) => opt_str(s.profile),
            None => None,
        },
        nodes: nodes_fold(raw_nodes(raw)).0,
        components: components_fold(raw_components(raw)).0,
        connections: connections_fold(raw_connections(raw)).0,
    }
}

/// The structural issues of a raw document, in the order they are found.
pub open spec fn build_issues(raw: RawDeployment) -> Seq<IssueView> {
    header_issues(raw).1 + nodes_fold(raw_nodes(raw)).1 + components_fold(raw_components(raw)).1
        + connections_fold(raw_connections(raw)).1
}

/// Build a best-effort typed model, collecting structural issues.
pub fn build(raw: &RawDeployment, issues: &mut Vec<GraphIssue>) -> (d: Deployment)
    ensures
        deployment_view(d) == built_deployment(*raw),
        issue_views(final(issues)@) == issue_views(old(issues)@) + build_issues(*raw),
{
    let ghost o = issue_views(old(issues)@);
    let name = build_header(raw, issues);
    let ghost s1 = issue_views(issues@);
    let empty_nodes: Vec<RawNode> = Vec::new();
    let empty_components: Vec<RawComponent> = Vec::new();
    let empty_connections: Vec<RawConnection> = Vec::new();
    let (profile, rn, rc, rx) = match &raw.spec {
        Some(s) => {
            let p = match &s.profile {
                Some(p) => Some(p.clone()),
                None => None,
            };
            (p, &s.nodes, &s.components, &s.connections)
        },
        None => (None, &empty_nodes, &empty_components, &empty_connections),
    };
    proof {
        assert(rn@ == raw_nodes(*raw));
        assert(rc@ == raw_components(*raw));
        assert(rx@ == raw_connections(*raw));
    }
    let nodes = build_nodes(rn, issues);
    let ghost s2 = issue_views(issues@);
    let components = build_components(rc, issues);
    let ghost s3 = issue_views(issues@);
    let connections = build_connections(rx, issues);
    let d = Deployment { name, profile, nodes, components, connections };
    proof {
        assert(issue_views(issues@) =~= o + build_issues(*raw));
        assert(deployment_view(d) == built_deployment(*raw));
    }
    d
}

} // verus!
