//! Content-addressed deployment identity: canonical JSON text of the built
//! deployment (declarations sorted, keys sorted), hashed with SHA-256.
use crate::graph::assemble::{ComponentView, ConnectionView, DeploymentView, NodeView, component_view, connection_view, deployment_view, node_view, strs};
use crate::graph::configuration::{hex_char, ints, push_quoted, quote};
use crate::graph::model::{class_name, role_name, runtime_name, Component, Connection, Deployment, Node};
use crate::graph::registry::{sort_versions, sort_versions_exec, views};
use crate::graph::reorder::{
    canonical_texts, index_lt, key_lt, keyed, lemma_canonical_texts_reorder, lemma_map_multiset, lemma_sort_by_agree,
    lemma_sort_by_indices, lemma_str_lt_order,
};
use crate::record::strmap::{bytes_less, bytes_lt, key_bytes};
use crate::text::{chars_of, decimal_chars, string_from_chars, utf8_bytes};
use sha2::Digest;
use vstd::prelude::*;

verus! {

/// The SHA-256 digest of bytes.
pub uninterp spec fn sha256(data: Seq<u8>) -> Seq<u8>;

/// SHA-256 of bytes (`sha2::Sha256::digest`): the digest, 32 bytes long.
#[verifier::external_body]
pub(crate) fn sha256_digest(data: &[u8]) -> (d: Vec<u8>)
    ensures
        d@ == sha256(data@),
        d@.len() == 32,
{
    sha2::Sha256::digest(data).to_vec()
}

/// A contract reference resolved to a registered schema.
#[derive(Debug, Clone, PartialEq, Eq)]
pub struct ResolvedContract {
    /// Versioned codec computed from the validated schema.
    pub codec_id: String,
    /// Full scalar wire identity.
    pub wire_id: String,
    /// The reference as written in the deployment.
    pub reference: String,
    /// The resolved contract's `namespace/name` identifier.
    pub identifier: String,
    /// The resolved version.
    pub version: String,
    /// The resolved `sha256:` schema identity.
    pub schema_id: String,
}

/// Lowercase hexadecimal text of bytes.
pub open spec fn hex_text(bytes: Seq<u8>) -> Seq<char>
    decreases bytes.len(),
{
    if bytes.len() == 0 {
        Seq::empty()
    } else {
        hex_text(bytes.drop_last()) + seq![
            hex_char((bytes.last() / 16) as nat),
            hex_char((bytes.last() % 16) as nat),
        ]
    }
}

/// Insert index `j` before the first index it sorts strictly before.
pub open spec fn insert_by(less: spec_fn(int, int) -> bool, order: Seq<int>, j: int) -> Seq<int>
    decreases order.len(),
{
    if order.len() == 0 {
        seq![j]
    } else if less(j, order[0]) {
        seq![j] + order
    } else {
        seq![order[0]] + insert_by(less, order.drop_first(), j)
    }
}

/// The first `n` indices in stable sorted order.
pub open spec fn sort_by(less: spec_fn(int, int) -> bool, n: nat) -> Seq<int>
    decreases n,
{
    if n == 0 {
        Seq::empty()
    } else {
        insert_by(less, sort_by(less, (n - 1) as nat), n - 1)
    }
}

/// Inserting before the first later index is inserting at that position.
proof fn lemma_insert_by_at(less: spec_fn(int, int) -> bool, order: Seq<int>, j: int, p: int)
    requires
        0 <= p <= order.len(),
        forall|q: int| 0 <= q < p ==> !less(j, #[trigger] order[q]),
        p < order.len() ==> less(j, order[p]),
    ensures
        insert_by(less, order, j) == order.take(p) + seq![j] + order.skip(p),
    decreases order.len(),
{
    if order.len() == 0 {
        assert(order.take(p) + seq![j] + order.skip(p) =~= seq![j]);
    } else if p == 0 {
        assert(order.take(p) + seq![j] + order.skip(p) =~= seq![j] + order);
    } else {
        assert(!less(j, order[0]));
        assert forall|q: int| 0 <= q < p - 1 implies !less(j, #[trigger] order.drop_first()[q]) by {
            assert(order.drop_first()[q] == order[q + 1]);
        }
        lemma_insert_by_at(less, order.drop_first(), j, p - 1);
        assert(order.take(p) + seq![j] + order.skip(p) =~= seq![order[0]] + (order.drop_first().take(p - 1) + seq![j] + order.drop_first().skip(p - 1)));
    }
}

/// Whether string `a` sorts strictly before `b`.
pub open spec fn str_lt(a: Seq<char>, b: Seq<char>) -> bool {
    bytes_lt(key_bytes(a), key_bytes(b))
}

/// Node order: by name.
pub open spec fn node_less(ns: Seq<NodeView>) -> spec_fn(int, int) -> bool {
    |a: int, b: int| str_lt(ns[a].name, ns[b].name)
}

/// Component order: by name.
pub open spec fn component_less(cs: Seq<ComponentView>) -> spec_fn(int, int) -> bool {
    |a: int, b: int| str_lt(cs[a].name, cs[b].name)
}

/// Connection order: by producer, consumer, then contract.
pub open spec fn connection_less(cs: Seq<ConnectionView>) -> spec_fn(int, int) -> bool {
    |a: int, b: int|
        str_lt(cs[a].from, cs[b].from) || (cs[a].from == cs[b].from && (str_lt(cs[a].to, cs[b].to) || (
        cs[a].to == cs[b].to && str_lt(cs[a].contract, cs[b].contract))))
}

/// A JSON array of texts.
pub open spec fn json_array(items: Seq<Seq<char>>) -> Seq<char> {
    seq!['['] + join_commas(items) + seq![']']
}

/// Comma-separated texts.
pub open spec fn join_commas(items: Seq<Seq<char>>) -> Seq<char>
    decreases items.len(),
{
    if items.len() == 0 {
        Seq::empty()
    } else if items.len() == 1 {
        items[0]
    } else {
        join_commas(items.drop_last()) + seq![','] + items.last()
    }
}

/// A `"key":` prefix.
pub open spec fn key(k: Seq<char>) -> Seq<char> {
    quote(k) + seq![':']
}

/// The text of a node.
pub open spec fn node_text(n: NodeView) -> Seq<char> {
    seq!['{'] + key("name"@) + quote(n.name) + seq![','] + key("target"@) + quote(n.target) + seq!['}']
}

/// The text of a component.
pub open spec fn component_text(c: ComponentView) -> Seq<char> {
    seq!['{'] + key("configuration"@) + c.configuration + seq![','] + key("executionClass"@) + quote(
        class_name(c.class),
    ) + seq![','] + key("name"@) + quote(c.name) + seq![','] + key("node"@) + quote(c.node) + seq![',']
        + key("provides"@) + json_array(sort_versions(c.provides).map_values(|s: Seq<char>| quote(s)))
        + seq![','] + key("requires"@) + json_array(
        sort_versions(c.requires).map_values(|s: Seq<char>| quote(s)),
    ) + seq![','] + key("role"@) + quote(role_name(c.role)) + seq![','] + key("runtime"@) + quote(
        runtime_name(c.runtime),
    ) + seq!['}']
}

/// The text of a delay.
pub open spec fn delay_text(ticks: nat) -> Seq<char> {
    if ticks == 0 {
        quote("instantaneous"@)
    } else {
        seq!['{'] + key("initialization"@) + quote("require-seed"@) + seq![','] + key("ticks"@)
            + decimal_chars(ticks) + seq![','] + key("unit"@) + quote("evaluation-ticks"@) + seq!['}']
    }
}

/// The text of a connection; delays are included when any edge is delayed.
pub open spec fn connection_text(c: ConnectionView, delayed: bool) -> Seq<char> {
    seq!['{'] + key("contract"@) + quote(c.contract) + seq![','] + if delayed {
        key("delay"@) + delay_text(c.delay) + seq![',']
    } else {
        Seq::empty()
    } + key("from"@) + quote(c.from) + seq![','] + key("to"@) + quote(c.to) + seq!['}']
}

/// Whether any connection is delayed.
pub open spec fn any_delay(d: DeploymentView) -> bool {
    exists|k: int| 0 <= k < d.connections.len() && d.connections[k].delay != 0
}

/// The canonical text of a deployment.
pub open spec fn deployment_text(d: DeploymentView) -> Seq<char> {
    let nodes = sort_by(node_less(d.nodes), d.nodes.len()).map_values(|i: int| node_text(d.nodes[i]));
    let comps = sort_by(component_less(d.components), d.components.len()).map_values(
        |i: int| component_text(d.components[i]),
    );
    let conns = sort_by(connection_less(d.connections), d.connections.len()).map_values(
        |i: int| connection_text(d.connections[i], any_delay(d)),
    );
    seq!['{'] + key("components"@) + json_array(comps) + seq![','] + key("connections"@) + json_array(conns)
        + seq![','] + key("name"@) + quote(d.name) + seq![','] + key("nodes"@) + json_array(nodes) + seq![',']
        + key("profile"@) + match d.profile {
        Some(p) => quote(p),
        None => "null"@,
    } + seq!['}']
}

/// The identity version label.
pub open spec fn identity_version(d: DeploymentView, kind: Seq<char>) -> Seq<char> {
    "neuradix.deployment."@ + kind + ".v"@ + if any_delay(d) {
        "3"@
    } else {
        "2"@
    }
}

/// Whether text is lowercase hexadecimal digits, two per byte.
pub open spec fn lower_hex(h: Seq<char>) -> bool {
    &&& h.len() % 2 == 0
    &&& forall|i: int| #![trigger h[i]] 0 <= i < h.len() ==> exists|d: nat| d < 16 && #[trigger] hex_char(d) == h[i]
}

/// The hexadecimal text of bytes is lowercase digits, two per byte.
pub proof fn lemma_hex_text(bytes: Seq<u8>)
    ensures
        lower_hex(hex_text(bytes)),
        hex_text(bytes).len() == 2 * bytes.len(),
    decreases bytes.len(),
{
    if bytes.len() > 0 {
        lemma_hex_text(bytes.drop_last());
        let prev = hex_text(bytes.drop_last());
        let hi = (bytes.last() / 16) as nat;
        let lo = (bytes.last() % 16) as nat;
        let h = hex_text(bytes);
        assert(h == prev + seq![hex_char(hi), hex_char(lo)]);
        assert forall|i: int| #![trigger h[i]] 0 <= i < h.len() implies exists|d: nat| d < 16 && #[trigger] hex_char(d) == h[i] by {
            if i < prev.len() {
                assert(h[i] == prev[i]);
            } else if i == prev.len() {
                assert(h[i] == hex_char(hi));
            } else {
                assert(h[i] == hex_char(lo));
            }
        }
    }
}

/// A versioned SHA-256 identity of canonical text.
pub open spec fn identity_of(version: Seq<char>, text: Seq<char>) -> Seq<char> {
    version + ":sha256:"@ + hex_text(sha256(utf8_bytes(text)))
}

/// The canonical text hashed into the declared-content identity.
pub open spec fn declared_text(d: DeploymentView) -> Seq<char> {
    let v = identity_version(d, "declared"@);
    seq!['{'] + key("deployment"@) + deployment_text(d) + seq![','] + key("identityVersion"@) + quote(v) + seq!['}']
}

/// The declared-content identity of a deployment.
pub open spec fn declared_identity(d: DeploymentView) -> Seq<char> {
    identity_of(identity_version(d, "declared"@), declared_text(d))
}

/// Both identities are their version, `:sha256:` and lowercase hexadecimal digits.
pub proof fn lemma_identity_shapes(d: DeploymentView, bindings: Seq<BindingView>)
    ensures
        exists|h: Seq<char>| #[trigger] lower_hex(h) && declared_identity(d) == identity_version(d, "declared"@) + ":sha256:"@ + h,
        exists|h: Seq<char>| #[trigger] lower_hex(h) && resolved_identity(d, bindings) == identity_version(d, "resolved"@) + ":sha256:"@
            + h,
{
    let v = identity_version(d, "declared"@);
    let t = seq!['{'] + key("deployment"@) + deployment_text(d) + seq![','] + key("identityVersion"@) + quote(v) + seq!['}'];
    lemma_hex_text(sha256(utf8_bytes(t)));
    assert(declared_identity(d) == v + ":sha256:"@ + hex_text(sha256(utf8_bytes(t))));
    let w = identity_version(d, "resolved"@);
    let u = seq!['{'] + key("contracts"@) + json_array(bindings.map_values(|b: BindingView| binding_text(b))) + seq![',']
        + key("deployment"@) + deployment_text(d) + seq![','] + key("identityVersion"@) + quote(w) + seq!['}'];
    lemma_hex_text(sha256(utf8_bytes(u)));
    assert(resolved_identity(d, bindings) == w + ":sha256:"@ + hex_text(sha256(utf8_bytes(u))));
}

/// Declarations whose canonical order is unambiguous: node names and component
/// names are unique, and connections with the same producer, consumer and
/// contract have the same delay.
pub open spec fn canonically_keyed(d: DeploymentView) -> bool {
    &&& forall|i: int, j: int| 0 <= i < j < d.nodes.len() ==> d.nodes[i].name != d.nodes[j].name
    &&& forall|i: int, j: int| 0 <= i < j < d.components.len() ==> d.components[i].name != d.components[j].name
    &&& forall|i: int, j: int|
        0 <= i < d.connections.len() && 0 <= j < d.connections.len() && d.connections[i].from == d.connections[j].from
            && d.connections[i].to == d.connections[j].to && d.connections[i].contract == d.connections[j].contract
            ==> d.connections[i].delay == d.connections[j].delay
}

/// The same deployment with its nodes, components and connections written in
/// another order.
pub open spec fn reordering(d1: DeploymentView, d2: DeploymentView) -> bool {
    &&& d1.name == d2.name
    &&& d1.profile == d2.profile
    &&& d1.nodes.to_multiset() == d2.nodes.to_multiset()
    &&& d1.components.to_multiset() == d2.components.to_multiset()
    &&& d1.connections.to_multiset() == d2.connections.to_multiset()
}

proof fn lemma_list_reorder<T>(
    xs1: Seq<T>,
    xs2: Seq<T>,
    key: spec_fn(T) -> (Seq<char>, Seq<char>, Seq<char>),
    text: spec_fn(T) -> Seq<char>,
    less1: spec_fn(int, int) -> bool,
    less2: spec_fn(int, int) -> bool,
)
    requires
        xs1.to_multiset() == xs2.to_multiset(),
        forall|i: int, j: int| 0 <= i < xs1.len() && 0 <= j < xs1.len() && key(xs1[i]) == key(xs1[j]) ==> text(xs1[i])
            == text(xs1[j]),
        forall|i: int, j: int| 0 <= i < xs2.len() && 0 <= j < xs2.len() && key(xs2[i]) == key(xs2[j]) ==> text(xs2[i])
            == text(xs2[j]),
        forall|a: int, b: int| 0 <= a < xs1.len() && 0 <= b < xs1.len() ==> #[trigger] less1(a, b) == key_lt(key(xs1[a]), key(xs1[b])),
        forall|a: int, b: int| 0 <= a < xs2.len() && 0 <= b < xs2.len() ==> #[trigger] less2(a, b) == key_lt(key(xs2[a]), key(xs2[b])),
    ensures
        sort_by(less1, xs1.len()).map_values(|i: int| text(xs1[i])) == sort_by(less2, xs2.len()).map_values(
            |i: int| text(xs2[i]),
        ),
{
    broadcast use vstd::multiset::group_multiset_axioms, vstd::seq_lib::group_to_multiset_ensures;
    let k1 = xs1.map_values(key);
    let t1 = xs1.map_values(text);
    let k2 = xs2.map_values(key);
    let t2 = xs2.map_values(text);
    let n1 = xs1.len();
    let n2 = xs2.len();
    assert(n1 == xs1.to_multiset().len() && n2 == xs2.to_multiset().len());
    assert forall|a: int, b: int| 0 <= a < n1 && 0 <= b < n1 implies #[trigger] less1(a, b) == #[trigger] index_lt(k1)(a, b) by {}
    assert forall|a: int, b: int| 0 <= a < n2 && 0 <= b < n2 implies #[trigger] less2(a, b) == #[trigger] index_lt(k2)(a, b) by {}
    lemma_sort_by_agree(less1, index_lt(k1), n1);
    lemma_sort_by_agree(less2, index_lt(k2), n2);
    let pair = |x: T| (key(x), text(x));
    assert(keyed(k1, t1) =~= xs1.map_values(pair));
    assert(keyed(k2, t2) =~= xs2.map_values(pair));
    lemma_map_multiset(xs1, xs2, pair);
    lemma_canonical_texts_reorder(k1, t1, k2, t2);
    lemma_sort_by_indices(less1, n1);
    lemma_sort_by_indices(less2, n2);
    assert(sort_by(less1, n1).map_values(|i: int| text(xs1[i])) =~= canonical_texts(k1, t1));
    assert(sort_by(less2, n2).map_values(|i: int| text(xs2[i])) =~= canonical_texts(k2, t2));
}

/// The declared identity of a deployment does not depend on the order in which
/// its nodes, components and connections are written (given unambiguous keys).
pub proof fn law_declared_identity_ignores_order(d1: DeploymentView, d2: DeploymentView)
    requires
        reordering(d1, d2),
        canonically_keyed(d1),
        canonically_keyed(d2),
    ensures
        declared_identity(d1) == declared_identity(d2),
{
    broadcast use vstd::multiset::group_multiset_axioms, vstd::seq_lib::group_to_multiset_ensures;
    let e = Seq::<char>::empty();
    lemma_str_lt_order(e, e, e);
    assert(any_delay(d1) == any_delay(d2)) by {
        if any_delay(d1) {
            let k = choose|k: int| 0 <= k < d1.connections.len() && d1.connections[k].delay != 0;
            assert(d1.connections.to_multiset().contains(d1.connections[k]));
            assert(d2.connections.to_multiset().contains(d1.connections[k]));
        }
        if any_delay(d2) {
            let k = choose|k: int| 0 <= k < d2.connections.len() && d2.connections[k].delay != 0;
            assert(d2.connections.to_multiset().contains(d2.connections[k]));
            assert(d1.connections.to_multiset().contains(d2.connections[k]));
        }
    }
    let delayed = any_delay(d1);
    lemma_list_reorder(
        d1.nodes,
        d2.nodes,
        |n: NodeView| (n.name, e, e),
        |n: NodeView| node_text(n),
        node_less(d1.nodes),
        node_less(d2.nodes),
    );
    lemma_list_reorder(
        d1.components,
        d2.components,
        |c: ComponentView| (c.name, e, e),
        |c: ComponentView| component_text(c),
        component_less(d1.components),
        component_less(d2.components),
    );
    lemma_list_reorder(
        d1.connections,
        d2.connections,
        |c: ConnectionView| (c.from, c.to, c.contract),
        |c: ConnectionView| connection_text(c, delayed),
        connection_less(d1.connections),
        connection_less(d2.connections),
    );
    assert(sort_by(node_less(d1.nodes), d1.nodes.len()).map_values(|i: int| node_text(d1.nodes[i])) =~= sort_by(
        node_less(d1.nodes),
        d1.nodes.len(),
    ).map_values(|i: int| (|n: NodeView| node_text(n))(d1.nodes[i])));
    assert(sort_by(node_less(d2.nodes), d2.nodes.len()).map_values(|i: int| node_text(d2.nodes[i])) =~= sort_by(
        node_less(d2.nodes),
        d2.nodes.len(),
    ).map_values(|i: int| (|n: NodeView| node_text(n))(d2.nodes[i])));
    assert(sort_by(component_less(d1.components), d1.components.len()).map_values(
        |i: int| component_text(d1.components[i]),
    ) =~= sort_by(component_less(d1.components), d1.components.len()).map_values(
        |i: int| (|c: ComponentView| component_text(c))(d1.components[i]),
    ));
    assert(sort_by(component_less(d2.components), d2.components.len()).map_values(
        |i: int| component_text(d2.components[i]),
    ) =~= sort_by(component_less(d2.components), d2.components.len()).map_values(
        |i: int| (|c: ComponentView| component_text(c))(d2.components[i]),
    ));
    assert(sort_by(connection_less(d1.connections), d1.connections.len()).map_values(
        |i: int| connection_text(d1.connections[i], any_delay(d1)),
    ) =~= sort_by(connection_less(d1.connections), d1.connections.len()).map_values(
        |i: int| (|c: ConnectionView| connection_text(c, delayed))(d1.connections[i]),
    ));
    assert(sort_by(connection_less(d2.connections), d2.connections.len()).map_values(
        |i: int| connection_text(d2.connections[i], any_delay(d2)),
    ) =~= sort_by(connection_less(d2.connections), d2.connections.len()).map_values(
        |i: int| (|c: ConnectionView| connection_text(c, delayed))(d2.connections[i]),
    ));
    assert(deployment_text(d1) == deployment_text(d2));
    assert(identity_version(d1, "declared"@) == identity_version(d2, "declared"@));
}

/// The view of a resolved contract binding.
pub struct BindingView {
    /// Codec identity.
    pub codec_id: Seq<char>,
    /// Wire identity.
    pub wire_id: Seq<char>,
    /// The reference.
    pub reference: Seq<char>,
    /// Identifier.
    pub identifier: Seq<char>,
    /// Version.
    pub version: Seq<char>,
    /// Schema identity.
    pub schema_id: Seq<char>,
}

/// The view of a resolved contract.
pub open spec fn binding_view(r: ResolvedContract) -> BindingView {
    BindingView {
        codec_id: r.codec_id@,
        wire_id: r.wire_id@,
        reference: r.reference@,
        identifier: r.identifier@,
        version: r.version@,
        schema_id: r.schema_id@,
    }
}

/// The text of a binding.
pub open spec fn binding_text(b: BindingView) -> Seq<char> {
    seq!['{'] + key("codecId"@) + quote(b.codec_id) + seq![','] + key("identifier"@) + quote(b.identifier)
        + seq![','] + key("reference"@) + quote(b.reference) + seq![','] + key("schemaId"@) + quote(
        b.schema_id,
    ) + seq![','] + key("version"@) + quote(b.version) + seq![','] + key("wireId"@) + quote(b.wire_id)
        + seq!['}']
}

/// The canonical text hashed into the resolved identity.
pub open spec fn resolved_text(d: DeploymentView, bindings: Seq<BindingView>) -> Seq<char> {
    let v = identity_version(d, "resolved"@);
    seq!['{'] + key("contracts"@) + json_array(bindings.map_values(|b: BindingView| binding_text(b))) + seq![',']
        + key("deployment"@) + deployment_text(d) + seq![','] + key("identityVersion"@) + quote(v) + seq!['}']
}

/// The resolved identity of a deployment and its bindings.
pub open spec fn resolved_identity(d: DeploymentView, bindings: Seq<BindingView>) -> Seq<char> {
    identity_of(identity_version(d, "resolved"@), resolved_text(d, bindings))
}

/// Append the characters of a string slice.
pub(crate) fn push_lit(out: &mut Vec<char>, s: &str)
    ensures
        final(out)@ == old(out)@ + s@,
{
    let cs = chars_of(s);
    let mut i: usize = 0;
    while i < cs.len()
        invariant
            i <= cs@.len(),
            cs@ == s@,
            out@ == old(out)@ + s@.take(i as int),
        decreases cs@.len() - i,
    {
        out.push(cs[i]);
        i = i + 1;
        assert(out@ =~= old(out)@ + s@.take(i as int));
    }
    assert(s@.take(i as int) =~= s@);
}

/// Append `"key":`.
fn push_key(out: &mut Vec<char>, k: &str)
    ensures
        final(out)@ == old(out)@ + key(k@),
{
    push_quoted(out, k);
    out.push(':');
    assert(final(out)@ =~= old(out)@ + key(k@));
}

/// Whether node `a` sorts strictly before node `b`.
fn node_before(ns: &Vec<Node>, a: usize, b: usize) -> (r: bool)
    requires
        a < ns@.len(),
        b < ns@.len(),
    ensures
        r == (node_less(ns@.map_values(|n: Node| node_view(n))))(a as int, b as int),
{
    broadcast use vstd::utf8::group_utf8_lib;
    bytes_less(ns[a].name.as_str().as_bytes(), ns[b].name.as_str().as_bytes())
}

/// Node indices sorted by name (stable).
fn node_order(ns: &Vec<Node>) -> (order: Vec<usize>)
    ensures
        ints(order@) == sort_by(node_less(ns@.map_values(|n: Node| node_view(n))), ns@.len()),
        forall|q: int| 0 <= q < order@.len() ==> #[trigger] order@[q] < ns@.len(),
{
    let ghost less = node_less(ns@.map_values(|n: Node| node_view(n)));
    let mut order: Vec<usize> = Vec::new();
    let mut j: usize = 0;
    while j < ns.len()
        invariant
            j <= ns@.len(),
            less == node_less(ns@.map_values(|n: Node| node_view(n))),
            ints(order@) == sort_by(less, j as nat),
            order@.len() == j,
            forall|q: int| 0 <= q < order@.len() ==> #[trigger] order@[q] < j,
        decreases ns@.len() - j,
    {
        let mut p: usize = 0;
        while p < order.len() && !node_before(ns, j, order[p])
            invariant
                p <= order@.len(),
                j < ns@.len(),
                less == node_less(ns@.map_values(|n: Node| node_view(n))),
                forall|q: int| 0 <= q < order@.len() ==> #[trigger] order@[q] < j,
                forall|q: int| 0 <= q < p ==> !less(j as int, #[trigger] ints(order@)[q]),
            decreases order@.len() - p,
        {
            p = p + 1;
        }
        proof {
            lemma_insert_by_at(less, ints(order@), j as int, p as int);
        }
        let ghost before = order@;
        order.insert(p, j);
        proof {
            assert(ints(order@) =~= ints(before).take(p as int) + seq![j as int] + ints(before).skip(p as int));
            assert forall|q: int| 0 <= q < order@.len() implies #[trigger] order@[q] < j + 1 by {
                if q < p {
                    assert(order@[q] == before[q]);
                } else if q > p {
                    assert(order@[q] == before[q - 1]);
                }
            }
        }
        j = j + 1;
    }
    order
}

/// Whether component `a` sorts strictly before component `b`.
fn component_before(cs: &Vec<Component>, a: usize, b: usize) -> (r: bool)
    requires
        a < cs@.len(),
        b < cs@.len(),
    ensures
        r == (component_less(cs@.map_values(|c: Component| component_view(c))))(a as int, b as int),
{
    broadcast use vstd::utf8::group_utf8_lib;
    bytes_less(cs[a].name.as_str().as_bytes(), cs[b].name.as_str().as_bytes())
}

/// Component indices sorted by name (stable).
fn component_order(cs: &Vec<Component>) -> (order: Vec<usize>)
    ensures
        ints(order@) == sort_by(component_less(cs@.map_values(|c: Component| component_view(c))), cs@.len()),
        forall|q: int| 0 <= q < order@.len() ==> #[trigger] order@[q] < cs@.len(),
{
    let ghost less = component_less(cs@.map_values(|c: Component| component_view(c)));
    let mut order: Vec<usize> = Vec::new();
    let mut j: usize = 0;
    while j < cs.len()
        invariant
            j <= cs@.len(),
            less == component_less(cs@.map_values(|c: Component| component_view(c))),
            ints(order@) == sort_by(less, j as nat),
            order@.len() == j,
            forall|q: int| 0 <= q < order@.len() ==> #[trigger] order@[q] < j,
        decreases cs@.len() - j,
    {
        let mut p: usize = 0;
        while p < order.len() && !component_before(cs, j, order[p])
            invariant
                p <= order@.len(),
                j < cs@.len(),
                less == component_less(cs@.map_values(|c: Component| component_view(c))),
                forall|q: int| 0 <= q < order@.len() ==> #[trigger] order@[q] < j,
                forall|q: int| 0 <= q < p ==> !less(j as int, #[trigger] ints(order@)[q]),
            decreases order@.len() - p,
        {
            p = p + 1;
        }
        proof {
            lemma_insert_by_at(less, ints(order@), j as int, p as int);
        }
        let ghost before = order@;
        order.insert(p, j);
        proof {
            assert(ints(order@) =~= ints(before).take(p as int) + seq![j as int] + ints(before).skip(p as int));
            assert forall|q: int| 0 <= q < order@.len() implies #[trigger] order@[q] < j + 1 by {
                if q < p {
                    assert(order@[q] == before[q]);
                } else if q > p {
                    assert(order@[q] == before[q - 1]);
                }
            }
        }
        j = j + 1;
    }
    order
}

/// Whether connection `a` sorts strictly before connection `b`.
fn connection_before(cs: &Vec<Connection>, a: usize, b: usize) -> (r: bool)
    requires
        a < cs@.len(),
        b < cs@.len(),
    ensures
        r == (connection_less(cs@.map_values(|c: Connection| connection_view(c))))(a as int, b as int),
{
    broadcast use vstd::utf8::group_utf8_lib;
    let x = &cs[a];
    let y = &cs[b];
    if bytes_less(x.from.as_str().as_bytes(), y.from.as_str().as_bytes()) {
        return true;
    }
    if !crate::text::str_equal(x.from.as_str(), y.from.as_str()) {
        return false;
    }
    if bytes_less(x.to.as_str().as_bytes(), y.to.as_str().as_bytes()) {
        return true;
    }
    if !crate::text::str_equal(x.to.as_str(), y.to.as_str()) {
        return false;
    }
    bytes_less(x.contract.as_str().as_bytes(), y.contract.as_str().as_bytes())
}

/// Connection indices sorted by producer, consumer and contract (stable).
fn connection_order(cs: &Vec<Connection>) -> (order: Vec<usize>)
    ensures
        ints(order@) == sort_by(connection_less(cs@.map_values(|c: Connection| connection_view(c))), cs@.len()),
        forall|q: int| 0 <= q < order@.len() ==> #[trigger] order@[q] < cs@.len(),
{
    let ghost less = connection_less(cs@.map_values(|c: Connection| connection_view(c)));
    let mut order: Vec<usize> = Vec::new();
    let mut j: usize = 0;
    while j < cs.len()
        invariant
            j <= cs@.len(),
            less == connection_less(cs@.map_values(|c: Connection| connection_view(c))),
            ints(order@) == sort_by(less, j as nat),
            order@.len() == j,
            forall|q: int| 0 <= q < order@.len() ==> #[trigger] order@[q] < j,
        decreases cs@.len() - j,
    {
        let mut p: usize = 0;
        while p < order.len() && !connection_before(cs, j, order[p])
            invariant
                p <= order@.len(),
                j < cs@.len(),
                less == connection_less(cs@.map_values(|c: Connection| connection_view(c))),
                forall|q: int| 0 <= q < order@.len() ==> #[trigger] order@[q] < j,
                forall|q: int| 0 <= q < p ==> !less(j as int, #[trigger] ints(order@)[q]),
            decreases order@.len() - p,
        {
            p = p + 1;
        }
        proof {
            lemma_insert_by_at(less, ints(order@), j as int, p as int);
        }
        let ghost before = order@;
        order.insert(p, j);
        proof {
            assert(ints(order@) =~= ints(before).take(p as int) + seq![j as int] + ints(before).skip(p as int));
            assert forall|q: int| 0 <= q < order@.len() implies #[trigger] order@[q] < j + 1 by {
                if q < p {
                    assert(order@[q] == before[q]);
                } else if q > p {
                    assert(order@[q] == before[q - 1]);
                }
            }
        }
        j = j + 1;
    }
    order
}

/// Append a node object.
fn node_json(out: &mut Vec<char>, n: &Node)
    ensures
        final(out)@ == old(out)@ + node_text(node_view(*n)),
{
    out.push('{');
    push_key(out, "name");
    push_quoted(out, n.name.as_str());
    out.push(',');
    push_key(out, "target");
    push_quoted(out, n.target.as_str());
    out.push('}');
    assert(final(out)@ =~= old(out)@ + node_text(node_view(*n)));
}

/// Append a sorted array of quoted strings.
fn string_array(out: &mut Vec<char>, v: &Vec<String>)
    ensures
        final(out)@ == old(out)@ + json_array(sort_versions(strs(v@)).map_values(|s: Seq<char>| quote(s))),
{
    let mut copy: Vec<String> = Vec::new();
    let mut k: usize = 0;
    while k < v.len()
        invariant
            k <= v@.len(),
            copy@.len() == k,
            forall|q: int| 0 <= q < k ==> #[trigger] copy@[q]@ == v@[q]@,
        decreases v@.len() - k,
    {
        copy.push(v[k].clone());
        k = k + 1;
    }
    assert(views(copy@) =~= strs(v@));
    let sorted = sort_versions_exec(copy);
    let ghost items = sort_versions(strs(v@)).map_values(|s: Seq<char>| quote(s));
    out.push('[');
    let ghost start = out@;
    let mut i: usize = 0;
    while i < sorted.len()
        invariant
            i <= sorted@.len(),
            views(sorted@) == sort_versions(strs(v@)),
            items == sort_versions(strs(v@)).map_values(|s: Seq<char>| quote(s)),
            out@ == start + join_commas(items.take(i as int)),
        decreases sorted@.len() - i,
    {
        proof {
            assert(items.take(i + 1).drop_last() =~= items.take(i as int));
            assert(items.take(i + 1).last() == quote(sorted@[i as int]@));
        }
        if i > 0 {
            out.push(',');
        }
        push_quoted(out, sorted[i].as_str());
        i = i + 1;
        assert(out@ =~= start + join_commas(items.take(i as int)));
    }
    out.push(']');
    assert(items.take(i as int) =~= items);
    assert(final(out)@ =~= old(out)@ + json_array(items));
}

/// Append one character.
fn push_char(out: &mut Vec<char>, c: char)
    ensures
        final(out)@ == old(out)@ + seq![c],
{
    out.push(c);
    assert(final(out)@ =~= old(out)@ + seq![c]);
}

/// Appending a piece to a text built so far extends its accumulated suffix.
proof fn lemma_extend(o: Seq<char>, acc: Seq<char>, piece: Seq<char>, prev: Seq<char>, cur: Seq<char>)
    requires
        prev == o + acc,
        cur == prev + piece,
    ensures
        cur == o + (acc + piece),
{
    vstd::seq_lib::lemma_concat_associative(o, acc, piece);
}

/// Append a component object.
fn component_json(out: &mut Vec<char>, c: &Component)
    ensures
        final(out)@ == old(out)@ + component_text(component_view(*c)),
{
    let ghost cv = component_view(*c);
    let ghost o = old(out)@;
    push_char(out, '{');
    let ghost mut acc = seq!['{'];
    assert(out@ == o + acc);
    let ghost prev = out@;
    push_key(out, "configuration");
    proof { lemma_extend(o, acc, key("configuration"@), prev, out@); acc = acc + key("configuration"@); }
    let ghost prev = out@;
    push_lit(out, c.configuration.canonical_json());
    proof { lemma_extend(o, acc, cv.configuration, prev, out@); acc = acc + cv.configuration; }
    let ghost prev = out@;
    push_char(out, ',');
    proof { lemma_extend(o, acc, seq![','], prev, out@); acc = acc + seq![',']; }
    let ghost prev = out@;
    push_key(out, "executionClass");
    proof { lemma_extend(o, acc, key("executionClass"@), prev, out@); acc = acc + key("executionClass"@); }
    let ghost prev = out@;
    push_quoted(out, c.execution_class.as_str());
    proof { lemma_extend(o, acc, quote(class_name(cv.class)), prev, out@); acc = acc + quote(class_name(cv.class)); }
    let ghost prev = out@;
    push_char(out, ',');
    proof { lemma_extend(o, acc, seq![','], prev, out@); acc = acc + seq![',']; }
    let ghost prev = out@;
    push_key(out, "name");
    proof { lemma_extend(o, acc, key("name"@), prev, out@); acc = acc + key("name"@); }
    let ghost prev = out@;
    push_quoted(out, c.name.as_str());
    proof { lemma_extend(o, acc, quote(cv.name), prev, out@); acc = acc + quote(cv.name); }
    let ghost prev = out@;
    push_char(out, ',');
    proof { lemma_extend(o, acc, seq![','], prev, out@); acc = acc + seq![',']; }
    let ghost prev = out@;
    push_key(out, "node");
    proof { lemma_extend(o, acc, key("node"@), prev, out@); acc = acc + key("node"@); }
    let ghost prev = out@;
    push_quoted(out, c.node.as_str());
    proof { lemma_extend(o, acc, quote(cv.node), prev, out@); acc = acc + quote(cv.node); }
    let ghost prev = out@;
    push_char(out, ',');
    proof { lemma_extend(o, acc, seq![','], prev, out@); acc = acc + seq![',']; }
    let ghost prev = out@;
    push_key(out, "provides");
    proof { lemma_extend(o, acc, key("provides"@), prev, out@); acc = acc + key("provides"@); }
    let ghost prev = out@;
    string_array(out, &c.provides);
    proof { lemma_extend(o, acc, json_array(sort_versions(cv.provides).map_values(|s: Seq<char>| quote(s))), prev, out@); acc = acc + json_array(sort_versions(cv.provides).map_values(|s: Seq<char>| quote(s))); }
    let ghost prev = out@;
    push_char(out, ',');
    proof { lemma_extend(o, acc, seq![','], prev, out@); acc = acc + seq![',']; }
    let ghost prev = out@;
    push_key(out, "requires");
    proof { lemma_extend(o, acc, key("requires"@), prev, out@); acc = acc + key("requires"@); }
    let ghost prev = out@;
    string_array(out, &c.requires);
    proof { lemma_extend(o, acc, json_array(sort_versions(cv.requires).map_values(|s: Seq<char>| quote(s))), prev, out@); acc = acc + json_array(sort_versions(cv.requires).map_values(|s: Seq<char>| quote(s))); }
    let ghost prev = out@;
    push_char(out, ',');
    proof { lemma_extend(o, acc, seq![','], prev, out@); acc = acc + seq![',']; }
    let ghost prev = out@;
    push_key(out, "role");
    proof { lemma_extend(o, acc, key("role"@), prev, out@); acc = acc + key("role"@); }
    let ghost prev = out@;
    push_quoted(out, c.role.as_str());
    proof { lemma_extend(o, acc, quote(role_name(cv.role)), prev, out@); acc = acc + quote(role_name(cv.role)); }
    let ghost prev = out@;
    push_char(out, ',');
    proof { lemma_extend(o, acc, seq![','], prev, out@); acc = acc + seq![',']; }
    let ghost prev = out@;
    push_key(out, "runtime");
    proof { lemma_extend(o, acc, key("runtime"@), prev, out@); acc = acc + key("runtime"@); }
    let ghost prev = out@;
    push_quoted(out, c.runtime.as_str());
    proof { lemma_extend(o, acc, quote(runtime_name(cv.runtime)), prev, out@); acc = acc + quote(runtime_name(cv.runtime)); }
    let ghost prev = out@;
    push_char(out, '}');
    proof { lemma_extend(o, acc, seq!['}'], prev, out@); acc = acc + seq!['}']; }
    assert(acc == component_text(cv));
}

/// Append a delay value.
fn delay_json(out: &mut Vec<char>, ticks: u16)
    ensures
        final(out)@ == old(out)@ + delay_text(ticks as nat),
{
    if ticks == 0 {
        push_quoted(out, "instantaneous");
    } else {
        out.push('{');
        push_key(out, "initialization");
        push_quoted(out, "require-seed");
        out.push(',');
        push_key(out, "ticks");
        let mut digits = String::new();
        crate::text::push_decimal(&mut digits, ticks as u64);
        push_lit(out, digits.as_str());
        out.push(',');
        push_key(out, "unit");
        push_quoted(out, "evaluation-ticks");
        out.push('}');
    }
    assert(final(out)@ =~= old(out)@ + delay_text(ticks as nat));
}

/// Append a connection object.
fn connection_json(out: &mut Vec<char>, c: &Connection, delayed: bool)
    ensures
        final(out)@ == old(out)@ + connection_text(connection_view(*c), delayed),
{
    out.push('{');
    push_key(out, "contract");
    push_quoted(out, c.contract.as_str());
    out.push(',');
    let ghost mid = out@;
    if delayed {
        push_key(out, "delay");
        delay_json(out, c.delay.ticks());
        out.push(',');
    }
    push_key(out, "from");
    push_quoted(out, c.from.as_str());
    out.push(',');
    push_key(out, "to");
    push_quoted(out, c.to.as_str());
    out.push('}');
    assert(final(out)@ =~= old(out)@ + connection_text(connection_view(*c), delayed));
}

/// Append a binding object.
fn binding_json(out: &mut Vec<char>, b: &ResolvedContract)
    ensures
        final(out)@ == old(out)@ + binding_text(binding_view(*b)),
{
    out.push('{');
    push_key(out, "codecId");
    push_quoted(out, b.codec_id.as_str());
    out.push(',');
    push_key(out, "identifier");
    push_quoted(out, b.identifier.as_str());
    out.push(',');
    push_key(out, "reference");
    push_quoted(out, b.reference.as_str());
    out.push(',');
    push_key(out, "schemaId");
    push_quoted(out, b.schema_id.as_str());
    out.push(',');
    push_key(out, "version");
    push_quoted(out, b.version.as_str());
    out.push(',');
    push_key(out, "wireId");
    push_quoted(out, b.wire_id.as_str());
    out.push('}');
    assert(final(out)@ =~= old(out)@ + binding_text(binding_view(*b)));
}

/// Append the sorted node array.
#[verifier::spinoff_prover]
#[verifier::rlimit(40)]
fn nodes_array(out: &mut Vec<char>, d: &Deployment)
    ensures
        ({
            let dv = deployment_view(*d);
            final(out)@ == old(out)@ + json_array(sort_by(node_less(dv.nodes), dv.nodes.len()).map_values(|i: int| node_text(dv.nodes[i])))
        }),
{
    let ghost dv = deployment_view(*d);
    let order = node_order(&d.nodes);
    let ghost items = sort_by(node_less(dv.nodes), dv.nodes.len()).map_values(|i: int| node_text(dv.nodes[i]));
    assert(dv.nodes == d.nodes@.map_values(|n: Node| node_view(n)));
    push_char(out, '[');
    let ghost start = out@;
    let mut p: usize = 0;
    while p < order.len()
        invariant
            p <= order@.len(),
            dv == deployment_view(*d),
            ints(order@) == sort_by(node_less(dv.nodes), dv.nodes.len()),
            forall|q: int| 0 <= q < order@.len() ==> #[trigger] order@[q] < d.nodes@.len(),
            items == sort_by(node_less(dv.nodes), dv.nodes.len()).map_values(|i: int| node_text(dv.nodes[i])),
            out@ == start + join_commas(items.take(p as int)),
        decreases order@.len() - p,
    {
        let k = order[p];
        proof {
            assert(items.take(p + 1).drop_last() =~= items.take(p as int));
            assert(ints(order@)[p as int] == k as int);
            assert(items.take(p + 1).last() == node_text(node_view(d.nodes@[k as int])));
        }
        if p > 0 {
            push_char(out, ',');
        }
        node_json(out, &d.nodes[k]);
        p = p + 1;
        assert(out@ =~= start + join_commas(items.take(p as int)));
    }
    push_char(out, ']');
    assert(items.take(p as int) =~= items);
    assert(out@ =~= old(out)@ + json_array(items));
}

/// Append the sorted component array.
#[verifier::spinoff_prover]
#[verifier::rlimit(40)]
fn components_array(out: &mut Vec<char>, d: &Deployment)
    ensures
        ({
            let dv = deployment_view(*d);
            final(out)@ == old(out)@ + json_array(sort_by(component_less(dv.components), dv.components.len()).map_values(|i: int| component_text(dv.components[i])))
        }),
{
    let ghost dv = deployment_view(*d);
    let order = component_order(&d.components);
    let ghost items = sort_by(component_less(dv.components), dv.components.len()).map_values(|i: int| component_text(dv.components[i]));
    assert(dv.components == d.components@.map_values(|c: Component| component_view(c)));
    push_char(out, '[');
    let ghost start = out@;
    let mut p: usize = 0;
    while p < order.len()
        invariant
            p <= order@.len(),
            dv == deployment_view(*d),
            ints(order@) == sort_by(component_less(dv.components), dv.components.len()),
            forall|q: int| 0 <= q < order@.len() ==> #[trigger] order@[q] < d.components@.len(),
            items == sort_by(component_less(dv.components), dv.components.len()).map_values(|i: int| component_text(dv.components[i])),
            out@ == start + join_commas(items.take(p as int)),
        decreases order@.len() - p,
    {
        let k = order[p];
        proof {
            assert(items.take(p + 1).drop_last() =~= items.take(p as int));
            assert(ints(order@)[p as int] == k as int);
            assert(items.take(p + 1).last() == component_text(component_view(d.components@[k as int])));
        }
        if p > 0 {
            push_char(out, ',');
        }
        component_json(out, &d.components[k]);
        p = p + 1;
        assert(out@ =~= start + join_commas(items.take(p as int)));
    }
    push_char(out, ']');
    assert(items.take(p as int) =~= items);
    assert(out@ =~= old(out)@ + json_array(items));
}

/// Whether any connection is delayed.
fn has_delay(d: &Deployment) -> (b: bool)
    ensures
        b == any_delay(deployment_view(*d)),
{
    let ghost dv = deployment_view(*d);
    let mut k: usize = 0;
    while k < d.connections.len()
        invariant
            k <= d.connections@.len(),
            dv == deployment_view(*d),
            forall|q: int| 0 <= q < k ==> dv.connections[q].delay == 0,
        decreases d.connections@.len() - k,
    {
        if !d.connections[k].delay.is_instantaneous() {
            assert(dv.connections[k as int].delay != 0);
            return true;
        }
        k = k + 1;
    }
    false
}

/// Append the sorted connection array.
#[verifier::spinoff_prover]
#[verifier::rlimit(40)]
fn connections_array(out: &mut Vec<char>, d: &Deployment, delayed: bool)
    ensures
        ({
            let dv = deployment_view(*d);
            final(out)@ == old(out)@ + json_array(sort_by(connection_less(dv.connections), dv.connections.len()).map_values(|i: int| connection_text(dv.connections[i], delayed)))
        }),
{
    let ghost dv = deployment_view(*d);
    let order = connection_order(&d.connections);
    let ghost items = sort_by(connection_less(dv.connections), dv.connections.len()).map_values(|i: int| connection_text(dv.connections[i], delayed));
    assert(dv.connections == d.connections@.map_values(|c: Connection| connection_view(c)));
    push_char(out, '[');
    let ghost start = out@;
    let mut p: usize = 0;
    while p < order.len()
        invariant
            p <= order@.len(),
            dv == deployment_view(*d),
            ints(order@) == sort_by(connection_less(dv.connections), dv.connections.len()),
            forall|q: int| 0 <= q < order@.len() ==> #[trigger] order@[q] < d.connections@.len(),
            items == sort_by(connection_less(dv.connections), dv.connections.len()).map_values(|i: int| connection_text(dv.connections[i], delayed)),
            out@ == start + join_commas(items.take(p as int)),
        decreases order@.len() - p,
    {
        let k = order[p];
        proof {
            assert(items.take(p + 1).drop_last() =~= items.take(p as int));
            assert(ints(order@)[p as int] == k as int);
            assert(items.take(p + 1).last() == connection_text(connection_view(d.connections@[k as int]), delayed));
        }
        if p > 0 {
            push_char(out, ',');
        }
        connection_json(out, &d.connections[k], delayed);
        p = p + 1;
        assert(out@ =~= start + join_commas(items.take(p as int)));
    }
    push_char(out, ']');
    assert(items.take(p as int) =~= items);
    assert(out@ =~= old(out)@ + json_array(items));
}

/// Append the canonical deployment object.
fn deployment_json(out: &mut Vec<char>, d: &Deployment)
    ensures
        final(out)@ == old(out)@ + deployment_text(deployment_view(*d)),
{
    let ghost dv = deployment_view(*d);
    let ghost o = old(out)@;
    let delayed = has_delay(d);
    let ghost comps = sort_by(component_less(dv.components), dv.components.len()).map_values(|i: int| component_text(dv.components[i]));
    let ghost conns = sort_by(connection_less(dv.connections), dv.connections.len()).map_values(|i: int| connection_text(dv.connections[i], any_delay(dv)));
    let ghost nodes = sort_by(node_less(dv.nodes), dv.nodes.len()).map_values(|i: int| node_text(dv.nodes[i]));
    let ghost profile = match dv.profile {
        Some(p) => quote(p),
        None => "null"@,
    };
    push_char(out, '{');
    let ghost mut acc = seq!['{'];
    assert(out@ == o + acc);
    let ghost prev = out@;
    push_key(out, "components");
    proof { lemma_extend(o, acc, key("components"@), prev, out@); acc = acc + key("components"@); }
    let ghost prev = out@;
    components_array(out, d);
    proof { lemma_extend(o, acc, json_array(comps), prev, out@); acc = acc + json_array(comps); }
    let ghost prev = out@;
    push_char(out, ',');
    proof { lemma_extend(o, acc, seq![','], prev, out@); acc = acc + seq![',']; }
    let ghost prev = out@;
    push_key(out, "connections");
    proof { lemma_extend(o, acc, key("connections"@), prev, out@); acc = acc + key("connections"@); }
    let ghost prev = out@;
    connections_array(out, d, delayed);
    proof { lemma_extend(o, acc, json_array(conns), prev, out@); acc = acc + json_array(conns); }
    let ghost prev = out@;
    push_char(out, ',');
    proof { lemma_extend(o, acc, seq![','], prev, out@); acc = acc + seq![',']; }
    let ghost prev = out@;
    push_key(out, "name");
    proof { lemma_extend(o, acc, key("name"@), prev, out@); acc = acc + key("name"@); }
    let ghost prev = out@;
    push_quoted(out, d.name.as_str());
    proof { lemma_extend(o, acc, quote(dv.name), prev, out@); acc = acc + quote(dv.name); }
    let ghost prev = out@;
    push_char(out, ',');
    proof { lemma_extend(o, acc, seq![','], prev, out@); acc = acc + seq![',']; }
    let ghost prev = out@;
    push_key(out, "nodes");
    proof { lemma_extend(o, acc, key("nodes"@), prev, out@); acc = acc + key("nodes"@); }
    let ghost prev = out@;
    nodes_array(out, d);
    proof { lemma_extend(o, acc, json_array(nodes), prev, out@); acc = acc + json_array(nodes); }
    let ghost prev = out@;
    push_char(out, ',');
    proof { lemma_extend(o, acc, seq![','], prev, out@); acc = acc + seq![',']; }
    let ghost prev = out@;
    push_key(out, "profile");
    proof { lemma_extend(o, acc, key("profile"@), prev, out@); acc = acc + key("profile"@); }
    let ghost prev = out@;
    match &d.profile {
        Some(p) => push_quoted(out, p.as_str()),
        None => push_lit(out, "null"),
    }
    proof { lemma_extend(o, acc, profile, prev, out@); acc = acc + profile; }
    let ghost prev = out@;
    push_char(out, '}');
    proof { lemma_extend(o, acc, seq!['}'], prev, out@); acc = acc + seq!['}']; }
    assert(acc == deployment_text(dv));
}

/// Append the lowercase hexadecimal text of bytes.
pub(crate) fn push_hex(out: &mut Vec<char>, bytes: &Vec<u8>)
    ensures
        final(out)@ == old(out)@ + hex_text(bytes@),
{
    let mut i: usize = 0;
    while i < bytes.len()
        invariant
            i <= bytes@.len(),
            out@ == old(out)@ + hex_text(bytes@.take(i as int)),
        decreases bytes@.len() - i,
    {
        let b = bytes[i];
        proof {
            assert(bytes@.take(i + 1).drop_last() =~= bytes@.take(i as int));
        }
        out.push(crate::graph::configuration::hex_digit(b / 16));
        out.push(crate::graph::configuration::hex_digit(b % 16));
        i = i + 1;
        assert(out@ =~= old(out)@ + hex_text(bytes@.take(i as int)));
    }
    assert(bytes@.take(i as int) =~= bytes@);
}

/// `version:sha256:hex` of canonical text.
fn identity_string(version: &Vec<char>, text: &Vec<char>) -> (s: String)
    ensures
        s@ == identity_of(version@, text@),
{
    broadcast use vstd::utf8::group_utf8_lib;
    let t = string_from_chars(text);
    let bytes = t.as_str().as_bytes();
    let digest = sha256_digest(bytes);
    let mut out: Vec<char> = Vec::new();
    let mut i: usize = 0;
    while i < version.len()
        invariant
            i <= version@.len(),
            out@ == version@.take(i as int),
        decreases version@.len() - i,
    {
        out.push(version[i]);
        i = i + 1;
        assert(out@ =~= version@.take(i as int));
    }
    assert(version@.take(i as int) =~= version@);
    push_lit(&mut out, ":sha256:");
    push_hex(&mut out, &digest);
    string_from_chars(&out)
}

/// The identity version label.
fn version_label(delayed: bool, kind: &str) -> (v: Vec<char>)
    ensures
        v@ == "neuradix.deployment."@ + kind@ + ".v"@ + if delayed { "3"@ } else { "2"@ },
{
    let mut v: Vec<char> = Vec::new();
    push_lit(&mut v, "neuradix.deployment.");
    push_lit(&mut v, kind);
    push_lit(&mut v, ".v");
    if delayed {
        push_lit(&mut v, "3");
    } else {
        push_lit(&mut v, "2");
    }
    v
}

/// The declared-content identity of a deployment.
pub fn declared_identity_of(d: &Deployment) -> (s: String)
    ensures
        s@ == declared_identity(deployment_view(*d)),
{
    let ghost dv = deployment_view(*d);
    let version = version_label(has_delay(d), "declared");
    let mut text: Vec<char> = Vec::new();
    push_char(&mut text, '{');
    push_key(&mut text, "deployment");
    deployment_json(&mut text, d);
    push_char(&mut text, ',');
    push_key(&mut text, "identityVersion");
    let vs = string_from_chars(&version);
    push_quoted(&mut text, vs.as_str());
    push_char(&mut text, '}');
    proof {
        let v = identity_version(dv, "declared"@);
        assert(version@ == v);
        assert(text@ =~= seq!['{'] + key("deployment"@) + deployment_text(dv) + seq![','] + key("identityVersion"@) + quote(v) + seq!['}']);
    }
    identity_string(&version, &text)
}

/// The resolved identity of a deployment and its bindings.
pub fn resolved_identity_of(d: &Deployment, resolved: &Vec<ResolvedContract>) -> (s: String)
    ensures
        s@ == resolved_identity(deployment_view(*d), resolved@.map_values(|r: ResolvedContract| binding_view(r))),
{
    let ghost dv = deployment_view(*d);
    let ghost bs = resolved@.map_values(|r: ResolvedContract| binding_view(r));
    let ghost items = bs.map_values(|b: BindingView| binding_text(b));
    let version = version_label(has_delay(d), "resolved");
    let mut text: Vec<char> = Vec::new();
    push_char(&mut text, '{');
    push_key(&mut text, "contracts");
    let ghost before = text@;
    push_char(&mut text, '[');
    let ghost start = text@;
    let mut i: usize = 0;
    while i < resolved.len()
        invariant
            i <= resolved@.len(),
            items == resolved@.map_values(|r: ResolvedContract| binding_view(r)).map_values(|b: BindingView| binding_text(b)),
            text@ == start + join_commas(items.take(i as int)),
        decreases resolved@.len() - i,
    {
        proof {
            assert(items.take(i + 1).drop_last() =~= items.take(i as int));
            assert(items.take(i + 1).last() == binding_text(binding_view(resolved@[i as int])));
        }
        if i > 0 {
            push_char(&mut text, ',');
        }
        binding_json(&mut text, &resolved[i]);
        i = i + 1;
        assert(text@ =~= start + join_commas(items.take(i as int)));
    }
    push_char(&mut text, ']');
    assert(items.take(i as int) =~= items);
    assert(text@ =~= before + json_array(items));
    push_char(&mut text, ',');
    push_key(&mut text, "deployment");
    deployment_json(&mut text, d);
    push_char(&mut text, ',');
    push_key(&mut text, "identityVersion");
    let vs = string_from_chars(&version);
    push_quoted(&mut text, vs.as_str());
    push_char(&mut text, '}');
    proof {
        let v = identity_version(dv, "resolved"@);
        assert(version@ == v);
        assert(text@ =~= seq!['{'] + key("contracts"@) + json_array(items) + seq![','] + key("deployment"@) + deployment_text(dv) + seq![','] + key("identityVersion"@) + quote(v) + seq!['}']);
    }
    identity_string(&version, &text)
}

} // verus!
