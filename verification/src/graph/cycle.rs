//! Same-tick dependency cycles: a deterministic depth-first search of the
//! instantaneous subgraph.
use crate::graph::assemble::{component_view, connection_view, deployment_view, strs, DeploymentView};
use crate::graph::model::Deployment;
use crate::record::strmap::bytes_less;
use crate::graph::configuration::utf8_len;
use crate::text::{chars_of, decimal_chars, push_decimal, push_str, str_equal, string_from_chars};
use vstd::prelude::*;

verus! {

/// Whether a component with this name is declared.
pub open spec fn is_component(d: DeploymentView, n: Seq<char>) -> bool {
    exists|k: int| 0 <= k < d.components.len() && d.components[k].name == n
}

/// Whether an instantaneous connection runs from component `a` to component `b`.
pub open spec fn same_tick_edge(d: DeploymentView, a: Seq<char>, b: Seq<char>) -> bool {
    &&& is_component(d, a)
    &&& is_component(d, b)
    &&& exists|k: int|
        0 <= k < d.connections.len() && d.connections[k].delay == 0 && d.connections[k].from == a
            && d.connections[k].to == b
}

/// Whether `p` is a closed walk of instantaneous edges.
pub open spec fn is_cycle(d: DeploymentView, p: Seq<Seq<char>>) -> bool {
    &&& p.len() >= 2
    &&& p[0] == p.last()
    &&& forall|i: int| 0 <= i < p.len() - 1 ==> same_tick_edge(d, #[trigger] p[i], p[i + 1])
}

/// Whether the instantaneous subgraph has a cycle.
pub open spec fn has_cycle(d: DeploymentView) -> bool {
    exists|p: Seq<Seq<char>>| is_cycle(d, p)
}

/// Whether the indexed names are distinct and exactly the component names.
pub open spec fn names_ok(d: DeploymentView, names: Seq<Seq<char>>) -> bool {
    &&& forall|a: int, b: int| 0 <= a < b < names.len() ==> names[a] != names[b]
    &&& forall|k: int| 0 <= k < names.len() ==> is_component(d, #[trigger] names[k])
    &&& forall|k: int| 0 <= k < d.components.len() ==> names.contains(#[trigger] d.components[k].name)
}

/// Whether the edge list holds the edge `u -> v`.
pub open spec fn has_edge(edges: Seq<(usize, usize)>, u: int, v: int) -> bool {
    edges.contains((u as usize, v as usize))
}

/// Whether row `u` holds `v`.
pub open spec fn row_has(adj: Seq<Seq<usize>>, u: int, v: int) -> bool {
    adj[u].contains(v as usize)
}

/// Whether the indexed edge list holds exactly the instantaneous edges.
pub open spec fn edges_ok(d: DeploymentView, names: Seq<Seq<char>>, edges: Seq<(usize, usize)>) -> bool {
    &&& forall|e: int| 0 <= e < edges.len() ==> (#[trigger] edges[e]).0 < names.len() && edges[e].1 < names.len()
    &&& forall|u: int, v: int|
        0 <= u < names.len() && 0 <= v < names.len() ==> (same_tick_edge(d, names[u], names[v]) <==> #[trigger] has_edge(edges, u, v))
}

/// Whether each row holds exactly the targets of a node's edges.
pub open spec fn adj_ok(n: nat, edges: Seq<(usize, usize)>, adj: Seq<Seq<usize>>) -> bool {
    &&& adj.len() == n
    &&& forall|u: int, j: int| 0 <= u < n && 0 <= j < adj[u].len() ==> (#[trigger] adj[u][j]) < n
    &&& forall|u: int, v: int| 0 <= u < n && 0 <= v < n ==> (#[trigger] row_has(adj, u, v) <==> has_edge(edges, u, v))
}

/// The distinct component names, in byte order of first insertion position.
fn component_names(d: &Deployment) -> (names: Vec<String>)
    ensures
        names_ok(deployment_view(*d), strs(names@)),
{
    let ghost dv = deployment_view(*d);
    let mut names: Vec<String> = Vec::new();
    let mut i: usize = 0;
    while i < d.components.len()
        invariant
            i <= d.components@.len(),
            dv == deployment_view(*d),
            forall|a: int, b: int| 0 <= a < b < names@.len() ==> strs(names@)[a] != strs(names@)[b],
            forall|k: int| 0 <= k < names@.len() ==> is_component(dv, #[trigger] strs(names@)[k]),
            forall|k: int| 0 <= k < i ==> strs(names@).contains(#[trigger] dv.components[k].name),
        decreases d.components@.len() - i,
    {
        let name = &d.components[i].name;
        proof {
            assert(dv.components[i as int] == component_view(d.components@[i as int]));
        }
        let mut present = false;
        let mut k: usize = 0;
        while k < names.len()
            invariant
                k <= names@.len(),
                present ==> strs(names@).contains(name@),
                !present ==> forall|q: int| 0 <= q < k ==> strs(names@)[q] != name@,
            decreases names@.len() - k,
        {
            if str_equal(names[k].as_str(), name.as_str()) {
                present = true;
                assert(strs(names@)[k as int] == name@);
            }
            k = k + 1;
        }
        if !present {
            let nb = name.as_str().as_bytes();
            let mut p: usize = 0;
            while p < names.len() && !bytes_less(nb, names[p].as_str().as_bytes())
                invariant
                    p <= names@.len(),
                decreases names@.len() - p,
            {
                p = p + 1;
            }
            let ghost before = strs(names@);
            names.insert(p, name.clone());
            proof {
                let after = strs(names@);
                assert(after =~= before.take(p as int) + seq![name@] + before.skip(p as int));
                assert forall|k: int| 0 <= k < after.len() implies is_component(dv, #[trigger] after[k]) by {
                    if k < p {
                        assert(after[k] == before[k]);
                    } else if k > p {
                        assert(after[k] == before[k - 1]);
                    } else {
                        assert(after[k] == dv.components[i as int].name);
                    }
                }
                assert forall|a: int, b: int| 0 <= a < b < after.len() implies after[a] != after[b] by {
                    let ai = if a < p { a } else if a == p { -1 } else { a - 1 };
                    let bi = if b < p { b } else if b == p { -1 } else { b - 1 };
                    if a == p {
                        assert(after[b] == before[bi]);
                    } else if b == p {
                        assert(after[a] == before[ai]);
                    } else {
                        assert(after[a] == before[ai]);
                        assert(after[b] == before[bi]);
                    }
                }
                assert forall|k: int| 0 <= k < i + 1 implies after.contains(#[trigger] dv.components[k].name) by {
                    if k == i {
                        assert(after[p as int] == name@);
                    } else {
                        let q = choose|q: int| 0 <= q < before.len() && before[q] == dv.components[k].name;
                        if q < p {
                            assert(after[q] == before[q]);
                        } else {
                            assert(after[q + 1] == before[q]);
                        }
                    }
                }
            }
        }
        i = i + 1;
    }
    names
}

/// The index of a name.
fn index_of(names: &Vec<String>, s: &String) -> (r: Option<usize>)
    ensures
        match r {
            Some(k) => k < names@.len() && strs(names@)[k as int] == s@,
            None => !strs(names@).contains(s@),
        },
{
    let mut k: usize = 0;
    while k < names.len()
        invariant
            k <= names@.len(),
            forall|q: int| 0 <= q < k ==> strs(names@)[q] != s@,
        decreases names@.len() - k,
    {
        if str_equal(names[k].as_str(), s.as_str()) {
            return Some(k);
        }
        k = k + 1;
    }
    None
}

/// The instantaneous edges between indexed component names.
fn instant_edges(d: &Deployment, names: &Vec<String>) -> (edges: Vec<(usize, usize)>)
    requires
        names_ok(deployment_view(*d), strs(names@)),
    ensures
        edges_ok(deployment_view(*d), strs(names@), edges@),
{
    let ghost dv = deployment_view(*d);
    let ghost ns = strs(names@);
    let nlen = names.len();
    assert(ns.len() == nlen);
    let mut edges: Vec<(usize, usize)> = Vec::new();
    let mut k: usize = 0;
    while k < d.connections.len()
        invariant
            k <= d.connections@.len(),
            dv == deployment_view(*d),
            ns == strs(names@),
            ns.len() == nlen,
            names_ok(dv, ns),
            forall|e: int| 0 <= e < edges@.len() ==> (#[trigger] edges@[e]).0 < ns.len() && edges@[e].1 < ns.len(),
            forall|u: int, v: int| 0 <= u < ns.len() && 0 <= v < ns.len() ==> (#[trigger] has_edge(edges@, u, v) <==> exists|q: int|
                0 <= q < k && dv.connections[q].delay == 0 && dv.connections[q].from == ns[u] && dv.connections[q].to == ns[v]),
        decreases d.connections@.len() - k,
    {
        let c = &d.connections[k];
        proof {
            assert(dv.connections[k as int] == connection_view(*c));
        }
        let ghost before = edges@;
        let mut pushed: Option<(usize, usize)> = None;
        if c.delay.is_instantaneous() {
            match (index_of(names, &c.from), index_of(names, &c.to)) {
                (Some(u), Some(v)) => {
                    edges.push((u, v));
                    pushed = Some((u, v));
                },
                (fu, tv) => {
                    proof {
                        if fu is None {
                            assert(!ns.contains(c.from@));
                        }
                        if tv is None {
                            assert(!ns.contains(c.to@));
                        }
                    }
                },
            }
        }
        proof {
            match pushed {
                Some(p) => {
                    assert(edges@ == before.push(p));
                    assert(dv.connections[k as int].delay == 0);
                    assert(ns[p.0 as int] == dv.connections[k as int].from);
                    assert(ns[p.1 as int] == dv.connections[k as int].to);
                },
                None => {
                    assert(edges@ == before);
                    assert(dv.connections[k as int].delay != 0 || !ns.contains(dv.connections[k as int].from) || !ns.contains(dv.connections[k as int].to));
                },
            }
        }
        proof {
            assert forall|u: int, v: int| 0 <= u < ns.len() && 0 <= v < ns.len() implies (#[trigger] has_edge(edges@, u, v) <==> exists|q: int|
                0 <= q < k + 1 && dv.connections[q].delay == 0 && dv.connections[q].from == ns[u] && dv.connections[q].to == ns[v]) by {
                let here = dv.connections[k as int].delay == 0 && dv.connections[k as int].from == ns[u] && dv.connections[k as int].to == ns[v];
                if has_edge(edges@, u, v) {
                    let e = choose|e: int| 0 <= e < edges@.len() && edges@[e] == (u as usize, v as usize);
                    if e < before.len() {
                        assert(before[e] == edges@[e]);
                        assert(has_edge(before, u, v));
                    } else {
                        let p = pushed->0;
                        assert(edges@[e] == p);
                        assert((u as usize) as int == u);
                        assert((v as usize) as int == v);
                        assert(p.0 as int == u && p.1 as int == v);
                        assert(here);
                    }
                }
                if here {
                    assert(is_component(dv, ns[u]) && is_component(dv, ns[v])) by {
                        assert(ns[u] == ns[u]);
                    }
                    let cu = choose|q: int| 0 <= q < dv.components.len() && dv.components[q].name == ns[u];
                    let cv = choose|q: int| 0 <= q < dv.components.len() && dv.components[q].name == ns[v];
                    assert(ns.contains(dv.components[cu].name));
                    assert(ns.contains(dv.components[cv].name));
                    assert(pushed is Some);
                    let p = pushed->0;
                    assert(ns[p.0 as int] == ns[u]);
                    assert(ns[p.1 as int] == ns[v]);
                    assert(p.0 as int == u) by {
                        if p.0 as int != u {
                            if (p.0 as int) < u {
                                assert(ns[p.0 as int] != ns[u]);
                            } else {
                                assert(ns[u] != ns[p.0 as int]);
                            }
                        }
                    }
                    assert(p.1 as int == v) by {
                        if p.1 as int != v {
                            if (p.1 as int) < v {
                                assert(ns[p.1 as int] != ns[v]);
                            } else {
                                assert(ns[v] != ns[p.1 as int]);
                            }
                        }
                    }
                    assert(edges@[edges@.len() - 1] == (u as usize, v as usize));
                    assert(edges@.contains((u as usize, v as usize)));
                }
                if exists|q: int| 0 <= q < k && dv.connections[q].delay == 0 && dv.connections[q].from == ns[u] && dv.connections[q].to == ns[v] {
                    assert(has_edge(before, u, v));
                    let e = choose|e: int| 0 <= e < before.len() && before[e] == (u as usize, v as usize);
                    assert(edges@[e] == before[e]);
                    assert(edges@.contains((u as usize, v as usize)));
                }
            }
        }
        k = k + 1;
    }
    proof {
        assert forall|u: int, v: int| 0 <= u < ns.len() && 0 <= v < ns.len() implies (same_tick_edge(dv, ns[u], ns[v]) <==> #[trigger] has_edge(edges@, u, v)) by {
            assert(is_component(dv, ns[u]));
            assert(is_component(dv, ns[v]));
        }
    }
    edges
}

/// The views of adjacency rows.
pub open spec fn rows(adj: Seq<Vec<usize>>) -> Seq<Seq<usize>> {
    adj.map_values(|r: Vec<usize>| r@)
}

/// Whether a row holds `v`.
pub open spec fn seq_has(row: Seq<usize>, v: int) -> bool {
    row.contains(v as usize)
}

/// The targets of each node's edges, ascending and without repeats.
fn adjacency(n: usize, edges: &Vec<(usize, usize)>) -> (adj: Vec<Vec<usize>>)
    requires
        forall|e: int| 0 <= e < edges@.len() ==> (#[trigger] edges@[e]).0 < n && edges@[e].1 < n,
    ensures
        adj_ok(n as nat, edges@, rows(adj@)),
{
    let mut adj: Vec<Vec<usize>> = Vec::new();
    let mut u: usize = 0;
    while u < n
        invariant
            u <= n,
            adj@.len() == u,
            forall|e: int| 0 <= e < edges@.len() ==> (#[trigger] edges@[e]).0 < n && edges@[e].1 < n,
            forall|a: int, j: int| 0 <= a < u && 0 <= j < rows(adj@)[a].len() ==> (#[trigger] rows(adj@)[a][j]) < n,
            forall|a: int, v: int| 0 <= a < u && 0 <= v < n ==> (#[trigger] row_has(rows(adj@), a, v) <==> has_edge(edges@, a, v)),
        decreases n - u,
    {
        let mut row: Vec<usize> = Vec::new();
        let mut e: usize = 0;
        while e < edges.len()
            invariant
                e <= edges@.len(),
                u < n,
                forall|q: int| 0 <= q < edges@.len() ==> (#[trigger] edges@[q]).0 < n && edges@[q].1 < n,
                forall|j: int| 0 <= j < row@.len() ==> row@[j] < n,
                forall|v: int| 0 <= v < n ==> (#[trigger] seq_has(row@, v) <==> exists|q: int| 0 <= q < e && #[trigger] edges@[q] == (u, v as usize)),
            decreases edges@.len() - e,
        {
            let (a, b) = edges[e];
            if a == u {
                let mut present = false;
                let mut k: usize = 0;
                while k < row.len()
                    invariant
                        k <= row@.len(),
                        present ==> row@.contains(b),
                        !present ==> forall|q: int| 0 <= q < k ==> row@[q] != b,
                    decreases row@.len() - k,
                {
                    if row[k] == b {
                        present = true;
                    }
                    k = k + 1;
                }
                if !present {
                    let mut p: usize = 0;
                    while p < row.len() && row[p] < b
                        invariant
                            p <= row@.len(),
                        decreases row@.len() - p,
                    {
                        p = p + 1;
                    }
                    let ghost before = row@;
                    row.insert(p, b);
                    proof {
                        assert(row@ =~= before.take(p as int) + seq![b] + before.skip(p as int));
                        assert forall|j: int| 0 <= j < row@.len() implies row@[j] < n by {
                            if j < p {
                                assert(row@[j] == before[j]);
                            } else if j > p {
                                assert(row@[j] == before[j - 1]);
                            }
                        }
                        assert forall|v: int| 0 <= v < n implies (#[trigger] seq_has(row@, v) <==> exists|q: int| 0 <= q < e + 1 && #[trigger] edges@[q] == (u, v as usize)) by {
                            if seq_has(row@, v) {
                                let j = choose|j: int| 0 <= j < row@.len() && row@[j] == v as usize;
                                if j < p {
                                    assert(before[j] == v as usize);
                                    assert(before.contains(v as usize));
                                    assert(seq_has(before, v));
                                    let q = choose|q: int| 0 <= q < e && #[trigger] edges@[q] == (u, v as usize);
                                    assert(0 <= q < e + 1 && edges@[q] == (u, v as usize));
                                } else if j > p {
                                    assert(before[j - 1] == v as usize);
                                    assert(before.contains(v as usize));
                                    assert(seq_has(before, v));
                                    let q = choose|q: int| 0 <= q < e && #[trigger] edges@[q] == (u, v as usize);
                                    assert(0 <= q < e + 1 && edges@[q] == (u, v as usize));
                                } else {
                                    assert(edges@[e as int] == (u, v as usize));
                                }
                            }
                            if exists|q: int| 0 <= q < e + 1 && #[trigger] edges@[q] == (u, v as usize) {
                                let q = choose|q: int| 0 <= q < e + 1 && #[trigger] edges@[q] == (u, v as usize);
                                if q < e {
                                    assert(seq_has(before, v));
                                    assert(before.contains(v as usize));
                                    let j = choose|j: int| 0 <= j < before.len() && before[j] == v as usize;
                                    if j < p {
                                        assert(row@[j] == before[j]);
                                    } else {
                                        assert(row@[j + 1] == before[j]);
                                    }
                                } else {
                                    assert(row@[p as int] == b);
                                }
                            }
                        }
                    }
                } else {
                    proof {
                        assert forall|v: int| 0 <= v < n implies (#[trigger] seq_has(row@, v) <==> exists|q: int| 0 <= q < e + 1 && #[trigger] edges@[q] == (u, v as usize)) by {
                            if exists|q: int| 0 <= q < e + 1 && #[trigger] edges@[q] == (u, v as usize) {
                                let q = choose|q: int| 0 <= q < e + 1 && #[trigger] edges@[q] == (u, v as usize);
                                if q == e {
                                    assert(b == v as usize);
                                }
                            }
                        }
                    }
                }
            } else {
                proof {
                    assert forall|v: int| 0 <= v < n implies (#[trigger] seq_has(row@, v) <==> exists|q: int| 0 <= q < e + 1 && #[trigger] edges@[q] == (u, v as usize)) by {
                        if exists|q: int| 0 <= q < e + 1 && #[trigger] edges@[q] == (u, v as usize) {
                            let q = choose|q: int| 0 <= q < e + 1 && #[trigger] edges@[q] == (u, v as usize);
                            assert(q != e);
                        }
                    }
                }
            }
            e = e + 1;
        }
        let ghost before = adj@;
        adj.push(row);
        proof {
            assert(rows(adj@) =~= rows(before).push(row@));
            assert forall|a: int, v: int| 0 <= a < u + 1 && 0 <= v < n implies (#[trigger] row_has(rows(adj@), a, v) <==> has_edge(edges@, a, v)) by {
                if a < u {
                    assert(rows(adj@)[a] == rows(before)[a]);
                    assert(row_has(rows(before), a, v) == row_has(rows(adj@), a, v));
                } else {
                    assert(rows(adj@)[a] == row@);
                    assert(row_has(rows(adj@), a, v) == seq_has(row@, v));
                    if has_edge(edges@, a, v) {
                        let q = choose|q: int| 0 <= q < edges@.len() && edges@[q] == (a as usize, v as usize);
                        assert(edges@[q] == (u, v as usize));
                        assert(seq_has(row@, v));
                    }
                    if seq_has(row@, v) {
                        let q = choose|q: int| 0 <= q < edges@.len() && #[trigger] edges@[q] == (u, v as usize);
                        assert(edges@.contains((a as usize, v as usize)));
                    }
                }
            }
            assert forall|a: int, j: int| 0 <= a < u + 1 && 0 <= j < rows(adj@)[a].len() implies (#[trigger] rows(adj@)[a][j]) < n by {
                if a < u {
                    assert(rows(adj@)[a] == rows(before)[a]);
                }
            }
        }
        u = u + 1;
    }
    adj
}

/// Whether `v` is on the search stack.
pub open spec fn on_stack(st: Seq<(usize, usize)>, v: int) -> bool {
    exists|k: int| 0 <= k < st.len() && (#[trigger] st[k]).0 == v
}

/// Remaining work on the search stack: unexplored row slots plus entries.
pub open spec fn stack_rem(st: Seq<(usize, usize)>, r: Seq<Seq<usize>>) -> nat
    decreases st.len(),
{
    if st.len() == 0 {
        0
    } else {
        let slots = r[st.last().0 as int].len() as int - st.last().1 as int;
        stack_rem(st.drop_last(), r) + (if slots >= 0 { slots as nat } else { 0 }) + 1
    }
}

/// Whether every target of a finished node finished earlier, with a smaller rank.
pub open spec fn finished_ok(n: nat, r: Seq<Seq<usize>>, color: Seq<u8>, rank: Seq<int>, counter: int) -> bool {
    &&& forall|u: int, j: int|
        0 <= u < n && color[u] == 2 && 0 <= j < r[u].len() ==> color[#[trigger] r[u][j] as int] == 2 && rank[r[u][j] as int] < rank[u]
    &&& forall|u: int| 0 <= u < n && #[trigger] color[u] == 2 ==> rank[u] < counter
}

/// The depth-first search invariant.
pub open spec fn dfs_inv(n: nat, r: Seq<Seq<usize>>, color: Seq<u8>, st: Seq<(usize, usize)>, rank: Seq<int>, counter: int) -> bool {
    &&& color.len() == n
    &&& rank.len() == n
    &&& forall|v: int| 0 <= v < n ==> #[trigger] color[v] <= 2
    &&& forall|v: int| 0 <= v < n ==> (#[trigger] color[v] == 1 <==> on_stack(st, v))
    &&& forall|k: int| 0 <= k < st.len() ==> (#[trigger] st[k]).0 < n && st[k].1 <= r[st[k].0 as int].len()
    &&& forall|a: int, b: int| 0 <= a < b < st.len() ==> (#[trigger] st[a]).0 != (#[trigger] st[b]).0
    &&& forall|k: int| 0 <= k < st.len() - 1 ==> (#[trigger] st[k]).1 >= 1 && r[st[k].0 as int][st[k].1 - 1] == st[k + 1].0
    &&& forall|k: int, j: int|
        0 <= k < st.len() && 0 <= j < st[k].1 && (k == st.len() - 1 || j < st[k].1 - 1) ==> color[(#[trigger] r[(#[trigger] st[k]).0 as int][j]) as int] == 2
    &&& finished_ok(n, r, color, rank, counter)
}

/// The index of a name.
pub open spec fn idx(ns: Seq<Seq<char>>, x: Seq<char>) -> int {
    choose|k: int| 0 <= k < ns.len() && ns[k] == x
}

/// Along a walk of instantaneous edges, ranks strictly decrease.
proof fn lemma_walk_ranks(
    d: DeploymentView,
    ns: Seq<Seq<char>>,
    edges: Seq<(usize, usize)>,
    r: Seq<Seq<usize>>,
    color: Seq<u8>,
    rank: Seq<int>,
    counter: int,
    p: Seq<Seq<char>>,
    i: int,
)
    requires
        names_ok(d, ns),
        edges_ok(d, ns, edges),
        adj_ok(ns.len(), edges, r),
        color.len() == ns.len(),
        forall|v: int| 0 <= v < ns.len() ==> #[trigger] color[v] == 2,
        finished_ok(ns.len(), r, color, rank, counter),
        ns.len() <= usize::MAX,
        1 <= i < p.len(),
        forall|q: int| 0 <= q < p.len() - 1 ==> same_tick_edge(d, #[trigger] p[q], p[q + 1]),
    ensures
        0 <= idx(ns, p[i]) < ns.len(),
        ns[idx(ns, p[i])] == p[i],
        rank[idx(ns, p[i])] < rank[idx(ns, p[0])],
    decreases i,
{
    let a = p[i - 1];
    let b = p[i];
    assert(same_tick_edge(d, p[i - 1], p[i - 1 + 1]));
    assert(is_component(d, a));
    assert(is_component(d, b));
    let ka = choose|k: int| 0 <= k < d.components.len() && d.components[k].name == a;
    let kb = choose|k: int| 0 <= k < d.components.len() && d.components[k].name == b;
    assert(ns.contains(d.components[ka].name));
    assert(ns.contains(d.components[kb].name));
    let u = idx(ns, a);
    let v = idx(ns, b);
    assert(0 <= u < ns.len() && ns[u] == a);
    assert(0 <= v < ns.len() && ns[v] == b);
    assert(has_edge(edges, u, v));
    assert(row_has(r, u, v));
    let j = choose|j: int| 0 <= j < r[u].len() && r[u][j] == v as usize;
    assert((v as usize) as int == v);
    assert(color[u] == 2);
    assert(rank[r[u][j] as int] < rank[u]);
    if i > 1 {
        lemma_walk_ranks(d, ns, edges, r, color, rank, counter, p, i - 1);
    }
}

/// When every node finished without a back edge, there is no cycle.
proof fn lemma_no_cycle(
    d: DeploymentView,
    ns: Seq<Seq<char>>,
    edges: Seq<(usize, usize)>,
    r: Seq<Seq<usize>>,
    color: Seq<u8>,
    rank: Seq<int>,
    counter: int,
)
    requires
        names_ok(d, ns),
        edges_ok(d, ns, edges),
        adj_ok(ns.len(), edges, r),
        color.len() == ns.len(),
        forall|v: int| 0 <= v < ns.len() ==> #[trigger] color[v] == 2,
        finished_ok(ns.len(), r, color, rank, counter),
        ns.len() <= usize::MAX,
    ensures
        !has_cycle(d),
{
    if has_cycle(d) {
        let p = choose|p: Seq<Seq<char>>| is_cycle(d, p);
        lemma_walk_ranks(d, ns, edges, r, color, rank, counter, p, p.len() - 1);
    }
}

/// Finishing the top node keeps the search invariant.
proof fn lemma_finish(n: nat, r: Seq<Seq<usize>>, color: Seq<u8>, st: Seq<(usize, usize)>, rank: Seq<int>, counter: int)
    requires
        dfs_inv(n, r, color, st, rank, counter),
        st.len() > 0,
        st.last().1 == r[st.last().0 as int].len(),
        forall|u: int, j: int| 0 <= u < n && 0 <= j < r[u].len() ==> (#[trigger] r[u][j]) < n,
    ensures
        dfs_inv(
            n,
            r,
            color.update(st.last().0 as int, 2),
            st.drop_last(),
            rank.update(st.last().0 as int, counter),
            counter + 1,
        ),
{
    let node = st.last().0 as int;
    let top = st.len() - 1;
    let c2 = color.update(node, 2);
    let s2 = st.drop_last();
    let k2 = rank.update(node, counter);
    assert(st[top] == st.last());
    assert forall|v: int| 0 <= v < n implies (#[trigger] c2[v] == 1 <==> on_stack(s2, v)) by {
        if v == node {
            if on_stack(s2, v) {
                let k = choose|k: int| 0 <= k < s2.len() && (#[trigger] s2[k]).0 == v;
                assert(st[k].0 != st[top].0);
            }
        } else {
            if color[v] == 1 {
                let k = choose|k: int| 0 <= k < st.len() && (#[trigger] st[k]).0 == v;
                assert(k != top);
                assert(s2[k] == st[k]);
            }
            if on_stack(s2, v) {
                let k = choose|k: int| 0 <= k < s2.len() && (#[trigger] s2[k]).0 == v;
                assert(st[k] == s2[k]);
            }
        }
    }
    assert forall|k: int, j: int|
        0 <= k < s2.len() && 0 <= j < s2[k].1 && (k == s2.len() - 1 || j < s2[k].1 - 1) implies c2[(#[trigger] r[(#[trigger] s2[k]).0 as int][j]) as int] == 2 by {
        assert(s2[k] == st[k]);
        if k == s2.len() - 1 && j == s2[k].1 - 1 {
            assert(r[st[k].0 as int][st[k].1 - 1] == st[k + 1].0);
        } else {
            assert(color[r[st[k].0 as int][j] as int] == 2);
        }
    }
    assert forall|u: int, j: int|
        0 <= u < n && c2[u] == 2 && 0 <= j < r[u].len() implies c2[#[trigger] r[u][j] as int] == 2 && k2[r[u][j] as int] < k2[u] by {
        if u == node {
            assert(color[r[st[top].0 as int][j] as int] == 2);
            assert(r[u][j] as int != node);
        } else {
            assert(color[u] == 2);
            assert(color[r[u][j] as int] == 2);
            assert(r[u][j] as int != node);
        }
    }
    assert forall|u: int| 0 <= u < n && #[trigger] c2[u] == 2 implies k2[u] < counter + 1 by {
        if u != node {
            assert(color[u] == 2);
        }
    }
    assert forall|k: int| 0 <= k < s2.len() - 1 implies (#[trigger] s2[k]).1 >= 1 && r[s2[k].0 as int][s2[k].1 - 1] == s2[k + 1].0 by {
        assert(s2[k] == st[k]);
        assert(s2[k + 1] == st[k + 1]);
    }
    assert forall|a: int, b: int| 0 <= a < b < s2.len() implies (#[trigger] s2[a]).0 != (#[trigger] s2[b]).0 by {
        assert(s2[a] == st[a]);
        assert(s2[b] == st[b]);
    }
}

/// Skipping a finished target keeps the search invariant.
proof fn lemma_advance(n: nat, r: Seq<Seq<usize>>, color: Seq<u8>, st: Seq<(usize, usize)>, rank: Seq<int>, counter: int)
    requires
        dfs_inv(n, r, color, st, rank, counter),
        st.len() > 0,
        st.last().1 < r[st.last().0 as int].len(),
        st.last().1 + 1 <= usize::MAX,
        color[r[st.last().0 as int][st.last().1 as int] as int] == 2,
    ensures
        dfs_inv(n, r, color, st.update(st.len() - 1, (st.last().0, (st.last().1 + 1) as usize)), rank, counter),
        stack_rem(st.update(st.len() - 1, (st.last().0, (st.last().1 + 1) as usize)), r) < stack_rem(st, r),
{
    let top = st.len() - 1;
    let s2 = st.update(top, (st.last().0, (st.last().1 + 1) as usize));
    assert(st[top] == st.last());
    assert(s2.drop_last() =~= st.drop_last());
    assert forall|v: int| 0 <= v < n implies (#[trigger] color[v] == 1 <==> on_stack(s2, v)) by {
        if on_stack(st, v) {
            let k = choose|k: int| 0 <= k < st.len() && (#[trigger] st[k]).0 == v;
            assert(s2[k].0 == st[k].0);
        }
        if on_stack(s2, v) {
            let k = choose|k: int| 0 <= k < s2.len() && (#[trigger] s2[k]).0 == v;
            assert(s2[k].0 == st[k].0);
        }
    }
    assert forall|k: int, j: int|
        0 <= k < s2.len() && 0 <= j < s2[k].1 && (k == s2.len() - 1 || j < s2[k].1 - 1) implies color[(#[trigger] r[(#[trigger] s2[k]).0 as int][j]) as int] == 2 by {
        if k == top {
            if j < st[top].1 {
                assert(color[r[st[k].0 as int][j] as int] == 2);
            }
        } else {
            assert(s2[k] == st[k]);
        }
    }
    assert forall|k: int| 0 <= k < s2.len() implies (#[trigger] s2[k]).0 < n && s2[k].1 <= r[s2[k].0 as int].len() by {
        if k != top {
            assert(s2[k] == st[k]);
        }
    }
    assert forall|k: int| 0 <= k < s2.len() - 1 implies (#[trigger] s2[k]).1 >= 1 && r[s2[k].0 as int][s2[k].1 - 1] == s2[k + 1].0 by {
        assert(s2[k] == st[k]);
        if k + 1 == top {
            assert(s2[k + 1].0 == st[k + 1].0);
        } else {
            assert(s2[k + 1] == st[k + 1]);
        }
    }
    assert forall|a: int, b: int| 0 <= a < b < s2.len() implies (#[trigger] s2[a]).0 != (#[trigger] s2[b]).0 by {
        assert(s2[a].0 == st[a].0);
        assert(s2[b].0 == st[b].0);
    }
}

/// Descending into an unvisited target keeps the search invariant.
proof fn lemma_push(n: nat, r: Seq<Seq<usize>>, color: Seq<u8>, st: Seq<(usize, usize)>, rank: Seq<int>, counter: int)
    requires
        dfs_inv(n, r, color, st, rank, counter),
        st.len() > 0,
        st.last().1 < r[st.last().0 as int].len(),
        st.last().1 + 1 <= usize::MAX,
        r[st.last().0 as int][st.last().1 as int] < n,
        forall|u: int, j: int| 0 <= u < n && 0 <= j < r[u].len() ==> (#[trigger] r[u][j]) < n,
        color[r[st.last().0 as int][st.last().1 as int] as int] == 0,
    ensures
        ({
            let t = r[st.last().0 as int][st.last().1 as int];
            dfs_inv(
                n,
                r,
                color.update(t as int, 1),
                st.update(st.len() - 1, (st.last().0, (st.last().1 + 1) as usize)).push((t, 0usize)),
                rank,
                counter,
            )
        }),
{
    let top = st.len() - 1;
    let t = r[st.last().0 as int][st.last().1 as int];
    let c2 = color.update(t as int, 1);
    let s1 = st.update(top, (st.last().0, (st.last().1 + 1) as usize));
    let s2 = s1.push((t, 0usize));
    assert(st[top] == st.last());
    assert(!on_stack(st, t as int));
    assert forall|v: int| 0 <= v < n implies (#[trigger] c2[v] == 1 <==> on_stack(s2, v)) by {
        if v == t as int {
            assert(s2[top + 1].0 == t);
        } else {
            if on_stack(st, v) {
                let k = choose|k: int| 0 <= k < st.len() && (#[trigger] st[k]).0 == v;
                assert(s2[k].0 == st[k].0);
            }
            if on_stack(s2, v) {
                let k = choose|k: int| 0 <= k < s2.len() && (#[trigger] s2[k]).0 == v;
                if k < st.len() {
                    assert(s2[k].0 == st[k].0);
                }
            }
        }
    }
    assert forall|k: int, j: int|
        0 <= k < s2.len() && 0 <= j < s2[k].1 && (k == s2.len() - 1 || j < s2[k].1 - 1) implies c2[(#[trigger] r[(#[trigger] s2[k]).0 as int][j]) as int] == 2 by {
        if k == top + 1 {
        } else if k == top {
            assert(s2[k] == (st[top].0, (st[top].1 + 1) as usize));
            assert(color[r[st[k].0 as int][j] as int] == 2);
            assert(r[st[k].0 as int][j] as int != t as int);
            assert(c2[r[st[k].0 as int][j] as int] == color[r[st[k].0 as int][j] as int]);
        } else {
            assert(s2[k] == st[k]);
            assert(color[r[st[k].0 as int][j] as int] == 2);
            assert(r[st[k].0 as int][j] as int != t as int);
            assert(c2[r[st[k].0 as int][j] as int] == color[r[st[k].0 as int][j] as int]);
        }
    }
    assert forall|u: int, j: int|
        0 <= u < n && c2[u] == 2 && 0 <= j < r[u].len() implies c2[#[trigger] r[u][j] as int] == 2 && rank[r[u][j] as int] < rank[u] by {
        assert(u != t as int);
        assert(color[u] == 2);
        assert(color[r[u][j] as int] == 2);
        assert(r[u][j] as int != t as int);
        assert(c2[r[u][j] as int] == color[r[u][j] as int]);
    }
    assert forall|u: int| 0 <= u < n && #[trigger] c2[u] == 2 implies rank[u] < counter by {
        assert(color[u] == 2);
    }
    assert forall|v: int| 0 <= v < n implies #[trigger] c2[v] <= 2 by {
    }
    assert forall|k: int| 0 <= k < s2.len() implies (#[trigger] s2[k]).0 < n && s2[k].1 <= r[s2[k].0 as int].len() by {
        if k < top {
            assert(s2[k] == st[k]);
        }
    }
    assert forall|k: int| 0 <= k < s2.len() - 1 implies (#[trigger] s2[k]).1 >= 1 && r[s2[k].0 as int][s2[k].1 - 1] == s2[k + 1].0 by {
        if k < top {
            assert(s2[k] == st[k]);
            if k + 1 == top {
                assert(s2[k + 1].0 == st[k + 1].0);
            } else {
                assert(s2[k + 1] == st[k + 1]);
            }
        }
    }
    assert forall|a: int, b: int| 0 <= a < b < s2.len() implies (#[trigger] s2[a]).0 != (#[trigger] s2[b]).0 by {
        if b == top + 1 {
            assert(s2[a].0 == st[a].0);
            assert(st[a].0 != t) by {
                if st[a].0 == t {
                    assert(on_stack(st, t as int));
                }
            }
        } else {
            assert(s2[a].0 == st[a].0);
            assert(s2[b].0 == st[b].0);
        }
    }
}

/// A row entry is an edge.
proof fn lemma_row_edge(d: DeploymentView, ns: Seq<Seq<char>>, edges: Seq<(usize, usize)>, r: Seq<Seq<usize>>, u: int, j: int)
    requires
        names_ok(d, ns),
        edges_ok(d, ns, edges),
        adj_ok(ns.len(), edges, r),
        ns.len() <= usize::MAX,
        0 <= u < ns.len(),
        0 <= j < r[u].len(),
    ensures
        same_tick_edge(d, ns[u], ns[r[u][j] as int]),
{
    let v = r[u][j] as int;
    assert(r[u][j] < ns.len());
    assert((v as usize) == r[u][j]);
    assert(r[u].contains(v as usize));
    assert(row_has(r, u, v));
    assert(has_edge(edges, u, v));
}

/// The names along the search stack from `start`, closed by `target`.
#[verifier::loop_isolation(false)]
fn cycle_names(
    names: &Vec<String>,
    stack: &Vec<(usize, usize)>,
    start: usize,
    target: usize,
) -> (out: Vec<String>)
    requires
        start < stack@.len(),
        target < names@.len(),
        forall|k: int| 0 <= k < stack@.len() ==> (#[trigger] stack@[k]).0 < names@.len(),
    ensures
        strs(out@).len() == stack@.len() - start + 1,
        forall|i: int| 0 <= i < stack@.len() - start ==> #[trigger] strs(out@)[i] == strs(names@)[stack@[start + i].0 as int],
        strs(out@).last() == strs(names@)[target as int],
{
    let mut out: Vec<String> = Vec::new();
    let mut q: usize = start;
    while q < stack.len()
        invariant
            start <= q <= stack@.len(),
            out@.len() == q - start,
            forall|i: int| 0 <= i < q - start ==> #[trigger] out@[i]@ == names@[stack@[start + i].0 as int]@,
        decreases stack@.len() - q,
    {
        out.push(names[stack[q].0].clone());
        q = q + 1;
    }
    out.push(names[target].clone());
    proof {
        assert forall|i: int| 0 <= i < stack@.len() - start implies #[trigger] strs(out@)[i] == strs(names@)[stack@[start + i].0 as int] by {
            assert(out@[i]@ == names@[stack@[start + i].0 as int]@);
        }
    }
    out
}

/// A same-tick dependency cycle, if the instantaneous subgraph has one: the
/// first back edge met by a depth-first search from component names in byte
/// order, following edges to targets in byte order.
pub fn find_cycle(d: &Deployment) -> (r: Option<Vec<String>>)
    ensures
        match r {
            Some(p) => is_cycle(deployment_view(*d), strs(p@)),
            None => !has_cycle(deployment_view(*d)),
        },
{
    let ghost dv = deployment_view(*d);
    let names = component_names(d);
    let edges = instant_edges(d, &names);
    let n = names.len();
    let adj = adjacency(n, &edges);
    let ghost ns = strs(names@);
    let ghost rr = rows(adj@);
    assert(ns.len() == n);
    let mut color: Vec<u8> = Vec::new();
    let mut i: usize = 0;
    while i < n
        invariant
            i <= n,
            color@.len() == i,
            forall|v: int| 0 <= v < i ==> color@[v] == 0,
        decreases n - i,
    {
        color.push(0);
        i = i + 1;
    }
    let ghost mut rank: Seq<int> = Seq::new(n as nat, |v: int| 0int);
    let ghost mut counter: int = 0;
    let ghost mut visited: Set<int> = Set::empty();
    proof {
        assert forall|v: int| 0 <= v < n implies (#[trigger] color@[v] == 1 <==> on_stack(Seq::<(usize, usize)>::empty(), v)) by {
        }
        assert(dfs_inv(n as nat, rr, color@, Seq::empty(), rank, counter));
    }
    let mut root: usize = 0;
    while root < n
        invariant
            root <= n,
            dv == deployment_view(*d),
            n == names@.len(),
            ns == strs(names@),
            rr == rows(adj@),
            names_ok(dv, ns),
            edges_ok(dv, ns, edges@),
            adj_ok(n as nat, edges@, rr),
            dfs_inv(n as nat, rr, color@, Seq::empty(), rank, counter),
            forall|v: int| 0 <= v < root ==> #[trigger] color@[v] == 2,
            forall|v: int| visited.contains(v) <==> (0 <= v < n && color@[v] != 0),
            visited.finite(),
        decreases n - root,
    {
        if color[root] == 0 {
            let mut stack: Vec<(usize, usize)> = Vec::new();
            proof {
                lemma_push_root(n as nat, rr, color@, rank, counter, root as int);
            }
            color.set(root, 1);
            stack.push((root, 0));
            proof {
                visited = visited.insert(root as int);
                vstd::set_lib::lemma_int_range(0, n as int);
                vstd::set_lib::lemma_len_subset(visited, vstd::set_lib::set_int_range(0, n as int));
            }
            while stack.len() > 0
                invariant
                    root < n,
                    dv == deployment_view(*d),
                    n == names@.len(),
                    ns == strs(names@),
                    rr == rows(adj@),
                    names_ok(dv, ns),
                    edges_ok(dv, ns, edges@),
                    adj_ok(n as nat, edges@, rr),
                    dfs_inv(n as nat, rr, color@, stack@, rank, counter),
                    forall|v: int| 0 <= v < root ==> #[trigger] color@[v] == 2,
                    color@[root as int] != 0,
                    forall|v: int| visited.contains(v) <==> (0 <= v < n && color@[v] != 0),
                    visited.finite(),
                    visited.len() <= n,
                decreases n - visited.len(), stack_rem(stack@, rr),
            {
                let top = stack.len() - 1;
                let (node, next) = stack[top];
                let ghost old_rem = stack_rem(stack@, rr);
                let ghost old_vlen = visited.len();
                proof {
                    assert(stack@[top as int] == stack@.last());
                }
                if next == adj[node].len() {
                    proof {
                        lemma_finish(n as nat, rr, color@, stack@, rank, counter);
                        rank = rank.update(node as int, counter);
                        counter = counter + 1;
                        assert(stack_rem(stack@, rr) == stack_rem(stack@.drop_last(), rr) + 1);
                    }
                    color.set(node, 2);
                    stack.pop();
                    assert(stack_rem(stack@, rr) < old_rem);
                    proof {
                        assert forall|v: int| visited.contains(v) <==> (0 <= v < n && color@[v] != 0) by {
                        }
                    }
                } else {
                    let target = adj[node][next];
                    proof {
                        assert(rr[node as int][next as int] == target);
                    }
                    let c = color[target];
                    if c == 1 {
                        let mut start: usize = 0;
                        proof {
                            assert(on_stack(stack@, target as int));
                        }
                        while start < stack.len() && stack[start].0 != target
                            invariant
                                start <= stack@.len(),
                                on_stack(stack@, target as int),
                                forall|q: int| 0 <= q < start ==> (#[trigger] stack@[q]).0 != target,
                            decreases stack@.len() - start,
                        {
                            start = start + 1;
                        }
                        proof {
                            if start == stack@.len() {
                                let k = choose|k: int| 0 <= k < stack@.len() && (#[trigger] stack@[k]).0 == target as int;
                                assert(stack@[k].0 != target);
                            }
                            assert(stack@[start as int].0 == target);
                        }
                        let cycle = cycle_names(&names, &stack, start, target);
                        proof {
                            let p = strs(cycle@);
                            let m = stack@.len() - start;
                            assert(p[0] == ns[stack@[start as int].0 as int]);
                            assert(p.len() >= 2);
                            assert(p[0] == p.last());
                            assert forall|q: int| 0 <= q < p.len() - 1 implies same_tick_edge(dv, #[trigger] p[q], p[q + 1]) by {
                                if q < m - 1 {
                                    let k = start + q;
                                    assert(stack@[k].1 >= 1 && rr[stack@[k].0 as int][stack@[k].1 - 1] == stack@[k + 1].0);
                                    lemma_row_edge(dv, ns, edges@, rr, stack@[k].0 as int, stack@[k].1 - 1);
                                    assert(p[q] == ns[stack@[k].0 as int]);
                                    assert(p[q + 1] == ns[stack@[k + 1].0 as int]);
                                } else {
                                    assert(q == m - 1);
                                    assert(p[q] == ns[stack@[top as int].0 as int]);
                                    lemma_row_edge(dv, ns, edges@, rr, node as int, next as int);
                                }
                            }
                        }
                        return Some(cycle);
                    }
                    proof {
                        if c == 2 {
                            lemma_advance(n as nat, rr, color@, stack@, rank, counter);
                        } else {
                            lemma_push(n as nat, rr, color@, stack@, rank, counter);
                        }
                    }
                    stack.set(top, (node, next + 1));
                    assert(c == 2 ==> stack_rem(stack@, rr) < old_rem);
                    if c == 0 {
                        color.set(target, 1);
                        stack.push((target, 0));
                        proof {
                            assert(!visited.contains(target as int));
                            let ghost old_len = visited.len();
                            visited = visited.insert(target as int);
                            assert(visited.len() == old_len + 1);
                            vstd::set_lib::lemma_int_range(0, n as int);
                            vstd::set_lib::lemma_len_subset(visited, vstd::set_lib::set_int_range(0, n as int));
                        }
                    }
                }
            }
            proof {
                assert forall|v: int| 0 <= v < root + 1 implies #[trigger] color@[v] == 2 by {
                    if v == root {
                        assert(color@[v] != 1) by {
                            if color@[v] == 1 {
                                assert(on_stack(stack@, v));
                            }
                        }
                    }
                }
            }
        } else {
            proof {
                assert(color@[root as int] != 1) by {
                    if color@[root as int] == 1 {
                        assert(on_stack(Seq::<(usize, usize)>::empty(), root as int));
                    }
                }
            }
        }
        root = root + 1;
    }
    proof {
        lemma_no_cycle(dv, ns, edges@, rr, color@, rank, counter);
    }
    None
}

/// Starting a search at an unvisited root keeps the search invariant.
proof fn lemma_push_root(n: nat, r: Seq<Seq<usize>>, color: Seq<u8>, rank: Seq<int>, counter: int, root: int)
    requires
        dfs_inv(n, r, color, Seq::empty(), rank, counter),
        0 <= root < n,
        color[root] == 0,
        root <= usize::MAX,
        forall|u: int, j: int| 0 <= u < n && 0 <= j < r[u].len() ==> (#[trigger] r[u][j]) < n,
    ensures
        dfs_inv(n, r, color.update(root, 1), seq![(root as usize, 0usize)], rank, counter),
{
    let c2 = color.update(root, 1);
    let s2 = seq![(root as usize, 0usize)];
    assert forall|v: int| 0 <= v < n implies (#[trigger] c2[v] == 1 <==> on_stack(s2, v)) by {
        if v == root {
            assert(s2[0].0 == root as usize);
        } else {
            assert(!on_stack(Seq::<(usize, usize)>::empty(), v));
            if on_stack(s2, v) {
                let k = choose|k: int| 0 <= k < s2.len() && (#[trigger] s2[k]).0 == v;
                assert(k == 0);
            }
        }
    }
    assert forall|u: int, j: int|
        0 <= u < n && c2[u] == 2 && 0 <= j < r[u].len() implies c2[#[trigger] r[u][j] as int] == 2 && rank[r[u][j] as int] < rank[u] by {
        assert(u != root);
        assert(color[u] == 2);
        assert(color[r[u][j] as int] == 2);
        assert(r[u][j] as int != root);
        assert(c2[r[u][j] as int] == color[r[u][j] as int]);
    }
    assert forall|u: int| 0 <= u < n && #[trigger] c2[u] == 2 implies rank[u] < counter by {
        assert(color[u] == 2);
    }
}

/// The number of leading characters whose UTF-8 encoding fits in `budget` bytes.
pub open spec fn fitting_prefix(s: Seq<char>, budget: nat) -> nat
    decreases s.len(),
{
    if s.len() == 0 {
        0
    } else if utf8_len(s[0]) <= budget {
        1 + fitting_prefix(s.drop_first(), (budget - utf8_len(s[0])) as nat)
    } else {
        0
    }
}

/// A name cut to at most 32 UTF-8 bytes at a character boundary, marked with
/// an ellipsis when cut.
pub open spec fn clip_name(s: Seq<char>) -> Seq<char> {
    let k = fitting_prefix(s, 32);
    if k < s.len() {
        s.take(k as int).push('…')
    } else {
        s
    }
}

/// Clipped names joined by arrows.
pub open spec fn join_arrows(p: Seq<Seq<char>>) -> Seq<char>
    decreases p.len(),
{
    if p.len() == 0 {
        Seq::empty()
    } else if p.len() == 1 {
        clip_name(p[0])
    } else {
        join_arrows(p.drop_last()) + " -> "@ + clip_name(p.last())
    }
}

/// The bounded description of a cycle: at most 16 clipped names.
pub open spec fn cycle_summary(p: Seq<Seq<char>>) -> Seq<char> {
    "instantaneous cycle ("@ + decimal_chars(p.len()) + " vertices including closure): "@ + join_arrows(
        p.take(if p.len() > 16 { 16 } else { p.len() as int }),
    ) + if p.len() > 16 {
        " -> …"@
    } else {
        Seq::empty()
    }
}

/// UTF-8 width of a character.
fn char_width(c: char) -> (n: usize)
    ensures
        n == utf8_len(c),
{
    let u = c as u32;
    if u < 0x80 {
        1
    } else if u < 0x800 {
        2
    } else if u < 0x10000 {
        3
    } else {
        4
    }
}

/// A name cut as `clip_name` says.
fn clip(name: &String) -> (r: String)
    ensures
        r@ == clip_name(name@),
{
    let chars = chars_of(name.as_str());
    let mut budget: usize = 32;
    let mut k: usize = 0;
    assert(name@.skip(0) =~= name@);
    while k < chars.len() && char_width(chars[k]) <= budget
        invariant
            k <= chars@.len(),
            chars@ == name@,
            budget <= 32,
            fitting_prefix(name@, 32) == k + fitting_prefix(name@.skip(k as int), budget as nat),
        decreases chars@.len() - k,
    {
        proof {
            assert(name@.skip(k as int).drop_first() =~= name@.skip(k + 1));
            assert(name@.skip(k as int)[0] == chars@[k as int]);
        }
        budget = budget - char_width(chars[k]);
        k = k + 1;
    }
    proof {
        if k < chars.len() {
            assert(name@.skip(k as int)[0] == chars@[k as int]);
        } else {
            assert(name@.skip(k as int).len() == 0);
        }
        assert(fitting_prefix(name@, 32) == k);
    }
    if k < chars.len() {
        let mut out: Vec<char> = Vec::new();
        let mut q: usize = 0;
        while q < k
            invariant
                q <= k <= chars@.len(),
                out@ == chars@.take(q as int),
            decreases k - q,
        {
            out.push(chars[q]);
            q = q + 1;
            assert(out@ =~= chars@.take(q as int));
        }
        out.push('…');
        string_from_chars(&out)
    } else {
        name.clone()
    }
}

/// The bounded description of a cycle.
pub fn summarize_cycle(p: &Vec<String>) -> (s: String)
    ensures
        s@ == cycle_summary(strs(p@)),
{
    let ghost ps = strs(p@);
    let mut s = "instantaneous cycle (".to_owned();
    push_decimal(&mut s, p.len() as u64);
    push_str(&mut s, " vertices including closure): ");
    let shown: usize = if p.len() > 16 { 16 } else { p.len() };
    let ghost head = s@;
    let mut i: usize = 0;
    while i < shown
        invariant
            i <= shown <= p@.len(),
            ps == strs(p@),
            s@ == head + join_arrows(ps.take(i as int)),
        decreases shown - i,
    {
        proof {
            assert(ps.take(i + 1).drop_last() =~= ps.take(i as int));
            assert(ps.take(i + 1).last() == p@[i as int]@);
        }
        if i > 0 {
            push_str(&mut s, " -> ");
        }
        let c = clip(&p[i]);
        push_str(&mut s, c.as_str());
        i = i + 1;
        assert(s@ =~= head + join_arrows(ps.take(i as int)));
    }
    if p.len() > 16 {
        push_str(&mut s, " -> …");
    }
    proof {
        assert(s@ =~= cycle_summary(ps));
    }
    s
}

} // verus!
