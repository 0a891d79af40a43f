//! Reference-cycle detection over the schema's dependency graph.
//!
//! The graph maps each type name to the names its definition references.
//! [`check_cycle`] accepts exactly the acyclic graphs: on success the
//! traversal leaves every node in a finish order in which every edge
//! points backwards ([`ranked`]), which rules every cycle out; on failure
//! the traversal stack exhibits a concrete cycle.

use vstd::prelude::*;

use crate::errors::Error;
use crate::types::{names_of, seq_distinct};
use crate::validate::{assoc_lookup, has_name, lemma_assoc_first, lemma_assoc_lookup};

verus! {

/// The dependency graph: each type name with the names it references.
pub type Graph = Vec<(String, Vec<String>)>;

/// The model of a dependency graph.
pub type GraphV = Seq<(Seq<char>, Seq<Seq<char>>)>;

/// The model of a graph, in order.
pub open spec fn graph_view(g: Seq<(String, Vec<String>)>) -> GraphV
    decreases g,
{
    if g.len() == 0 {
        Seq::empty()
    } else {
        graph_view(g.drop_last()).push((g.last().0@, g.last().1.deep_view()))
    }
}

/// The model of a graph, pointwise.
pub broadcast proof fn lemma_graph_view(g: Seq<(String, Vec<String>)>)
    ensures
        (#[trigger] graph_view(g)).len() == g.len(),
        forall|i: int| 0 <= i < g.len() ==> graph_view(g)[i] == (g[i].0@, g[i].1.deep_view()),
    decreases g.len(),
{
    if g.len() > 0 {
        lemma_graph_view(g.drop_last());
    }
}

/// The graph has an edge from `a` to `b`: the entry for `a` lists `b`.
pub open spec fn edge(g: GraphV, a: Seq<char>, b: Seq<char>) -> bool {
    assoc_lookup(g, a) matches Some(ns) && ns.contains(b)
}

/// `p` is a cycle: consecutive edges, and an edge from its last node back
/// to its first.
pub open spec fn is_cycle(g: GraphV, p: Seq<Seq<char>>) -> bool {
    &&& p.len() > 0
    &&& forall|i: int| 0 <= i < p.len() - 1 ==> edge(g, #[trigger] p[i], p[i + 1])
    &&& edge(g, p.last(), p[0])
}

/// Some reference chain returns to its origin.
pub open spec fn has_cycle_in(g: GraphV) -> bool {
    exists|p: Seq<Seq<char>>| is_cycle(g, p)
}

/// Every edge leaving a finished node points to an earlier finished node.
pub open spec fn ranked(g: GraphV, fin: Seq<Seq<char>>) -> bool {
    forall|i: int, b: Seq<char>|
        0 <= i < fin.len() && #[trigger] edge(g, fin[i], b) ==> exists|j: int|
            0 <= j < i && fin[j] == b
}

/// Consecutive stack entries are joined by edges.
pub open spec fn path_ok(g: GraphV, st: Seq<Seq<char>>) -> bool {
    forall|i: int| 0 <= i < st.len() - 1 ==> edge(g, #[trigger] st[i], st[i + 1])
}

/// The names the graph has entries for.
pub open spec fn graph_keys(g: GraphV) -> Set<Seq<char>> {
    names_of(g).to_set()
}

/// The nodes the traversal has neither finished nor entered: its
/// termination measure.
pub open spec fn unentered(g: GraphV, fin: Seq<Seq<char>>, st: Seq<Seq<char>>) -> nat {
    graph_keys(g).difference(fin.to_set()).difference(st.to_set()).len()
}

/// A node with an entry is one of the graph's keys.
proof fn lemma_edge_source_key(g: GraphV, a: Seq<char>)
    requires
        has_name(g, a),
    ensures
        graph_keys(g).contains(a),
{
    let i = choose|i: int| 0 <= i < g.len() && g[i].0 == a;
    assert(names_of(g)[i] == a);
    assert(names_of(g).contains(a));
}

/// Entering one unentered node makes the measure strictly smaller, however
/// the finished list has grown meanwhile.
proof fn lemma_measure_dec(
    g: GraphV,
    fin0: Seq<Seq<char>>,
    st0: Seq<Seq<char>>,
    fin1: Seq<Seq<char>>,
    st1: Seq<Seq<char>>,
    node: Seq<char>,
)
    requires
        fin0.to_set().subset_of(fin1.to_set()),
        st1.to_set() == st0.to_set().insert(node),
        graph_keys(g).contains(node),
        !fin0.to_set().contains(node),
        !st0.to_set().contains(node),
    ensures
        unentered(g, fin1, st1) < unentered(g, fin0, st0),
{
    broadcast use vstd::seq_lib::seq_to_set_is_finite;

    let a0 = graph_keys(g).difference(fin0.to_set()).difference(st0.to_set());
    let a1 = graph_keys(g).difference(fin1.to_set()).difference(st1.to_set());
    assert(graph_keys(g).finite());
    assert(a0.finite());
    assert(a1.finite());
    assert(a0.contains(node));
    assert(a1.subset_of(a0.remove(node)));
    vstd::set_lib::lemma_len_subset(a1, a0.remove(node));
    assert(a0.remove(node).len() == a0.len() - 1);
}

/// Appending a node all of whose edge targets are already finished keeps
/// the finish order ranked.
proof fn lemma_ranked_push(g: GraphV, fin: Seq<Seq<char>>, node: Seq<char>)
    requires
        ranked(g, fin),
        forall|b: Seq<char>| #[trigger] edge(g, node, b) ==> fin.contains(b),
    ensures
        ranked(g, fin.push(node)),
{
    let fin1 = fin.push(node);
    assert forall|i: int, b: Seq<char>|
        0 <= i < fin1.len() && #[trigger] edge(g, fin1[i], b) implies exists|j: int|
        0 <= j < i && fin1[j] == b by {
        if i < fin.len() {
            assert(fin1[i] == fin[i]);
            let j = choose|j: int| 0 <= j < i && fin[j] == b;
            assert(fin1[j] == b);
        } else {
            assert(fin1[i] == node);
            assert(fin.contains(b));
            let j = choose|j: int| 0 <= j < fin.len() && fin[j] == b;
            assert(fin1[j] == b);
        }
    }
}

/// Membership survives extension by a prefix relation.
proof fn lemma_prefix_contains(a: Seq<Seq<char>>, b: Seq<Seq<char>>, x: Seq<char>)
    requires
        a.is_prefix_of(b),
        a.contains(x),
    ensures
        b.contains(x),
{
    let i = choose|i: int| 0 <= i < a.len() && a[i] == x;
    assert(b[i] == a[i]);
}

/// Pushing an element inserts exactly it into the set of elements.
proof fn lemma_push_to_set(s: Seq<Seq<char>>, x: Seq<char>)
    ensures
        s.push(x).to_set() == s.to_set().insert(x),
{
    let p = s.push(x);
    assert forall|y: Seq<char>| p.to_set().contains(y) implies s.to_set().insert(x).contains(
        y,
    ) by {
        let i = choose|i: int| 0 <= i < p.len() && p[i] == y;
        if i < s.len() {
            assert(s[i] == y);
        }
    }
    assert forall|y: Seq<char>| s.to_set().insert(x).contains(y) implies p.to_set().contains(
        y,
    ) by {
        if y == x {
            assert(p.last() == x);
        } else {
            let i = choose|i: int| 0 <= i < s.len() && s[i] == y;
            assert(p[i] == y);
        }
    }
    assert(p.to_set() =~= s.to_set().insert(x));
}

/// A suffix of the traversal stack that starts where `node` sits on it is
/// a cycle, given one more edge from the stack's top back to `node`.
proof fn lemma_stack_cycle(g: GraphV, st: Seq<Seq<char>>, node: Seq<char>, j: int)
    requires
        path_ok(g, st),
        0 <= j < st.len(),
        st[j] == node,
        edge(g, st.last(), node),
    ensures
        is_cycle(g, st.subrange(j, st.len() as int)),
{
    let p = st.subrange(j, st.len() as int);
    assert(p.len() > 0);
    assert forall|i: int| 0 <= i < p.len() - 1 implies edge(g, #[trigger] p[i], p[i + 1]) by {
        assert(p[i] == st[j + i]);
        assert(p[i + 1] == st[j + i + 1]);
        assert(edge(g, st[j + i], st[j + i + 1]));
    }
    assert(p.last() == st.last());
    assert(p[0] == node);
}

/// The position of a node in a duplicate-free finish order.
spec fn fin_rank(fin: Seq<Seq<char>>, x: Seq<char>) -> int {
    choose|j: int| 0 <= j < fin.len() && fin[j] == x
}

/// Along any edge between finished nodes, the rank strictly decreases.
proof fn lemma_edge_rank(g: GraphV, fin: Seq<Seq<char>>, a: Seq<char>, b: Seq<char>)
    requires
        ranked(g, fin),
        seq_distinct(fin),
        fin.contains(a),
        edge(g, a, b),
    ensures
        fin.contains(b),
        0 <= fin_rank(fin, b) < fin_rank(fin, a) < fin.len(),
{
    let ia = fin_rank(fin, a);
    assert(0 <= ia < fin.len() && fin[ia] == a);
    assert(edge(g, fin[ia], b));
    let j = choose|j: int| 0 <= j < ia && fin[j] == b;
    assert(fin.contains(b));
    let ib = fin_rank(fin, b);
    assert(0 <= ib < fin.len() && fin[ib] == b);
    if ib != j {
        assert(fin[ib] == fin[j]);
        assert(false);
    }
}

/// Ranks strictly descend along a cycle, step by step.
proof fn lemma_cycle_desc(g: GraphV, fin: Seq<Seq<char>>, p: Seq<Seq<char>>, k: int)
    requires
        ranked(g, fin),
        seq_distinct(fin),
        forall|n: Seq<char>| graph_keys(g).contains(n) ==> fin.contains(n),
        is_cycle(g, p),
        0 <= k < p.len(),
    ensures
        fin.contains(p[k]),
        fin_rank(fin, p[k]) <= fin_rank(fin, p[0]) - k,
    decreases k,
{
    broadcast use lemma_assoc_lookup;

    if k == 0 {
        if p.len() == 1 {
            assert(edge(g, p[0], p[0]));
            lemma_edge_source_key(g, p[0]);
        } else {
            assert(edge(g, p[0], p[1]));
            lemma_edge_source_key(g, p[0]);
        }
        assert(fin.contains(p[0]));
    } else {
        lemma_cycle_desc(g, fin, p, k - 1);
        if k - 1 < p.len() - 1 {
            assert(edge(g, p[k - 1], p[k]));
        } else {
            assert(false);
        }
        lemma_edge_rank(g, fin, p[k - 1], p[k]);
    }
}

/// A graph whose keys all sit in one ranked, duplicate-free finish order
/// has no cycle.
proof fn lemma_ranked_acyclic(g: GraphV, fin: Seq<Seq<char>>)
    requires
        ranked(g, fin),
        seq_distinct(fin),
        forall|n: Seq<char>| graph_keys(g).contains(n) ==> fin.contains(n),
    ensures
        !has_cycle_in(g),
{
    broadcast use lemma_assoc_lookup;

    if has_cycle_in(g) {
        let p = choose|p: Seq<Seq<char>>| is_cycle(g, p);
        let last = p.len() - 1;
        lemma_cycle_desc(g, fin, p, last);
        assert(edge(g, p[last], p[0]));
        lemma_edge_rank(g, fin, p[last], p[0]);
        assert(false);
    }
}

/// Whether a list of names holds this name.
#[verifier::loop_isolation(false)]
fn vec_contains(v: &Vec<String>, x: &String) -> (r: bool)
    ensures
        r == v.deep_view().contains(x@),
{
    let mut i: usize = 0;
    while i < v.len()
        invariant
            i <= v.len(),
            forall|j: int| 0 <= j < i as int ==> v.deep_view()[j] != x@,
        decreases v.len() - i,
    {
        if v[i] == *x {
            proof {
                assert(v.deep_view()[i as int] == v@[i as int]@);
            }
            return true;
        }
        proof {
            assert(v.deep_view()[i as int] == v@[i as int]@);
        }
        i = i + 1;
    }
    false
}

/// The neighbour list the graph binds to this name, if any.
#[verifier::loop_isolation(false)]
fn graph_get<'a>(graph: &'a Graph, name: &String) -> (r: Option<&'a Vec<String>>)
    ensures
        r matches Some(ns) ==> assoc_lookup(graph_view(graph@), name@) == Some(ns.deep_view())
            && has_name(graph_view(graph@), name@),
        r is None ==> !has_name(graph_view(graph@), name@),
{
    broadcast use {lemma_graph_view, lemma_assoc_lookup};

    let ghost gv = graph_view(graph@);
    let mut i: usize = 0;
    while i < graph.len()
        invariant
            i <= graph.len(),
            forall|j: int| 0 <= j < i as int ==> gv[j].0 != name@,
        decreases graph.len() - i,
    {
        if graph[i].0 == *name {
            proof {
                lemma_assoc_first(gv, name@, i as int);
            }
            return Some(&graph[i].1);
        }
        i = i + 1;
    }
    None
}

/// One depth-first step from `node`: reports `true` exactly when it runs
/// into the traversal stack — a cycle — and otherwise finishes `node` and
/// everything reachable from it, keeping the finish order ranked.
#[verifier::loop_isolation(false)]
pub fn has_cycle(node: &String, graph: &Graph, visited: &mut Vec<String>, stack: &mut Vec<
    String,
>) -> (r: bool)
    requires
        ranked(graph_view(graph@), old(visited).deep_view()),
        seq_distinct(old(visited).deep_view()),
        path_ok(graph_view(graph@), old(stack).deep_view()),
        old(stack).deep_view().len() > 0 ==> edge(
            graph_view(graph@),
            old(stack).deep_view().last(),
            node@,
        ),
        forall|x: Seq<char>| old(visited).deep_view().contains(x) ==> !old(
            stack,
        ).deep_view().contains(x),
    ensures
        r ==> has_cycle_in(graph_view(graph@)),
        !r ==> old(visited).deep_view().is_prefix_of(final(visited).deep_view()),
        !r ==> ranked(graph_view(graph@), final(visited).deep_view()),
        !r ==> seq_distinct(final(visited).deep_view()),
        !r ==> final(stack).deep_view() == old(stack).deep_view(),
        !r ==> final(visited).deep_view().contains(node@),
        !r ==> forall|x: Seq<char>| final(visited).deep_view().contains(x) ==> !old(
            stack,
        ).deep_view().contains(x),
    decreases unentered(graph_view(graph@), visited.deep_view(), stack.deep_view()),
{
    broadcast use {lemma_graph_view, lemma_assoc_lookup,
        vstd::seq_lib::seq_to_set_is_finite};

    let ghost gv = graph_view(graph@);
    let ghost fin0 = visited.deep_view();
    let ghost st0 = stack.deep_view();

    if vec_contains(stack, node) {
        proof {
            let j = choose|j: int| 0 <= j < st0.len() && st0[j] == node@;
            lemma_stack_cycle(gv, st0, node@, j);
        }
        return true;
    }
    if vec_contains(visited, node) {
        proof {
            assert(fin0.is_prefix_of(fin0));
        }
        return false;
    }

    let neighbors = match graph_get(graph, node) {
        Some(ns) => ns,
        None => {
            // No entry: no edges leave `node`; finish it at once.
            visited.push(node.clone());
            proof {
                assert(visited.deep_view() =~= fin0.push(node@));
                assert forall|b: Seq<char>| #[trigger]
                    edge(gv, node@, b) implies fin0.contains(b) by {
                    assert(has_name(gv, node@));
                }
                lemma_ranked_push(gv, fin0, node@);
                assert(fin0.is_prefix_of(visited.deep_view())) by {
                    assert(visited.deep_view().subrange(0, fin0.len() as int) =~= fin0);
                }
                assert(visited.deep_view().contains(node@)) by {
                    assert(visited.deep_view().last() == node@);
                }
            }
            return false;
        },
    };

    stack.push(node.clone());
    proof {
        assert(stack.deep_view() =~= st0.push(node@));
        assert forall|i: int|
            0 <= i < stack.deep_view().len() - 1 implies edge(
            gv,
            #[trigger] stack.deep_view()[i],
            stack.deep_view()[i + 1],
        ) by {
            if i < st0.len() - 1 {
                assert(stack.deep_view()[i] == st0[i]);
                assert(stack.deep_view()[i + 1] == st0[i + 1]);
            } else {
                assert(stack.deep_view()[i] == st0.last());
                assert(stack.deep_view()[i + 1] == node@);
            }
        }
    }

    let ghost st1 = stack.deep_view();
    let mut i: usize = 0;
    while i < neighbors.len()
        invariant
            i <= neighbors.len(),
            stack.deep_view() == st1,
            st1 =~= st0.push(node@),
            ranked(gv, visited.deep_view()),
            seq_distinct(visited.deep_view()),
            fin0.is_prefix_of(visited.deep_view()),
            forall|x: Seq<char>| visited.deep_view().contains(x) ==> !st1.contains(x),
            forall|j: int| 0 <= j < i as int ==> visited.deep_view().contains(
                #[trigger] neighbors.deep_view()[j],
            ),
        decreases neighbors.len() - i,
    {
        proof {
            assert(neighbors.deep_view()[i as int] == neighbors@[i as int]@);
            assert(edge(gv, node@, neighbors.deep_view()[i as int]));
            assert(st1.last() == node@);
            // The callee starts strictly deeper than this call began.
            lemma_edge_source_key(gv, node@);
            assert(fin0.to_set().subset_of(visited.deep_view().to_set())) by {
                assert forall|x: Seq<char>| fin0.to_set().contains(x)
                    implies visited.deep_view().to_set().contains(x) by {
                    lemma_prefix_contains(fin0, visited.deep_view(), x);
                }
            }
            lemma_push_to_set(st0, node@);
            assert(st1.to_set() == st0.to_set().insert(node@)) by {
                assert(st1 == st0.push(node@));
            }
            lemma_measure_dec(
                gv,
                fin0,
                st0,
                visited.deep_view(),
                st1,
                node@,
            );
        }
        let ghost fin_before = visited.deep_view();
        if has_cycle(&neighbors[i], graph, visited, stack) {
            return true;
        }
        proof {
            crate::types::lemma_prefix_trans(fin0, fin_before, visited.deep_view());
            assert forall|j: int| 0 <= j < i as int + 1 implies visited.deep_view().contains(
                #[trigger] neighbors.deep_view()[j],
            ) by {
                if j < i as int {
                    lemma_prefix_contains(
                        fin_before,
                        visited.deep_view(),
                        neighbors.deep_view()[j],
                    );
                }
            }
        }
        i = i + 1;
    }

    let ghost st_pre_pop = stack@;
    let popped = stack.pop();
    let ghost finb = visited.deep_view();
    visited.push(node.clone());
    proof {
        assert forall|k: int| 0 <= k < stack.deep_view().len() implies stack.deep_view()[k]
            == st0[k] by {
            assert(stack.deep_view()[k] == stack@[k]@);
            assert(stack@[k] == st_pre_pop[k]);
            assert(st1[k] == st_pre_pop[k]@);
            assert(st1[k] == st0.push(node@)[k]);
        }
        assert(stack.deep_view() =~= st0);
        assert(visited.deep_view() =~= finb.push(node@));
        assert forall|b: Seq<char>| #[trigger] edge(gv, node@, b) implies finb.contains(b) by {
            assert(assoc_lookup(gv, node@) == Some(neighbors.deep_view()));
            let j = choose|j: int|
                0 <= j < neighbors.deep_view().len() && neighbors.deep_view()[j] == b;
            assert(finb.contains(neighbors.deep_view()[j]));
        }
        lemma_ranked_push(gv, finb, node@);
        assert(!finb.contains(node@)) by {
            assert(st1.contains(node@)) by {
                assert(st1.last() == node@);
            }
        }
        assert(seq_distinct(visited.deep_view())) by {
            assert forall|a: int, b: int|
                0 <= a < b < visited.deep_view().len() implies visited.deep_view()[a]
                != visited.deep_view()[b] by {
                if b == visited.deep_view().len() - 1 {
                    assert(visited.deep_view()[b] == node@);
                    if visited.deep_view()[a] == node@ {
                        assert(finb[a] == node@);
                        assert(finb.contains(node@));
                    }
                } else {
                    assert(visited.deep_view()[a] == finb[a]);
                    assert(visited.deep_view()[b] == finb[b]);
                }
            }
        }
        assert(fin0.is_prefix_of(visited.deep_view())) by {
            assert(visited.deep_view().subrange(0, fin0.len() as int) =~= finb.subrange(
                0,
                fin0.len() as int,
            ));
        }
        assert(visited.deep_view().contains(node@)) by {
            assert(visited.deep_view().last() == node@);
        }
        assert forall|x: Seq<char>| visited.deep_view().contains(x) implies !st0.contains(
            x,
        ) by {
            let ix = choose|ix: int|
                0 <= ix < visited.deep_view().len() && visited.deep_view()[ix] == x;
            if ix < finb.len() {
                assert(finb.contains(x));
                if st0.contains(x) {
                    assert(st1.contains(x)) by {
                        let jx = choose|jx: int| 0 <= jx < st0.len() && st0[jx] == x;
                        assert(st1[jx] == x);
                    }
                }
            } else {
                assert(x == node@);
                if st0.contains(x) {
                    assert(false);
                }
            }
        }
    }
    false
}

/// Accepts exactly the graphs without a reference cycle; the error names
/// a type where a cycle was observed.
#[verifier::loop_isolation(false)]
pub fn check_cycle(cycle_types: &Graph) -> (r: Result<(), Error>)
    ensures
        r is Ok <==> !has_cycle_in(graph_view(cycle_types@)),
        r matches Err(e) ==> e is SchemaCycle,
{
    broadcast use {lemma_graph_view, lemma_assoc_lookup};

    let ghost gv = graph_view(cycle_types@);
    let mut visited: Vec<String> = Vec::new();
    let mut stack: Vec<String> = Vec::new();
    let mut i: usize = 0;
    while i < cycle_types.len()
        invariant
            i <= cycle_types.len(),
            stack.deep_view() == Seq::<Seq<char>>::empty(),
            ranked(gv, visited.deep_view()),
            seq_distinct(visited.deep_view()),
            forall|j: int| 0 <= j < i as int ==> visited.deep_view().contains(
                (#[trigger] gv[j]).0,
            ),
        decreases cycle_types.len() - i,
    {
        let name = &cycle_types[i].0;
        if !vec_contains(&visited, name) {
            let ghost fin_before = visited.deep_view();
            if has_cycle(name, cycle_types, &mut visited, &mut stack) {
                return Err(Error::SchemaCycle(name.clone()));
            }
            proof {
                assert forall|j: int| 0 <= j < i as int + 1 implies visited.deep_view().contains(
                    (#[trigger] gv[j]).0,
                ) by {
                    if j < i as int {
                        lemma_prefix_contains(fin_before, visited.deep_view(), gv[j].0);
                    } else {
                        assert(gv[j].0 == name@);
                    }
                }
            }
        }
        i = i + 1;
    }
    proof {
        assert forall|n: Seq<char>| graph_keys(gv).contains(n)
            implies visited.deep_view().contains(n) by {
            assert(names_of(gv).contains(n));
            let j = choose|j: int| 0 <= j < names_of(gv).len() && names_of(gv)[j] == n;
            assert(gv[j].0 == n);
        }
        lemma_ranked_acyclic(gv, visited.deep_view());
    }
    Ok(())
}

} // verus!
