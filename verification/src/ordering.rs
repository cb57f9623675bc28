//! The order in which processes start, as mathematics on sequences of names.
//!
//! A dependency graph is a sequence of nodes in the order of their insertion. Sorting it goes in
//! rounds: a round takes every node without dependencies and strikes its name once from the
//! dependencies of each node that is left.
use vstd::prelude::*;

verus! {

/// A process and the names of the processes that it depends on.
pub struct Node {
    pub name: Seq<char>,
    pub deps: Seq<Seq<char>>,
}

/// No two nodes share a name.
pub open spec fn distinct_names(g: Seq<Node>) -> bool {
    forall|i: int, j: int| 0 <= i < j < g.len() ==> (#[trigger] g[i]).name != (#[trigger] g[j]).name
}

/// Some node of the graph has this name.
pub open spec fn lists(g: Seq<Node>, name: Seq<char>) -> bool {
    exists|i: int| 0 <= i < g.len() && (#[trigger] g[i]).name == name
}

/// Every dependency of this node is a node of the graph.
pub open spec fn resolved(g: Seq<Node>, n: Node) -> bool {
    forall|d: Seq<char>| #[trigger] n.deps.contains(d) ==> lists(g, d)
}

/// Every dependency of every node is a node of the graph.
pub open spec fn closed(g: Seq<Node>) -> bool {
    forall|i: int| 0 <= i < g.len() ==> resolved(g, #[trigger] g[i])
}

/// No node names the same dependency twice.
pub open spec fn distinct_deps(g: Seq<Node>) -> bool {
    forall|i: int| 0 <= i < g.len() ==> (#[trigger] g[i]).deps.no_duplicates()
}

/// Every node has a higher rank than each of its dependencies.
pub open spec fn ranks(rank: spec_fn(Seq<char>) -> int, g: Seq<Node>) -> bool {
    forall|i: int, d: Seq<char>|
        0 <= i < g.len() && #[trigger] g[i].deps.contains(d) ==> 0 <= rank(d) < rank(g[i].name)
}

/// The dependencies can be ranked, that is, they form no cycle.
pub open spec fn acyclic(g: Seq<Node>) -> bool {
    exists|rank: spec_fn(Seq<char>) -> int| ranks(rank, g)
}

/// The graphs that have a start order.
pub open spec fn sortable(g: Seq<Node>) -> bool {
    closed(g) && distinct_deps(g) && acyclic(g)
}

/// The names of the nodes without dependencies, in the order of the graph.
pub open spec fn roots(g: Seq<Node>) -> Seq<Seq<char>>
    decreases g.len(),
{
    if g.len() == 0 {
        Seq::empty()
    } else if g.last().deps.len() == 0 {
        roots(g.drop_last()).push(g.last().name)
    } else {
        roots(g.drop_last())
    }
}

/// The graph without the node called `name`, which is struck once from the dependencies of each
/// other node.
pub open spec fn without(g: Seq<Node>, name: Seq<char>) -> Seq<Node>
    decreases g.len(),
{
    if g.len() == 0 {
        Seq::empty()
    } else if g.last().name == name {
        without(g.drop_last(), name)
    } else {
        without(g.drop_last(), name).push(
            Node { name: g.last().name, deps: g.last().deps.remove_value(name) },
        )
    }
}

/// The graph after `without` for each of the names in turn.
pub open spec fn without_all(g: Seq<Node>, names: Seq<Seq<char>>) -> Seq<Node>
    decreases names.len(),
{
    if names.len() == 0 {
        g
    } else {
        without(without_all(g, names.drop_last()), names.last())
    }
}

/// The graph that a round leaves.
pub open spec fn peel(g: Seq<Node>) -> Seq<Node> {
    without_all(g, roots(g))
}

/// The names in start order: those taken in the first round, then those of the next, until a
/// round finds none.
pub open spec fn order(g: Seq<Node>) -> Seq<Seq<char>>
    decreases g.len(),
{
    if roots(g).len() == 0 {
        Seq::empty()
    } else {
        proof {
            lemma_peel_shrinks(g);
        }
        roots(g) + order(peel(g))
    }
}

/// The graph that is left when a round finds no node to take.
pub open spec fn residue(g: Seq<Node>) -> Seq<Node>
    decreases g.len(),
{
    if roots(g).len() == 0 {
        g
    } else {
        proof {
            lemma_peel_shrinks(g);
        }
        residue(peel(g))
    }
}

/// The number of rounds that pass before the node called `name` is taken.
pub open spec fn depth(g: Seq<Node>, name: Seq<char>) -> nat
    decreases g.len(),
{
    if roots(g).len() == 0 || roots(g).contains(name) {
        0
    } else {
        proof {
            lemma_peel_shrinks(g);
        }
        1 + depth(peel(g), name)
    }
}

proof fn lemma_without_len(g: Seq<Node>, name: Seq<char>)
    ensures
        without(g, name).len() <= g.len(),
        lists(g, name) ==> without(g, name).len() < g.len(),
    decreases g.len(),
{
    if g.len() > 0 {
        lemma_without_len(g.drop_last(), name);
        if lists(g, name) && g.last().name != name {
            let i = choose|i: int| 0 <= i < g.len() && (#[trigger] g[i]).name == name;
            assert(g.drop_last()[i].name == name);
        }
    }
}

proof fn lemma_without_all_len(g: Seq<Node>, names: Seq<Seq<char>>)
    ensures
        without_all(g, names).len() <= g.len(),
        names.len() > 0 && lists(g, names[0]) ==> without_all(g, names).len() < g.len(),
    decreases names.len(),
{
    if names.len() > 0 {
        lemma_without_all_len(g, names.drop_last());
        lemma_without_len(without_all(g, names.drop_last()), names.last());
        if names.len() == 1 {
            assert(without_all(g, names.drop_last()) == g);
        }
    }
}

/// The roots are exactly the names of the nodes without dependencies.
pub proof fn lemma_roots(g: Seq<Node>)
    ensures
        forall|x: Seq<char>| #[trigger] roots(g).contains(x) <==> exists|i: int|
            0 <= i < g.len() && (#[trigger] g[i]).name == x && g[i].deps.len() == 0,
    decreases g.len(),
{
    if g.len() > 0 {
        let h = g.drop_last();
        lemma_roots(h);
        assert forall|x: Seq<char>| #[trigger] roots(g).contains(x) <==> exists|i: int|
            0 <= i < g.len() && (#[trigger] g[i]).name == x && g[i].deps.len() == 0 by {
            if roots(g).contains(x) {
                let k = choose|k: int| 0 <= k < roots(g).len() && roots(g)[k] == x;
                if g.last().deps.len() == 0 && k == roots(g).len() - 1 {
                    assert(g[g.len() - 1].name == x);
                } else {
                    assert(roots(h)[k] == x);
                    assert(roots(h).contains(x));
                    let i = choose|i: int|
                        0 <= i < h.len() && (#[trigger] h[i]).name == x && h[i].deps.len() == 0;
                    assert(g[i] == h[i]);
                }
            }
            if exists|i: int|
                0 <= i < g.len() && (#[trigger] g[i]).name == x && g[i].deps.len() == 0 {
                let i = choose|i: int|
                    0 <= i < g.len() && (#[trigger] g[i]).name == x && g[i].deps.len() == 0;
                if i == g.len() - 1 {
                    assert(roots(g)[roots(g).len() - 1] == x);
                } else {
                    assert(h[i] == g[i]);
                    assert(roots(h).contains(x));
                    let k = choose|k: int| 0 <= k < roots(h).len() && roots(h)[k] == x;
                    assert(roots(g)[k] == x);
                }
            }
        }
    } else {
        assert(roots(g) =~= Seq::empty());
    }
}

/// A round that finds a node to take leaves a smaller graph.
pub proof fn lemma_peel_shrinks(g: Seq<Node>)
    requires
        roots(g).len() > 0,
    ensures
        peel(g).len() < g.len(),
{
    lemma_roots(g);
    assert(roots(g).contains(roots(g)[0]));
    let i = choose|i: int|
        0 <= i < g.len() && (#[trigger] g[i]).name == roots(g)[0] && g[i].deps.len() == 0;
    assert(lists(g, roots(g)[0]));
    lemma_without_all_len(g, roots(g));
}

/// The dependencies that are left when each of the names has been struck once.
pub open spec fn strip(deps: Seq<Seq<char>>, names: Seq<Seq<char>>) -> Seq<Seq<char>>
    decreases names.len(),
{
    if names.len() == 0 {
        deps
    } else {
        strip(deps, names.drop_last()).remove_value(names.last())
    }
}

/// The node with each of the names struck once from its dependencies.
spec fn stripped(n: Node, names: Seq<Seq<char>>) -> Node {
    Node { name: n.name, deps: strip(n.deps, names) }
}

proof fn lemma_last_or_rest<A>(s: Seq<A>)
    requires
        s.len() > 0,
    ensures
        forall|y: A| #[trigger] s.contains(y) <==> s.drop_last().contains(y) || y == s.last(),
{
    let rest = s.drop_last();
    assert forall|y: A| #[trigger] s.contains(y) <==> rest.contains(y) || y == s.last() by {
        if s.contains(y) {
            let k = choose|k: int| 0 <= k < s.len() && s[k] == y;
            if k < s.len() - 1 {
                assert(rest[k] == y);
            }
        }
        if rest.contains(y) {
            let k = choose|k: int| 0 <= k < rest.len() && rest[k] == y;
            assert(s[k] == y);
        }
        if y == s.last() {
            assert(s[s.len() - 1] == y);
        }
    }
}

proof fn lemma_remove_value(s: Seq<Seq<char>>, x: Seq<char>)
    ensures
        forall|y: Seq<char>| y != x ==> (#[trigger] s.remove_value(x).contains(y) <==> s.contains(y)),
        forall|y: Seq<char>| #[trigger] s.remove_value(x).contains(y) ==> s.contains(y),
        s.no_duplicates() ==> s.remove_value(x).no_duplicates() && !s.remove_value(x).contains(x),
        s.remove_value(x).no_duplicates() && !s.remove_value(x).contains(x) ==> s.no_duplicates(),
{
    s.index_of_first_ensures(x);
    let t = s.remove_value(x);
    if s.contains(x) {
        let i = s.index_of_first(x)->0;
        assert forall|k: int| 0 <= k < t.len() implies #[trigger] t[k] == (if k < i {
            s[k]
        } else {
            s[k + 1]
        }) by {}
        assert forall|k: int| 0 <= k < s.len() && k != i implies #[trigger] s[k] == (if k < i {
            t[k]
        } else {
            t[k - 1]
        }) by {}
        assert forall|y: Seq<char>| s.contains(y) && y != x implies #[trigger] t.contains(y) by {
            let k = choose|k: int| 0 <= k < s.len() && s[k] == y;
            assert(t[if k < i { k } else { k - 1 }] == y);
        }
        assert forall|y: Seq<char>| #[trigger] t.contains(y) implies s.contains(y) by {
            let k = choose|k: int| 0 <= k < t.len() && t[k] == y;
            assert(s[if k < i { k } else { k + 1 }] == y);
        }
        if t.no_duplicates() && !t.contains(x) {
            assert forall|a: int, b: int| 0 <= a < b < s.len() implies s[a] != s[b] by {
                let ta = if a < i { a } else { a - 1 };
                let tb = if b < i { b } else { b - 1 };
                if a == i {
                    assert(s[b] == t[tb]);
                } else if b == i {
                    assert(s[a] == t[ta]);
                } else {
                    assert(s[a] == t[ta] && s[b] == t[tb]);
                }
            }
        }
    }
}

proof fn lemma_strip(s: Seq<Seq<char>>, names: Seq<Seq<char>>)
    requires
        names.no_duplicates(),
    ensures
        forall|y: Seq<char>|
            !names.contains(y) ==> (#[trigger] strip(s, names).contains(y) <==> s.contains(y)),
        forall|y: Seq<char>| #[trigger] strip(s, names).contains(y) ==> s.contains(y),
        s.no_duplicates() ==> strip(s, names).no_duplicates() && forall|y: Seq<char>|
            names.contains(y) ==> !#[trigger] strip(s, names).contains(y),
        strip(s, names).no_duplicates() && (forall|y: Seq<char>|
            names.contains(y) ==> !#[trigger] strip(s, names).contains(y)) ==> s.no_duplicates(),
    decreases names.len(),
{
    if names.len() > 0 {
        let rest = names.drop_last();
        let x = names.last();
        let u = strip(s, rest);
        let t = strip(s, names);
        lemma_strip(s, rest);
        lemma_remove_value(u, x);
        lemma_last_or_rest(names);
        assert(!rest.contains(x)) by {
            if rest.contains(x) {
                let k = choose|k: int| 0 <= k < rest.len() && rest[k] == x;
                assert(names[k] == names[names.len() - 1]);
            }
        }
        assert forall|y: Seq<char>| !names.contains(y) implies (#[trigger] t.contains(y)
            <==> s.contains(y)) by {
            assert(u.contains(y) <==> s.contains(y));
        }
        assert forall|y: Seq<char>| #[trigger] t.contains(y) implies s.contains(y) by {
            assert(u.contains(y));
        }
        if s.no_duplicates() {
            assert forall|y: Seq<char>| names.contains(y) implies !#[trigger] t.contains(y) by {
                if y != x {
                    assert(!u.contains(y));
                }
            }
        }
        if t.no_duplicates() && (forall|y: Seq<char>|
            names.contains(y) ==> !#[trigger] t.contains(y)) {
            assert(names.contains(x));
            assert forall|y: Seq<char>| rest.contains(y) implies !#[trigger] u.contains(y) by {
                assert(names.contains(y));
                assert(!t.contains(y));
            }
        }
    }
}

proof fn lemma_without(g: Seq<Node>, x: Seq<char>)
    requires
        distinct_names(g),
    ensures
        distinct_names(without(g, x)),
        forall|m: Node| #[trigger]
            without(g, x).contains(m) ==> exists|n: Node| #[trigger]
                g.contains(n) && n.name != x && m == (Node {
                    name: n.name,
                    deps: n.deps.remove_value(x),
                }),
        forall|n: Node| #[trigger]
            g.contains(n) && n.name != x ==> without(g, x).contains(
                Node { name: n.name, deps: n.deps.remove_value(x) },
            ),
    decreases g.len(),
{
    if g.len() > 0 {
        let f = g.drop_last();
        let h = without(g, x);
        let p = without(f, x);
        let l = Node { name: g.last().name, deps: g.last().deps.remove_value(x) };
        lemma_without(f, x);
        lemma_last_or_rest(g);
        assert forall|m: Node| #[trigger] h.contains(m) implies p.contains(m) || (m == l
            && g.last().name != x) by {
            let k = choose|k: int| 0 <= k < h.len() && h[k] == m;
            if k < p.len() {
                assert(p[k] == m);
            }
        }
        assert forall|m: Node| #[trigger] p.contains(m) implies h.contains(m) by {
            let k = choose|k: int| 0 <= k < p.len() && p[k] == m;
            assert(h[k] == m);
        }
        if g.last().name != x {
            assert(h[h.len() - 1] == l);
            assert forall|i: int, j: int| 0 <= i < j < h.len() implies (#[trigger] h[i]).name != (
            #[trigger] h[j]).name by {
                assert(h[i] == p[i]);
                if j < h.len() - 1 {
                    assert(h[j] == p[j]);
                } else {
                    assert(p.contains(p[i]));
                    let n = choose|n: Node| #[trigger]
                        f.contains(n) && n.name != x && p[i] == (Node {
                            name: n.name,
                            deps: n.deps.remove_value(x),
                        });
                    let k = choose|k: int| 0 <= k < f.len() && f[k] == n;
                    assert(g[k].name != g[g.len() - 1].name);
                }
            }
        }
        assert forall|m: Node| #[trigger] h.contains(m) implies exists|n: Node| #[trigger]
            g.contains(n) && n.name != x && m == (Node {
                name: n.name,
                deps: n.deps.remove_value(x),
            }) by {
            if p.contains(m) {
                let n = choose|n: Node| #[trigger]
                    f.contains(n) && n.name != x && m == (Node {
                        name: n.name,
                        deps: n.deps.remove_value(x),
                    });
                assert(g.contains(n));
            } else {
                assert(g.contains(g.last()));
            }
        }
        assert forall|n: Node| #[trigger] g.contains(n) && n.name != x implies h.contains(
            Node { name: n.name, deps: n.deps.remove_value(x) },
        ) by {
            if f.contains(n) {
                assert(p.contains(Node { name: n.name, deps: n.deps.remove_value(x) }));
            }
        }
    }
}

proof fn lemma_without_all(g: Seq<Node>, names: Seq<Seq<char>>)
    requires
        distinct_names(g),
    ensures
        distinct_names(without_all(g, names)),
        forall|m: Node| #[trigger]
            without_all(g, names).contains(m) ==> exists|n: Node| #[trigger]
                g.contains(n) && !names.contains(n.name) && m == stripped(n, names),
        forall|n: Node| #[trigger]
            g.contains(n) && !names.contains(n.name) ==> without_all(g, names).contains(
                stripped(n, names),
            ),
    decreases names.len(),
{
    if names.len() == 0 {
        assert forall|m: Node| #[trigger] g.contains(m) implies m == stripped(m, names) by {}
    } else {
        let rest = names.drop_last();
        let x = names.last();
        let p = without_all(g, rest);
        let h = without_all(g, names);
        lemma_without_all(g, rest);
        lemma_without(p, x);
        lemma_last_or_rest(names);
        assert forall|m: Node| #[trigger] h.contains(m) implies exists|n: Node| #[trigger]
            g.contains(n) && !names.contains(n.name) && m == stripped(n, names) by {
            let q = choose|q: Node| #[trigger]
                p.contains(q) && q.name != x && m == (Node {
                    name: q.name,
                    deps: q.deps.remove_value(x),
                });
            let n = choose|n: Node| #[trigger]
                g.contains(n) && !rest.contains(n.name) && q == stripped(n, rest);
            assert(g.contains(n) && !names.contains(n.name) && m == stripped(n, names));
        }
        assert forall|n: Node| #[trigger] g.contains(n) && !names.contains(n.name) implies h.contains(
            stripped(n, names),
        ) by {
            assert(p.contains(stripped(n, rest)));
        }
    }
}

proof fn lemma_roots_distinct(g: Seq<Node>)
    requires
        distinct_names(g),
    ensures
        roots(g).no_duplicates(),
    decreases g.len(),
{
    if g.len() > 0 {
        let f = g.drop_last();
        lemma_roots_distinct(f);
        lemma_roots(f);
        assert(!roots(f).contains(g.last().name)) by {
            if roots(f).contains(g.last().name) {
                let i = choose|i: int|
                    0 <= i < f.len() && (#[trigger] f[i]).name == g.last().name && f[i].deps.len()
                        == 0;
                assert(g[i].name == g[g.len() - 1].name);
            }
        }
    }
}

/// What a round does to a graph whose names are distinct.
proof fn lemma_peel(g: Seq<Node>)
    requires
        distinct_names(g),
    ensures
        distinct_names(peel(g)),
        roots(g).no_duplicates(),
        forall|m: Node| #[trigger]
            peel(g).contains(m) ==> exists|n: Node| #[trigger]
                g.contains(n) && !roots(g).contains(n.name) && m == stripped(n, roots(g)),
        forall|n: Node| #[trigger]
            g.contains(n) && !roots(g).contains(n.name) ==> peel(g).contains(stripped(n, roots(g))),
        forall|n: Node| #[trigger]
            g.contains(n) ==> (roots(g).contains(n.name) <==> n.deps.len() == 0),
        forall|x: Seq<char>| #[trigger]
            lists(peel(g), x) <==> lists(g, x) && !roots(g).contains(x),
        forall|x: Seq<char>| #[trigger] roots(g).contains(x) ==> lists(g, x),
{
    let r = roots(g);
    lemma_roots(g);
    lemma_roots_distinct(g);
    lemma_without_all(g, r);
    assert forall|n: Node| #[trigger] g.contains(n) implies (r.contains(n.name) <==> n.deps.len()
        == 0) by {
        let k = choose|k: int| 0 <= k < g.len() && g[k] == n;
        if r.contains(n.name) {
            let i = choose|i: int|
                0 <= i < g.len() && (#[trigger] g[i]).name == n.name && g[i].deps.len() == 0;
            assert(i == k);
        }
    }
    assert forall|x: Seq<char>| #[trigger] lists(peel(g), x) <==> lists(g, x) && !r.contains(x) by {
        if lists(peel(g), x) {
            let k = choose|k: int| 0 <= k < peel(g).len() && (#[trigger] peel(g)[k]).name == x;
            assert(peel(g).contains(peel(g)[k]));
            let n = choose|n: Node| #[trigger]
                g.contains(n) && !r.contains(n.name) && peel(g)[k] == stripped(n, r);
            let i = choose|i: int| 0 <= i < g.len() && g[i] == n;
            assert(g[i].name == x);
        }
        if lists(g, x) && !r.contains(x) {
            let i = choose|i: int| 0 <= i < g.len() && (#[trigger] g[i]).name == x;
            assert(g.contains(g[i]));
            assert(peel(g).contains(stripped(g[i], r)));
            let k = choose|k: int| 0 <= k < peel(g).len() && peel(g)[k] == stripped(g[i], r);
            assert(peel(g)[k].name == x);
        }
    }
}

/// A round keeps the names distinct.
pub proof fn lemma_peel_names(g: Seq<Node>)
    requires
        distinct_names(g),
    ensures
        distinct_names(peel(g)),
{
    lemma_peel(g);
}

/// Every dependency of a listed process comes before it.
pub open spec fn dependencies_first(g: Seq<Node>, names: Seq<Seq<char>>) -> bool {
    forall|n: Node, k: int, d: Seq<char>|
        #![trigger g.contains(n), names[k], n.deps.contains(d)]
        g.contains(n) && 0 <= k < names.len() && names[k] == n.name && n.deps.contains(d)
            ==> names.take(k).contains(d)
}

/// The sequence holds the name of each node exactly once.
pub open spec fn lists_once(g: Seq<Node>, names: Seq<Seq<char>>) -> bool {
    &&& names.no_duplicates()
    &&& forall|x: Seq<char>| #[trigger] names.contains(x) <==> lists(g, x)
}

/// A graph that the rounds empty is closed, repeats no dependency, and is listed by its order
/// with dependencies first.
proof fn lemma_emptied(g: Seq<Node>)
    requires
        distinct_names(g),
        residue(g).len() == 0,
    ensures
        closed(g),
        distinct_deps(g),
        lists_once(g, order(g)),
        dependencies_first(g, order(g)),
    decreases g.len(),
{
    if roots(g).len() > 0 {
        let r = roots(g);
        let h = peel(g);
        let o = order(g);
        lemma_peel_shrinks(g);
        lemma_peel(g);
        lemma_emptied(h);
        assert(o == r + order(h));
        assert forall|x: Seq<char>| #[trigger] o.contains(x) <==> r.contains(x) || order(h).contains(
            x,
        ) by {
            if r.contains(x) {
                let k = choose|k: int| 0 <= k < r.len() && r[k] == x;
                assert(o[k] == x);
            }
            if order(h).contains(x) {
                let k = choose|k: int| 0 <= k < order(h).len() && order(h)[k] == x;
                assert(o[r.len() + k] == x);
            }
        }
        assert forall|x: Seq<char>| #[trigger] o.contains(x) <==> lists(g, x) by {
            assert(order(h).contains(x) <==> lists(h, x));
        }
        assert forall|a: int, b: int| 0 <= a < b < o.len() implies o[a] != o[b] by {
            if a < r.len() && r.len() <= b {
                assert(order(h)[b - r.len()] == o[b]);
                assert(order(h).contains(o[b]));
                assert(lists(h, o[b]));
                assert(r[a] == o[a]);
                assert(r.contains(o[a]));
            } else if r.len() <= a {
                assert(order(h)[a - r.len()] != order(h)[b - r.len()]);
            }
        }
        assert forall|n: Node| #[trigger] g.contains(n) implies n.deps.no_duplicates() && resolved(
            g,
            n,
        ) by {
            if !r.contains(n.name) {
                let m = stripped(n, r);
                assert(h.contains(m));
                let k = choose|k: int| 0 <= k < h.len() && h[k] == m;
                assert(resolved(h, h[k]) && h[k].deps.no_duplicates());
                lemma_strip(n.deps, r);
                assert forall|y: Seq<char>| r.contains(y) implies !#[trigger] m.deps.contains(
                    y,
                ) by {
                    if m.deps.contains(y) {
                        assert(lists(h, y));
                    }
                }
                assert forall|d: Seq<char>| #[trigger] n.deps.contains(d) implies lists(g, d) by {
                    if !r.contains(d) {
                        assert(m.deps.contains(d));
                        assert(lists(h, d));
                    }
                }
            }
        }
        assert forall|i: int| 0 <= i < g.len() implies resolved(g, #[trigger] g[i])
            && g[i].deps.no_duplicates() by {
            assert(g.contains(g[i]));
        }
        assert forall|n: Node, k: int, d: Seq<char>|
            #![trigger g.contains(n), o[k], n.deps.contains(d)]
            g.contains(n) && 0 <= k < o.len() && o[k] == n.name && n.deps.contains(d) implies o.take(
            k,
        ).contains(d) by {
            assert(!r.contains(n.name));
            if k < r.len() {
                assert(r[k] == n.name);
            }
            if r.contains(d) {
                let j = choose|j: int| 0 <= j < r.len() && r[j] == d;
                assert(o.take(k)[j] == d);
            } else {
                let m = stripped(n, r);
                lemma_strip(n.deps, r);
                assert(h.contains(m) && m.deps.contains(d));
                assert(order(h)[k - r.len()] == m.name);
                let before = order(h).take(k - r.len());
                assert(before.contains(d));
                let j = choose|j: int| 0 <= j < before.len() && before[j] == d;
                assert(order(h)[j] == d);
                assert(o.take(k)[r.len() + j] == d);
            }
        }
    }
}

/// The position of a name in an order that puts dependencies first ranks the graph.
proof fn lemma_order_ranks(g: Seq<Node>, o: Seq<Seq<char>>)
    requires
        lists_once(g, o),
        dependencies_first(g, o),
    ensures
        acyclic(g),
{
    let rank = |x: Seq<char>| choose|k: int| 0 <= k < o.len() && o[k] == x;
    assert forall|i: int, d: Seq<char>| 0 <= i < g.len() && #[trigger] g[i].deps.contains(d) implies 0
        <= rank(d) < rank(g[i].name) by {
        let n = g[i];
        assert(g.contains(n));
        assert(lists(g, n.name));
        assert(o.contains(n.name));
        let k = rank(n.name);
        assert(0 <= k < o.len() && o[k] == n.name);
        assert(o.take(k).contains(d));
        let j = choose|j: int| 0 <= j < o.take(k).len() && o.take(k)[j] == d;
        assert(o[j] == d);
        assert(o[rank(d)] == d);
    }
    assert(ranks(rank, g));
}

/// A round keeps a graph closed, its dependencies distinct and its ranking valid.
proof fn lemma_peel_keeps(g: Seq<Node>, rank: spec_fn(Seq<char>) -> int)
    requires
        distinct_names(g),
        closed(g),
        distinct_deps(g),
    ensures
        distinct_names(peel(g)),
        closed(peel(g)),
        distinct_deps(peel(g)),
        ranks(rank, g) ==> ranks(rank, peel(g)),
{
    let r = roots(g);
    let h = peel(g);
    lemma_peel(g);
    assert forall|k: int| 0 <= k < h.len() implies resolved(h, #[trigger] h[k])
        && h[k].deps.no_duplicates() && (ranks(rank, g) ==> forall|d: Seq<char>| #[trigger]
        h[k].deps.contains(d) ==> 0 <= rank(d) < rank(h[k].name)) by {
        assert(h.contains(h[k]));
        let n = choose|n: Node| #[trigger]
            g.contains(n) && !r.contains(n.name) && h[k] == stripped(n, r);
        let i = choose|i: int| 0 <= i < g.len() && g[i] == n;
        assert(resolved(g, g[i]) && g[i].deps.no_duplicates());
        lemma_strip(n.deps, r);
        assert forall|d: Seq<char>| #[trigger] h[k].deps.contains(d) implies lists(h, d) by {
            assert(g[i].deps.contains(d));
            assert(lists(g, d) && !r.contains(d));
        }
        assert forall|d: Seq<char>| #[trigger] h[k].deps.contains(d) && ranks(rank, g) implies 0
            <= rank(d) < rank(h[k].name) by {
            assert(g[i].deps.contains(d));
        }
    }
}

/// A closed and ranked graph with a node has a root.
proof fn lemma_has_root(g: Seq<Node>, rank: spec_fn(Seq<char>) -> int, i: int)
    requires
        closed(g),
        ranks(rank, g),
        0 <= i < g.len(),
    ensures
        roots(g).len() > 0,
    decreases rank(g[i].name),
{
    lemma_roots(g);
    if g[i].deps.len() == 0 {
        assert(roots(g).contains(g[i].name));
    } else {
        let d = g[i].deps[0];
        assert(g[i].deps.contains(d));
        assert(resolved(g, g[i]));
        let j = choose|j: int| 0 <= j < g.len() && (#[trigger] g[j]).name == d;
        if g[j].deps.len() == 0 {
            assert(roots(g).contains(g[j].name));
        } else {
            lemma_has_root(g, rank, j);
        }
    }
}

/// The rounds empty every sortable graph.
proof fn lemma_sortable_emptied(g: Seq<Node>)
    requires
        distinct_names(g),
        sortable(g),
    ensures
        residue(g).len() == 0,
    decreases g.len(),
{
    let rank = choose|rank: spec_fn(Seq<char>) -> int| ranks(rank, g);
    if g.len() > 0 {
        lemma_has_root(g, rank, 0);
        lemma_peel_shrinks(g);
        lemma_peel_keeps(g, rank);
        lemma_sortable_emptied(peel(g));
    } else {
        assert(roots(g).len() == 0);
    }
}

/// The rounds empty exactly the graphs that are closed, repeat no dependency and have no cycle.
pub proof fn lemma_residue(g: Seq<Node>)
    requires
        distinct_names(g),
    ensures
        residue(g).len() == 0 <==> sortable(g),
{
    if residue(g).len() == 0 {
        lemma_emptied(g);
        lemma_order_ranks(g, order(g));
    }
    if sortable(g) {
        lemma_sortable_emptied(g);
    }
}

/// The start order names every process exactly once.
pub proof fn law_order_lists_every_process_once(g: Seq<Node>)
    requires
        distinct_names(g),
        sortable(g),
    ensures
        lists_once(g, order(g)),
{
    lemma_residue(g);
    lemma_emptied(g);
}

/// In the start order every process comes after all the processes that it depends on.
pub proof fn law_dependencies_start_first(g: Seq<Node>)
    requires
        distinct_names(g),
        sortable(g),
    ensures
        dependencies_first(g, order(g)),
{
    lemma_residue(g);
    lemma_emptied(g);
}

/// The process called `x` depends on a process of the set.
pub open spec fn depends_into(g: Seq<Node>, x: Seq<char>, s: Set<Seq<char>>) -> bool {
    exists|i: int, d: Seq<char>|
        0 <= i < g.len() && g[i].name == x && #[trigger] g[i].deps.contains(d) && s.contains(d)
}

/// A set of processes, not empty, of which each depends on one of the set.
pub open spec fn is_cycle(g: Seq<Node>, s: Set<Seq<char>>) -> bool {
    &&& exists|x: Seq<char>| s.contains(x)
    &&& forall|x: Seq<char>| s.contains(x) ==> #[trigger] depends_into(g, x, s)
}

proof fn lemma_no_descent(
    g: Seq<Node>,
    rank: spec_fn(Seq<char>) -> int,
    s: Set<Seq<char>>,
    x: Seq<char>,
)
    requires
        ranks(rank, g),
        is_cycle(g, s),
        0 <= rank(x),
    ensures
        !s.contains(x),
    decreases rank(x),
{
    if s.contains(x) {
        assert(depends_into(g, x, s));
        let (i, d) = choose|i: int, d: Seq<char>|
            0 <= i < g.len() && g[i].name == x && #[trigger] g[i].deps.contains(d) && s.contains(d);
        lemma_no_descent(g, rank, s, d);
    }
}

/// The nodes that the rounds leave keep their names, and keep only dependencies that they had.
proof fn lemma_residue_nodes(g: Seq<Node>)
    requires
        distinct_names(g),
        closed(g),
        distinct_deps(g),
    ensures
        closed(residue(g)),
        roots(residue(g)).len() == 0,
        forall|m: Node| #[trigger]
            residue(g).contains(m) ==> exists|n: Node| #[trigger]
                g.contains(n) && n.name == m.name && forall|d: Seq<char>| #[trigger]
                    m.deps.contains(d) ==> n.deps.contains(d),
    decreases g.len(),
{
    if roots(g).len() > 0 {
        let h = peel(g);
        let r = roots(g);
        lemma_peel_shrinks(g);
        lemma_peel_keeps(g, |x: Seq<char>| 0);
        lemma_residue_nodes(h);
        lemma_peel(g);
        assert forall|m: Node| #[trigger] residue(g).contains(m) implies exists|n: Node| #[trigger]
            g.contains(n) && n.name == m.name && forall|d: Seq<char>| #[trigger]
                m.deps.contains(d) ==> n.deps.contains(d) by {
            let q = choose|q: Node| #[trigger]
                h.contains(q) && q.name == m.name && forall|d: Seq<char>| #[trigger]
                    m.deps.contains(d) ==> q.deps.contains(d);
            let n = choose|n: Node| #[trigger]
                g.contains(n) && !r.contains(n.name) && q == stripped(n, r);
            lemma_strip(n.deps, r);
            assert forall|d: Seq<char>| #[trigger] m.deps.contains(d) implies n.deps.contains(d) by {
                assert(q.deps.contains(d));
            }
            assert(g.contains(n));
        }
    }
}

proof fn lemma_residue_is_cycle(g: Seq<Node>) -> (s: Set<Seq<char>>)
    requires
        distinct_names(g),
        closed(g),
        distinct_deps(g),
        residue(g).len() > 0,
    ensures
        is_cycle(g, s),
        s == Set::new(|x: Seq<char>| lists(residue(g), x)),
{
    let q = residue(g);
    let s = Set::new(|x: Seq<char>| lists(q, x));
    lemma_residue_nodes(g);
    lemma_roots(q);
    assert(s.contains(q[0].name));
    assert forall|x: Seq<char>| s.contains(x) implies #[trigger] depends_into(g, x, s) by {
        let k = choose|k: int| 0 <= k < q.len() && (#[trigger] q[k]).name == x;
        if q[k].deps.len() == 0 {
            assert(roots(q).contains(x));
        }
        let d = q[k].deps[0];
        assert(q[k].deps.contains(d));
        assert(resolved(q, q[k]));
        assert(q.contains(q[k]));
        let n = choose|n: Node| #[trigger]
            g.contains(n) && n.name == q[k].name && forall|e: Seq<char>| #[trigger]
                q[k].deps.contains(e) ==> n.deps.contains(e);
        let i = choose|i: int| 0 <= i < g.len() && g[i] == n;
        assert(g[i].deps.contains(d) && s.contains(d));
    }
    s
}

/// The sequence with only the first of each group of equal names.
spec fn dedup(s: Seq<Seq<char>>) -> Seq<Seq<char>>
    decreases s.len(),
{
    if s.len() == 0 {
        s
    } else if dedup(s.drop_last()).contains(s.last()) {
        dedup(s.drop_last())
    } else {
        dedup(s.drop_last()).push(s.last())
    }
}

proof fn lemma_dedup(s: Seq<Seq<char>>)
    ensures
        dedup(s).no_duplicates(),
        forall|x: Seq<char>| #[trigger] dedup(s).contains(x) <==> s.contains(x),
    decreases s.len(),
{
    if s.len() > 0 {
        let rest = s.drop_last();
        lemma_dedup(rest);
        lemma_last_or_rest(s);
        if !dedup(rest).contains(s.last()) {
            assert(dedup(s).drop_last() =~= dedup(rest));
            lemma_last_or_rest(dedup(s));
        }
    }
}

/// The graph with repeated dependencies listed once.
spec fn deduped(g: Seq<Node>) -> Seq<Node> {
    g.map_values(|n: Node| Node { name: n.name, deps: dedup(n.deps) })
}

proof fn lemma_deduped(g: Seq<Node>)
    requires
        distinct_names(g),
        closed(g),
    ensures
        distinct_names(deduped(g)),
        closed(deduped(g)),
        distinct_deps(deduped(g)),
        acyclic(deduped(g)) ==> acyclic(g),
{
    let h = deduped(g);
    assert forall|i: int| 0 <= i < h.len() implies (#[trigger] h[i]).deps.no_duplicates() && resolved(
        h,
        h[i],
    ) by {
        lemma_dedup(g[i].deps);
        assert forall|d: Seq<char>| #[trigger] h[i].deps.contains(d) implies lists(h, d) by {
            assert(g[i].deps.contains(d));
            assert(resolved(g, g[i]));
            let j = choose|j: int| 0 <= j < g.len() && (#[trigger] g[j]).name == d;
            assert(h[j].name == d);
        }
    }
    assert forall|i: int, j: int| 0 <= i < j < h.len() implies (#[trigger] h[i]).name != (
    #[trigger] h[j]).name by {
        assert(g[i].name != g[j].name);
    }
    if acyclic(h) {
        let rank = choose|rank: spec_fn(Seq<char>) -> int| ranks(rank, h);
        assert forall|i: int, d: Seq<char>|
            0 <= i < g.len() && #[trigger] g[i].deps.contains(d) implies 0 <= rank(d) < rank(
            g[i].name,
        ) by {
            lemma_dedup(g[i].deps);
            assert(h[i].deps.contains(d));
        }
        assert(ranks(rank, g));
    }
}

proof fn lemma_deduped_cycle(g: Seq<Node>, s: Set<Seq<char>>)
    requires
        is_cycle(deduped(g), s),
    ensures
        is_cycle(g, s),
{
    let h = deduped(g);
    assert forall|x: Seq<char>| s.contains(x) implies #[trigger] depends_into(g, x, s) by {
        assert(depends_into(h, x, s));
        let (i, d) = choose|i: int, d: Seq<char>|
            0 <= i < h.len() && h[i].name == x && #[trigger] h[i].deps.contains(d) && s.contains(d);
        lemma_dedup(g[i].deps);
        assert(g[i].deps.contains(d));
    }
}

proof fn lemma_acyclic_no_cycle(g: Seq<Node>, s: Set<Seq<char>>)
    requires
        acyclic(g),
    ensures
        !is_cycle(g, s),
{
    if is_cycle(g, s) {
        let rank = choose|rank: spec_fn(Seq<char>) -> int| ranks(rank, g);
        let x = choose|x: Seq<char>| s.contains(x);
        assert(depends_into(g, x, s));
        let (i, d) = choose|i: int, d: Seq<char>|
            0 <= i < g.len() && g[i].name == x && #[trigger] g[i].deps.contains(d) && s.contains(d);
        lemma_no_descent(g, rank, s, d);
    }
}

/// A closed graph has a cycle exactly when it has processes of which each depends on one of them.
pub proof fn law_cycle(g: Seq<Node>)
    requires
        distinct_names(g),
        closed(g),
    ensures
        acyclic(g) <==> !exists|s: Set<Seq<char>>| is_cycle(g, s),
{
    if acyclic(g) {
        assert forall|s: Set<Seq<char>>| !is_cycle(g, s) by {
            lemma_acyclic_no_cycle(g, s);
        }
    } else {
        lemma_deduped(g);
        lemma_residue(deduped(g));
        let s = lemma_residue_is_cycle(deduped(g));
        lemma_deduped_cycle(g, s);
    }
}

/// A closed graph that names no dependency twice lacks a start order exactly when it has a cycle,
/// and then the processes that the rounds leave form one.
pub proof fn law_unsortable_has_cycle(g: Seq<Node>)
    requires
        distinct_names(g),
        closed(g),
        distinct_deps(g),
    ensures
        !sortable(g) <==> exists|s: Set<Seq<char>>| is_cycle(g, s),
        !sortable(g) ==> is_cycle(g, Set::new(|x: Seq<char>| lists(residue(g), x))),
{
    law_cycle(g);
    lemma_residue(g);
    if !sortable(g) {
        let s = lemma_residue_is_cycle(g);
    }
}

/// Those of the names that the set holds, in their order.
pub open spec fn only(names: Seq<Seq<char>>, s: Set<Seq<char>>) -> Seq<Seq<char>> {
    names.filter(|d: Seq<char>| s.contains(d))
}

/// The nodes whose names the set holds, in their order, each with those of its dependencies that
/// the set holds.
pub open spec fn restricted(g: Seq<Node>, s: Set<Seq<char>>) -> Seq<Node>
    decreases g.len(),
{
    if g.len() == 0 {
        g
    } else if s.contains(g.last().name) {
        restricted(g.drop_last(), s).push(
            Node { name: g.last().name, deps: only(g.last().deps, s) },
        )
    } else {
        restricted(g.drop_last(), s)
    }
}

/// The names of the nodes that the rounds leave.
pub open spec fn left_names(g: Seq<Node>) -> Set<Seq<char>> {
    Set::new(|x: Seq<char>| lists(residue(g), x))
}

proof fn lemma_only_unfold(names: Seq<Seq<char>>, s: Set<Seq<char>>)
    ensures
        names.len() == 0 ==> only(names, s) == names,
        names.len() > 0 ==> only(names, s) == if s.contains(names.last()) {
            only(names.drop_last(), s).push(names.last())
        } else {
            only(names.drop_last(), s)
        },
{
    reveal(Seq::filter);
}

proof fn lemma_only(names: Seq<Seq<char>>, s: Set<Seq<char>>)
    ensures
        forall|x: Seq<char>| #[trigger]
            only(names, s).contains(x) ==> names.contains(x) && s.contains(x),
        names.no_duplicates() ==> only(names, s).no_duplicates(),
    decreases names.len(),
{
    lemma_only_unfold(names, s);
    if names.len() > 0 {
        let rest = names.drop_last();
        lemma_only(rest, s);
        lemma_last_or_rest(names);
        if s.contains(names.last()) {
            assert(only(names, s).drop_last() =~= only(rest, s));
            lemma_last_or_rest(only(names, s));
            if names.no_duplicates() {
                assert(!only(rest, s).contains(names.last())) by {
                    if rest.contains(names.last()) {
                        let k = choose|k: int| 0 <= k < rest.len() && rest[k] == names.last();
                        assert(names[k] == names[names.len() - 1]);
                    }
                }
            }
        }
    }
}

proof fn lemma_only_twice(names: Seq<Seq<char>>, s: Set<Seq<char>>, t: Set<Seq<char>>)
    ensures
        only(only(names, s), t) == only(names, s.intersect(t)),
    decreases names.len(),
{
    lemma_only_unfold(names, s);
    lemma_only_unfold(names, s.intersect(t));
    lemma_only_unfold(only(names, s), t);
    if names.len() > 0 {
        lemma_only_twice(names.drop_last(), s, t);
        if s.contains(names.last()) {
            assert(only(names, s).drop_last() =~= only(names.drop_last(), s));
        }
    }
}

proof fn lemma_only_same(names: Seq<Seq<char>>, s: Set<Seq<char>>, t: Set<Seq<char>>)
    requires
        forall|x: Seq<char>| #[trigger] names.contains(x) ==> (s.contains(x) <==> t.contains(x)),
    ensures
        only(names, s) == only(names, t),
    decreases names.len(),
{
    lemma_only_unfold(names, s);
    lemma_only_unfold(names, t);
    if names.len() > 0 {
        let rest = names.drop_last();
        lemma_last_or_rest(names);
        assert(names.contains(names.last()));
        assert forall|x: Seq<char>| #[trigger] rest.contains(x) implies (s.contains(x)
            <==> t.contains(x)) by {
            assert(names.contains(x));
        }
        lemma_only_same(rest, s, t);
    }
}

proof fn lemma_only_all(names: Seq<Seq<char>>, s: Set<Seq<char>>)
    requires
        forall|x: Seq<char>| #[trigger] names.contains(x) ==> s.contains(x),
    ensures
        only(names, s) == names,
    decreases names.len(),
{
    lemma_only_unfold(names, s);
    if names.len() > 0 {
        let rest = names.drop_last();
        lemma_last_or_rest(names);
        assert(names.contains(names.last()));
        assert forall|x: Seq<char>| #[trigger] rest.contains(x) implies s.contains(x) by {
            assert(names.contains(x));
        }
        lemma_only_all(rest, s);
        assert(rest.push(names.last()) =~= names);
    }
}

/// Every name but `x`.
spec fn all_but(x: Seq<char>) -> Set<Seq<char>> {
    Set::new(|y: Seq<char>| y != x)
}

/// Every name but those of the sequence.
spec fn outside(names: Seq<Seq<char>>) -> Set<Seq<char>> {
    Set::new(|y: Seq<char>| !names.contains(y))
}

/// Striking a name from dependencies that are distinct leaves the others.
proof fn lemma_remove_value_is_only(names: Seq<Seq<char>>, x: Seq<char>)
    requires
        names.no_duplicates(),
    ensures
        names.remove_value(x) == only(names, all_but(x)),
    decreases names.len(),
{
    names.index_of_first_ensures(x);
    lemma_only_unfold(names, all_but(x));
    if names.len() > 0 {
        let rest = names.drop_last();
        rest.index_of_first_ensures(x);
        lemma_last_or_rest(names);
        if names.last() == x {
            assert forall|y: Seq<char>| #[trigger] rest.contains(y) implies all_but(x).contains(
                y,
            ) by {
                let k = choose|k: int| 0 <= k < rest.len() && rest[k] == y;
                assert(names[k] != names[names.len() - 1]);
            }
            lemma_only_all(rest, all_but(x));
            assert(names.contains(x));
            let i = names.index_of_first(x)->0;
            assert(i == names.len() - 1);
            assert(names.remove(i) =~= rest);
        } else {
            lemma_remove_value_is_only(rest, x);
            if names.contains(x) {
                let i = names.index_of_first(x)->0;
                let j = rest.index_of_first(x)->0;
                assert(rest.contains(x));
                assert(names[j] == x && names[i] == x);
                assert(i == j);
                assert(names.remove(i) =~= rest.remove(j).push(names.last()));
            } else {
                assert(!rest.contains(x));
                assert(rest.push(names.last()) =~= names);
            }
        }
    }
}

proof fn lemma_restricted(g: Seq<Node>, s: Set<Seq<char>>)
    ensures
        forall|x: Seq<char>| #[trigger]
            lists(restricted(g, s), x) <==> lists(g, x) && s.contains(x),
        distinct_deps(g) ==> distinct_deps(restricted(g, s)),
    decreases g.len(),
{
    if g.len() > 0 {
        let f = g.drop_last();
        let h = restricted(g, s);
        let p = restricted(f, s);
        lemma_restricted(f, s);
        lemma_only(g.last().deps, s);
        assert forall|x: Seq<char>| #[trigger] lists(h, x) <==> lists(g, x) && s.contains(x) by {
            lemma_lists_last(g, x);
            if s.contains(g.last().name) {
                lemma_lists_last(h, x);
                assert(h.drop_last() =~= p);
            }
        }
        if distinct_deps(g) {
            assert forall|i: int| 0 <= i < f.len() implies (
            #[trigger] f[i]).deps.no_duplicates() by {
                assert(g[i] == f[i]);
            }
            assert(g[g.len() - 1].deps.no_duplicates());
            assert forall|i: int| 0 <= i < h.len() implies (
            #[trigger] h[i]).deps.no_duplicates() by {
                if i < p.len() {
                    assert(h[i] == p[i]);
                }
            }
        }
    }
}

proof fn lemma_lists_last(g: Seq<Node>, x: Seq<char>)
    requires
        g.len() > 0,
    ensures
        lists(g, x) <==> lists(g.drop_last(), x) || g.last().name == x,
{
    let f = g.drop_last();
    if lists(g, x) {
        let i = choose|i: int| 0 <= i < g.len() && (#[trigger] g[i]).name == x;
        if i < f.len() {
            assert(f[i].name == x);
        }
    }
    if lists(f, x) {
        let i = choose|i: int| 0 <= i < f.len() && (#[trigger] f[i]).name == x;
        assert(g[i].name == x);
    }
    if g.last().name == x {
        assert(g[g.len() - 1].name == x);
    }
}

proof fn lemma_restricted_twice(g: Seq<Node>, s: Set<Seq<char>>, t: Set<Seq<char>>)
    ensures
        restricted(restricted(g, s), t) == restricted(g, s.intersect(t)),
    decreases g.len(),
{
    if g.len() > 0 {
        let f = g.drop_last();
        lemma_restricted_twice(f, s, t);
        lemma_only_twice(g.last().deps, s, t);
        if s.contains(g.last().name) {
            assert(restricted(g, s).drop_last() =~= restricted(f, s));
        }
    }
}

proof fn lemma_restricted_same(g: Seq<Node>, s: Set<Seq<char>>, t: Set<Seq<char>>)
    requires
        forall|i: int|
            0 <= i < g.len() ==> (s.contains((#[trigger] g[i]).name) <==> t.contains(g[i].name)),
        forall|i: int, d: Seq<char>|
            0 <= i < g.len() && #[trigger] g[i].deps.contains(d) ==> (s.contains(d) <==> t.contains(
                d,
            )),
    ensures
        restricted(g, s) == restricted(g, t),
    decreases g.len(),
{
    if g.len() > 0 {
        let f = g.drop_last();
        assert forall|i: int, d: Seq<char>|
            0 <= i < f.len() && #[trigger] f[i].deps.contains(d) implies (s.contains(d)
            <==> t.contains(d)) by {
            assert(g[i].deps.contains(d));
        }
        lemma_restricted_same(f, s, t);
        let n = g[g.len() - 1];
        assert forall|d: Seq<char>| #[trigger] n.deps.contains(d) implies (s.contains(d)
            <==> t.contains(d)) by {
            assert(g[g.len() - 1].deps.contains(d));
        }
        lemma_only_same(n.deps, s, t);
    }
}

proof fn lemma_restricted_all(g: Seq<Node>, s: Set<Seq<char>>)
    requires
        forall|x: Seq<char>| #[trigger] s.contains(x),
    ensures
        restricted(g, s) == g,
    decreases g.len(),
{
    if g.len() > 0 {
        lemma_restricted_all(g.drop_last(), s);
        lemma_only_all(g.last().deps, s);
        assert(restricted(g, s) =~= g);
    }
}

proof fn lemma_without_is_restricted(g: Seq<Node>, x: Seq<char>)
    requires
        distinct_deps(g),
    ensures
        without(g, x) == restricted(g, all_but(x)),
    decreases g.len(),
{
    if g.len() > 0 {
        let f = g.drop_last();
        assert forall|i: int| 0 <= i < f.len() implies (#[trigger] f[i]).deps.no_duplicates() by {
            assert(g[i] == f[i]);
        }
        lemma_without_is_restricted(f, x);
        assert(g[g.len() - 1].deps.no_duplicates());
        lemma_remove_value_is_only(g.last().deps, x);
    }
}

proof fn lemma_without_all_is_restricted(g: Seq<Node>, names: Seq<Seq<char>>)
    requires
        distinct_deps(g),
    ensures
        without_all(g, names) == restricted(g, outside(names)),
    decreases names.len(),
{
    if names.len() == 0 {
        lemma_restricted_all(g, outside(names));
    } else {
        let rest = names.drop_last();
        let x = names.last();
        lemma_without_all_is_restricted(g, rest);
        lemma_restricted(g, outside(rest));
        lemma_without_is_restricted(without_all(g, rest), x);
        lemma_restricted_twice(g, outside(rest), all_but(x));
        lemma_last_or_rest(names);
        assert(outside(rest).intersect(all_but(x)) =~= outside(names));
    }
}

/// The rounds leave a part of the graph.
proof fn lemma_residue_is_restricted(g: Seq<Node>) -> (s: Set<Seq<char>>)
    requires
        distinct_deps(g),
    ensures
        residue(g) == restricted(g, s),
    decreases g.len(),
{
    if roots(g).len() == 0 {
        let s = outside(Seq::empty());
        lemma_restricted_all(g, s);
        s
    } else {
        lemma_peel_shrinks(g);
        lemma_without_all_is_restricted(g, roots(g));
        lemma_restricted(g, outside(roots(g)));
        let t = lemma_residue_is_restricted(peel(g));
        lemma_restricted_twice(g, outside(roots(g)), t);
        outside(roots(g)).intersect(t)
    }
}

/// A round takes no process of a cycle.
proof fn lemma_peel_keeps_cycle(g: Seq<Node>, s: Set<Seq<char>>)
    requires
        distinct_names(g),
        is_cycle(g, s),
    ensures
        is_cycle(peel(g), s),
{
    let r = roots(g);
    let h = peel(g);
    lemma_peel(g);
    assert forall|x: Seq<char>| s.contains(x) implies !#[trigger] r.contains(x) by {
        assert(depends_into(g, x, s));
        let (i, d) = choose|i: int, d: Seq<char>|
            0 <= i < g.len() && g[i].name == x && #[trigger] g[i].deps.contains(d) && s.contains(d);
        assert(g.contains(g[i]));
    }
    assert forall|x: Seq<char>| s.contains(x) implies #[trigger] depends_into(h, x, s) by {
        assert(depends_into(g, x, s));
        let (i, d) = choose|i: int, d: Seq<char>|
            0 <= i < g.len() && g[i].name == x && #[trigger] g[i].deps.contains(d) && s.contains(d);
        let m = stripped(g[i], r);
        assert(g.contains(g[i]) && !r.contains(x));
        assert(h.contains(m));
        let k = choose|k: int| 0 <= k < h.len() && h[k] == m;
        lemma_strip(g[i].deps, r);
        assert(!r.contains(d));
        assert(h[k].deps.contains(d));
    }
}

/// The rounds leave every process of a cycle.
proof fn lemma_cycle_is_left(g: Seq<Node>, s: Set<Seq<char>>, x: Seq<char>)
    requires
        distinct_names(g),
        is_cycle(g, s),
        s.contains(x),
    ensures
        lists(residue(g), x),
    decreases g.len(),
{
    if roots(g).len() == 0 {
        assert(depends_into(g, x, s));
        let (i, d) = choose|i: int, d: Seq<char>|
            0 <= i < g.len() && g[i].name == x && #[trigger] g[i].deps.contains(d) && s.contains(d);
        assert(g[i].name == x);
    } else {
        lemma_peel_shrinks(g);
        lemma_peel(g);
        lemma_peel_keeps_cycle(g, s);
        lemma_cycle_is_left(peel(g), s, x);
    }
}

/// In a closed graph that names no dependency twice, the rounds leave exactly the processes that
/// belong to a set of which each depends on one of the set. They stay in their order, each with
/// those of its dependencies, in their order, that are left too.
pub proof fn law_residue_is_the_cycles(g: Seq<Node>)
    requires
        distinct_names(g),
        closed(g),
        distinct_deps(g),
    ensures
        forall|x: Seq<char>| #[trigger]
            lists(residue(g), x) <==> exists|s: Set<Seq<char>>| #[trigger]
                is_cycle(g, s) && s.contains(x),
        residue(g) == restricted(g, left_names(g)),
{
    assert forall|x: Seq<char>| #[trigger] lists(residue(g), x) <==> exists|s: Set<Seq<char>>|
        #[trigger] is_cycle(g, s) && s.contains(x) by {
        if lists(residue(g), x) {
            let s = lemma_residue_is_cycle(g);
            assert(is_cycle(g, s) && s.contains(x));
        }
        if exists|s: Set<Seq<char>>| #[trigger] is_cycle(g, s) && s.contains(x) {
            let s = choose|s: Set<Seq<char>>| #[trigger] is_cycle(g, s) && s.contains(x);
            lemma_cycle_is_left(g, s, x);
        }
    }
    let t = lemma_residue_is_restricted(g);
    lemma_restricted(g, t);
    assert forall|i: int| 0 <= i < g.len() implies (t.contains((#[trigger] g[i]).name)
        <==> left_names(g).contains(g[i].name)) by {
        assert(lists(g, g[i].name));
    }
    assert forall|i: int, d: Seq<char>|
        0 <= i < g.len() && #[trigger] g[i].deps.contains(d) implies (t.contains(d)
        <==> left_names(g).contains(d)) by {
        assert(resolved(g, g[i]));
        assert(lists(g, d));
    }
    lemma_restricted_same(g, t, left_names(g));
}

/// `x` stands before `y` in the sequence.
pub open spec fn precedes(s: Seq<Seq<char>>, x: Seq<char>, y: Seq<char>) -> bool {
    exists|i: int, j: int| 0 <= i < j < s.len() && #[trigger] s[i] == x && #[trigger] s[j] == y
}

/// `x` was inserted into the graph before `y`.
pub open spec fn inserted_before(g: Seq<Node>, x: Seq<char>, y: Seq<char>) -> bool {
    exists|i: int, j: int|
        0 <= i < j < g.len() && (#[trigger] g[i]).name == x && (#[trigger] g[j]).name == y
}

proof fn lemma_depth(g: Seq<Node>)
    requires
        distinct_names(g),
        residue(g).len() == 0,
    ensures
        forall|n: Node| #[trigger] g.contains(n) ==> (depth(g, n.name) == 0 <==> n.deps.len() == 0),
        forall|n: Node, d: Seq<char>|
            g.contains(n) && #[trigger] n.deps.contains(d) ==> depth(g, d) < depth(g, n.name),
        forall|n: Node| #[trigger]
            g.contains(n) && n.deps.len() > 0 ==> exists|d: Seq<char>| #[trigger]
                n.deps.contains(d) && depth(g, d) + 1 == depth(g, n.name),
        forall|i: int, j: int|
            0 <= i <= j < order(g).len() ==> depth(g, #[trigger] order(g)[i]) <= depth(
                g,
                #[trigger] order(g)[j],
            ),
    decreases g.len(),
{
    if roots(g).len() > 0 {
        let r = roots(g);
        let h = peel(g);
        let o = order(g);
        lemma_peel_shrinks(g);
        lemma_peel(g);
        lemma_depth(h);
        lemma_emptied(h);
        assert forall|x: Seq<char>| lists(h, x) implies #[trigger] depth(g, x) == 1 + depth(
            h,
            x,
        ) by {}
        assert forall|n: Node| #[trigger] g.contains(n) && n.deps.len() > 0 implies h.contains(
            stripped(n, r),
        ) && depth(g, n.name) == 1 + depth(h, n.name) by {}
        assert forall|n: Node, d: Seq<char>| g.contains(n) && #[trigger] n.deps.contains(
            d,
        ) implies depth(g, d) < depth(g, n.name) by {
            if !r.contains(d) {
                let m = stripped(n, r);
                lemma_strip(n.deps, r);
                assert(h.contains(m) && m.deps.contains(d));
                assert(lists(h, d)) by {
                    let k = choose|k: int| 0 <= k < h.len() && h[k] == m;
                    assert(resolved(h, h[k]));
                }
            }
        }
        assert forall|n: Node| #[trigger] g.contains(n) && n.deps.len() > 0 implies exists|
            d: Seq<char>,
        | #[trigger] n.deps.contains(d) && depth(g, d) + 1 == depth(g, n.name) by {
            let m = stripped(n, r);
            lemma_strip(n.deps, r);
            assert(h.contains(m));
            if m.deps.len() == 0 {
                let d = n.deps[0];
                assert(n.deps.contains(d));
                if !r.contains(d) {
                    assert(m.deps.contains(d));
                }
                assert(depth(g, d) + 1 == depth(g, n.name));
            } else {
                let d = choose|d: Seq<char>| #[trigger]
                    m.deps.contains(d) && depth(h, d) + 1 == depth(h, m.name);
                let k = choose|k: int| 0 <= k < h.len() && h[k] == m;
                assert(resolved(h, h[k]));
                assert(lists(h, d));
                assert(n.deps.contains(d) && depth(g, d) + 1 == depth(g, n.name));
            }
        }
        assert forall|i: int, j: int| 0 <= i <= j < o.len() implies depth(g, #[trigger] o[i])
            <= depth(g, #[trigger] o[j]) by {
            if i < r.len() {
                assert(r[i] == o[i]);
                assert(r.contains(o[i]));
            } else {
                assert(order(h)[i - r.len()] == o[i]);
                assert(order(h)[j - r.len()] == o[j]);
                assert(order(h).contains(o[i]) && order(h).contains(o[j]));
                assert(lists(h, o[i]) && lists(h, o[j]));
            }
        }
    } else {
        assert(g.len() == 0);
    }
}

/// The start order goes by depth, and the depth of a process is zero without dependencies and
/// otherwise one more than the greatest depth among its dependencies: no process waits longer
/// than its longest chain of dependencies.
pub proof fn law_order_goes_by_depth(g: Seq<Node>)
    requires
        distinct_names(g),
        sortable(g),
    ensures
        forall|i: int, j: int|
            0 <= i <= j < order(g).len() ==> depth(g, #[trigger] order(g)[i]) <= depth(
                g,
                #[trigger] order(g)[j],
            ),
        forall|n: Node| #[trigger] g.contains(n) ==> (depth(g, n.name) == 0 <==> n.deps.len() == 0),
        forall|n: Node, d: Seq<char>|
            g.contains(n) && #[trigger] n.deps.contains(d) ==> depth(g, d) < depth(g, n.name),
        forall|n: Node| #[trigger]
            g.contains(n) && n.deps.len() > 0 ==> exists|d: Seq<char>| #[trigger]
                n.deps.contains(d) && depth(g, d) + 1 == depth(g, n.name),
{
    lemma_residue(g);
    lemma_depth(g);
}

proof fn lemma_without_keeps_insertion(g: Seq<Node>, z: Seq<char>, x: Seq<char>, y: Seq<char>)
    requires
        x != z,
        y != z,
    ensures
        lists(g, x) ==> lists(without(g, z), x),
        inserted_before(g, x, y) ==> inserted_before(without(g, z), x, y),
    decreases g.len(),
{
    if g.len() > 0 {
        let f = g.drop_last();
        let h = without(g, z);
        let p = without(f, z);
        lemma_without_keeps_insertion(f, z, x, y);
        if lists(f, x) {
            let k = choose|k: int| 0 <= k < p.len() && (#[trigger] p[k]).name == x;
            assert(h[k].name == x);
        }
        if lists(g, x) {
            let k = choose|k: int| 0 <= k < g.len() && (#[trigger] g[k]).name == x;
            if k < g.len() - 1 {
                assert(f[k].name == x);
            } else {
                assert(h[h.len() - 1].name == x);
            }
        }
        if inserted_before(g, x, y) {
            let (i, j) = choose|i: int, j: int|
                0 <= i < j < g.len() && (#[trigger] g[i]).name == x && (#[trigger] g[j]).name == y;
            assert(f[i].name == x);
            assert(lists(f, x));
            if j < g.len() - 1 {
                assert(f[j].name == y);
                assert(inserted_before(f, x, y));
                let (a, b) = choose|a: int, b: int|
                    0 <= a < b < p.len() && (#[trigger] p[a]).name == x && (#[trigger] p[b]).name
                        == y;
                assert(h[a].name == x && h[b].name == y);
            } else {
                let k = choose|k: int| 0 <= k < p.len() && (#[trigger] p[k]).name == x;
                assert(h[k].name == x && h[h.len() - 1].name == y);
            }
        }
    }
}

proof fn lemma_without_all_keeps_insertion(
    g: Seq<Node>,
    names: Seq<Seq<char>>,
    x: Seq<char>,
    y: Seq<char>,
)
    requires
        !names.contains(x),
        !names.contains(y),
        inserted_before(g, x, y),
    ensures
        inserted_before(without_all(g, names), x, y),
    decreases names.len(),
{
    if names.len() > 0 {
        lemma_last_or_rest(names);
        lemma_without_all_keeps_insertion(g, names.drop_last(), x, y);
        lemma_without_keeps_insertion(without_all(g, names.drop_last()), names.last(), x, y);
    }
}

proof fn lemma_roots_keep_insertion(g: Seq<Node>, x: Seq<char>, y: Seq<char>)
    requires
        distinct_names(g),
        roots(g).contains(x),
        roots(g).contains(y),
        inserted_before(g, x, y),
    ensures
        precedes(roots(g), x, y),
    decreases g.len(),
{
    let f = g.drop_last();
    let r = roots(g);
    lemma_roots(g);
    lemma_roots(f);
    let (i, j) = choose|i: int, j: int|
        0 <= i < j < g.len() && (#[trigger] g[i]).name == x && (#[trigger] g[j]).name == y;
    let a = choose|a: int| 0 <= a < g.len() && (#[trigger] g[a]).name == x && g[a].deps.len() == 0;
    let b = choose|b: int| 0 <= b < g.len() && (#[trigger] g[b]).name == y && g[b].deps.len() == 0;
    assert(a == i && b == j);
    assert(f[i].name == x && f[i].deps.len() == 0);
    assert(roots(f).contains(x));
    if j < g.len() - 1 {
        assert(f[j].name == y && f[j].deps.len() == 0);
        assert(roots(f).contains(y));
        assert(inserted_before(f, x, y));
        lemma_roots_keep_insertion(f, x, y);
        let (c, e) = choose|c: int, e: int|
            0 <= c < e < roots(f).len() && #[trigger] roots(f)[c] == x && #[trigger] roots(f)[e] == y;
        assert(r[c] == x && r[e] == y);
    } else {
        let c = choose|c: int| 0 <= c < roots(f).len() && roots(f)[c] == x;
        assert(r[c] == x && r[r.len() - 1] == y);
    }
}

proof fn lemma_ties(g: Seq<Node>, x: Seq<char>, y: Seq<char>)
    requires
        distinct_names(g),
        residue(g).len() == 0,
        inserted_before(g, x, y),
        depth(g, x) == depth(g, y),
    ensures
        precedes(order(g), x, y),
    decreases g.len(),
{
    let r = roots(g);
    let h = peel(g);
    let o = order(g);
    let (i, j) = choose|i: int, j: int|
        0 <= i < j < g.len() && (#[trigger] g[i]).name == x && (#[trigger] g[j]).name == y;
    if r.len() > 0 {
        lemma_peel_shrinks(g);
        lemma_peel(g);
        if r.contains(x) {
            lemma_roots_keep_insertion(g, x, y);
            let (a, b) = choose|a: int, b: int|
                0 <= a < b < r.len() && #[trigger] r[a] == x && #[trigger] r[b] == y;
            assert(o[a] == x && o[b] == y);
        } else {
            lemma_without_all_keeps_insertion(g, r, x, y);
            lemma_ties(h, x, y);
            let (a, b) = choose|a: int, b: int|
                0 <= a < b < order(h).len() && #[trigger] order(h)[a] == x && #[trigger] order(
                    h,
                )[b] == y;
            assert(o[r.len() + a] == x && o[r.len() + b] == y);
        }
    }
}

/// Processes of the same depth start in the order in which they were inserted.
pub proof fn law_ties_go_by_insertion(g: Seq<Node>, x: Seq<char>, y: Seq<char>)
    requires
        distinct_names(g),
        sortable(g),
        inserted_before(g, x, y),
        depth(g, x) == depth(g, y),
    ensures
        precedes(order(g), x, y),
{
    lemma_residue(g);
    lemma_ties(g, x, y);
}

/// A graph has a start order where every dependency is the name of a node, no node names a
/// dependency twice, and every node can be given a number above those of its dependencies.
pub proof fn law_ranked_graph_has_a_start_order(g: Seq<Node>, rank: spec_fn(Seq<char>) -> int)
    requires
        forall|i: int, d: Seq<char>|
            0 <= i < g.len() && #[trigger] g[i].deps.contains(d) ==> exists|j: int|
                0 <= j < g.len() && (#[trigger] g[j]).name == d,
        forall|i: int, a: int, b: int|
            #![trigger g[i].deps[a], g[i].deps[b]]
            0 <= i < g.len() && 0 <= a < b < g[i].deps.len() ==> g[i].deps[a] != g[i].deps[b],
        forall|i: int, d: Seq<char>|
            0 <= i < g.len() && #[trigger] g[i].deps.contains(d) ==> 0 <= rank(d) < rank(g[i].name),
    ensures
        sortable(g),
{
    assert forall|i: int| 0 <= i < g.len() implies (#[trigger] g[i]).deps.no_duplicates() by {
        assert forall|a: int, b: int|
            0 <= a < g[i].deps.len() && 0 <= b < g[i].deps.len() && a != b implies g[i].deps[a]
            != g[i].deps[b] by {
            if a < b {
                assert(g[i].deps[a] != g[i].deps[b]);
            } else {
                assert(g[i].deps[b] != g[i].deps[a]);
            }
        }
    }
    assert forall|i: int| 0 <= i < g.len() implies resolved(g, #[trigger] g[i]) by {
        assert forall|d: Seq<char>| #[trigger] g[i].deps.contains(d) implies lists(g, d) by {}
    }
    assert(ranks(rank, g));
}

/// In a graph that has a start order every dependency is the name of a node, and no node names a
/// dependency twice.
pub proof fn law_start_order_needs_known_and_distinct_dependencies(g: Seq<Node>)
    requires
        sortable(g),
    ensures
        forall|i: int, d: Seq<char>|
            0 <= i < g.len() && #[trigger] g[i].deps.contains(d) ==> exists|j: int|
                0 <= j < g.len() && (#[trigger] g[j]).name == d,
        forall|i: int, a: int, b: int|
            #![trigger g[i].deps[a], g[i].deps[b]]
            0 <= i < g.len() && 0 <= a < b < g[i].deps.len() ==> g[i].deps[a] != g[i].deps[b],
{
    assert forall|i: int, d: Seq<char>|
        0 <= i < g.len() && #[trigger] g[i].deps.contains(d) implies exists|j: int|
        0 <= j < g.len() && (#[trigger] g[j]).name == d by {
        assert(resolved(g, g[i]));
    }
}

/// The start order has as many names as the graph has nodes. The name of each node stands in it at
/// one place, and each of the dependencies of the node stands at a place before that.
pub proof fn law_order_by_places(g: Seq<Node>)
    requires
        forall|i: int, j: int|
            0 <= i < j < g.len() ==> (#[trigger] g[i]).name != (#[trigger] g[j]).name,
        sortable(g),
    ensures
        order(g).len() == g.len(),
        forall|i: int|
            0 <= i < g.len() ==> exists|k: int|
                0 <= k < order(g).len() && #[trigger] order(g)[k] == (#[trigger] g[i]).name,
        forall|k: int|
            0 <= k < order(g).len() ==> exists|i: int|
                0 <= i < g.len() && (#[trigger] g[i]).name == #[trigger] order(g)[k],
        forall|k: int, l: int|
            0 <= k < l < order(g).len() ==> #[trigger] order(g)[k] != #[trigger] order(g)[l],
        forall|i: int, k: int, d: Seq<char>|
            #![trigger g[i].deps.contains(d), order(g)[k]]
            0 <= i < g.len() && 0 <= k < order(g).len() && order(g)[k] == g[i].name
                && g[i].deps.contains(d) ==> exists|j: int|
                0 <= j < k && #[trigger] order(g)[j] == d,
{
    let o = order(g);
    assert(distinct_names(g));
    law_order_lists_every_process_once(g);
    law_dependencies_start_first(g);
    assert forall|i: int| 0 <= i < g.len() implies exists|k: int|
        0 <= k < o.len() && #[trigger] o[k] == (#[trigger] g[i]).name by {
        assert(lists(g, g[i].name));
        assert(o.contains(g[i].name));
    }
    assert forall|k: int| 0 <= k < o.len() implies exists|i: int|
        0 <= i < g.len() && (#[trigger] g[i]).name == #[trigger] o[k] by {
        assert(o.contains(o[k]));
        assert(lists(g, o[k]));
    }
    assert forall|i: int, k: int, d: Seq<char>|
        #![trigger g[i].deps.contains(d), o[k]]
        0 <= i < g.len() && 0 <= k < o.len() && o[k] == g[i].name && g[i].deps.contains(
            d,
        ) implies exists|j: int| 0 <= j < k && #[trigger] o[j] == d by {
        assert(g.contains(g[i]));
        assert(o.take(k).contains(d));
        let j = choose|j: int| 0 <= j < o.take(k).len() && o.take(k)[j] == d;
        assert(o[j] == d);
    }
    lemma_emptied_len(g);
}

proof fn lemma_emptied_len(g: Seq<Node>)
    requires
        distinct_names(g),
        sortable(g),
    ensures
        order(g).len() == g.len(),
{
    let names = g.map_values(|n: Node| n.name);
    let o = order(g);
    law_order_lists_every_process_once(g);
    assert(names.no_duplicates());
    assert(o.to_set() =~= names.to_set()) by {
        assert forall|x: Seq<char>| o.to_set().contains(x) <==> names.to_set().contains(x) by {
            if o.contains(x) {
                assert(lists(g, x));
                let i = choose|i: int| 0 <= i < g.len() && (#[trigger] g[i]).name == x;
                assert(names[i] == x);
            }
            if names.contains(x) {
                let i = choose|i: int| 0 <= i < names.len() && names[i] == x;
                assert(g[i].name == x);
                assert(lists(g, x));
                assert(o.contains(x));
            }
        }
    }
    o.unique_seq_to_set();
    names.unique_seq_to_set();
}

proof fn lemma_strip_concat(deps: Seq<Seq<char>>, a: Seq<Seq<char>>, b: Seq<Seq<char>>)
    ensures
        strip(deps, a + b) == strip(strip(deps, a), b),
    decreases b.len(),
{
    if b.len() == 0 {
        assert(a + b =~= a);
    } else {
        lemma_strip_concat(deps, a, b.drop_last());
        assert((a + b).drop_last() =~= a + b.drop_last());
    }
}

/// In any graph, every node is either taken into the order or left, and never both. A node that is
/// left waits for something: it has the dependencies that it had, each of the names that were taken
/// struck from them once, and at least one remains.
pub proof fn law_rounds_take_or_leave(g: Seq<Node>)
    requires
        distinct_names(g),
    ensures
        order(g).no_duplicates(),
        forall|x: Seq<char>| #[trigger]
            lists(g, x) <==> order(g).contains(x) || lists(residue(g), x),
        forall|x: Seq<char>| #[trigger] order(g).contains(x) ==> !lists(residue(g), x),
        forall|k: int| 0 <= k < residue(g).len() ==> (#[trigger] residue(g)[k]).deps.len() > 0,
        forall|m: Node| #[trigger]
            residue(g).contains(m) ==> exists|n: Node| #[trigger]
                g.contains(n) && n.name == m.name && m.deps == strip(n.deps, order(g)),
    decreases g.len(),
{
    let r = roots(g);
    let o = order(g);
    lemma_roots(g);
    if r.len() == 0 {
        assert forall|k: int| 0 <= k < g.len() implies (#[trigger] g[k]).deps.len() > 0 by {
            if g[k].deps.len() == 0 {
                assert(r.contains(g[k].name));
            }
        }
        assert forall|m: Node| #[trigger] g.contains(m) implies exists|n: Node| #[trigger]
            g.contains(n) && n.name == m.name && m.deps == strip(n.deps, o) by {
            assert(g.contains(m) && m.deps == strip(m.deps, o));
        }
    } else {
        let h = peel(g);
        lemma_peel_shrinks(g);
        lemma_peel(g);
        law_rounds_take_or_leave(h);
        assert(residue(g) == residue(h));
        assert forall|x: Seq<char>| #[trigger] o.contains(x) <==> r.contains(x) || order(
            h,
        ).contains(x) by {
            if r.contains(x) {
                let k = choose|k: int| 0 <= k < r.len() && r[k] == x;
                assert(o[k] == x);
            }
            if order(h).contains(x) {
                let k = choose|k: int| 0 <= k < order(h).len() && order(h)[k] == x;
                assert(o[r.len() + k] == x);
            }
        }
        assert forall|a: int, b: int| 0 <= a < b < o.len() implies o[a] != o[b] by {
            if a < r.len() && r.len() <= b {
                assert(order(h)[b - r.len()] == o[b]);
                assert(order(h).contains(o[b]));
                assert(lists(h, o[b]));
                assert(r[a] == o[a]);
                assert(r.contains(o[a]));
            } else if r.len() <= a {
                assert(order(h)[a - r.len()] != order(h)[b - r.len()]);
            }
        }
        assert forall|x: Seq<char>| #[trigger] lists(g, x) <==> o.contains(x) || lists(
            residue(g),
            x,
        ) by {
            assert(lists(h, x) <==> lists(g, x) && !r.contains(x));
        }
        assert forall|x: Seq<char>| #[trigger] o.contains(x) implies !lists(residue(g), x) by {
            if r.contains(x) {
                assert(!lists(h, x));
            }
        }
        assert forall|m: Node| #[trigger] residue(g).contains(m) implies exists|n: Node| #[trigger]
            g.contains(n) && n.name == m.name && m.deps == strip(n.deps, o) by {
            let q = choose|q: Node| #[trigger]
                h.contains(q) && q.name == m.name && m.deps == strip(q.deps, order(h));
            let n = choose|n: Node| #[trigger]
                g.contains(n) && !r.contains(n.name) && q == stripped(n, r);
            lemma_strip_concat(n.deps, r, order(h));
            assert(strip(n.deps, o) == strip(q.deps, order(h)));
            assert(g.contains(n) && n.name == m.name && m.deps == strip(n.deps, o));
        }
    }
}

} // verus!
