//! The dependency graph of an application's processes and its start order.
use crate::config::Process;
use crate::ordering::{
    acyclic, closed, dependencies_first, distinct_deps, distinct_names,
    law_dependencies_start_first, law_order_lists_every_process_once, lemma_peel_names,
    lemma_peel_shrinks, lemma_residue, lemma_roots, lists, lists_once, order, peel, residue,
    resolved, roots, sortable, without, without_all, Node,
};
use vstd::prelude::*;
use vstd::string::*;

verus! {

/// The characters of each string.
pub open spec fn names_of(v: Seq<String>) -> Seq<Seq<char>> {
    v.map_values(|s: String| s@)
}

/// The node that a stored entry stands for.
pub open spec fn node_of(e: (String, Vec<String>)) -> Node {
    Node { name: e.0@, deps: names_of(e.1@) }
}

/// The nodes that stored entries stand for.
pub open spec fn entry_nodes(entries: Seq<(String, Vec<String>)>) -> Seq<Node> {
    entries.map_values(|e: (String, Vec<String>)| node_of(e))
}

/// The processes of an application, each with the names of those that it depends on, in the order
/// of their insertion.
#[derive(Debug)]
pub struct ProcessGraph {
    entries: Vec<(String, Vec<String>)>,
}

impl View for ProcessGraph {
    type V = Seq<Node>;

    closed spec fn view(&self) -> Seq<Node> {
        entry_nodes(self.entries@)
    }
}

/// Why a set of processes has no start order.
#[derive(Debug)]
pub enum GraphError {
    /// The named process depends on one that is not there.
    MissingDependency(String),
    /// Some processes wait for each other, or one names the same dependency twice.
    Cycle,
    /// Two processes share the name.
    DuplicateProcess(String),
}

impl GraphError {
    /// What the error tells the user.
    pub open spec fn text(&self) -> Seq<char> {
        match self {
            GraphError::MissingDependency(name) => "Process "@ + name@
                + " depends on another process which doesn't exist"@,
            GraphError::Cycle => "Process graph contains a cycle"@,
            GraphError::DuplicateProcess(name) => "Duplicate process named "@ + name@,
        }
    }

    /// The message of the error.
    pub fn message(&self) -> (message: String)
        ensures
            message@ == self.text(),
    {
        match self {
            GraphError::MissingDependency(name) => "Process ".to_string().concat(
                name.as_str(),
            ).concat(" depends on another process which doesn't exist"),
            GraphError::Cycle => "Process graph contains a cycle".to_string(),
            GraphError::DuplicateProcess(name) => "Duplicate process named ".to_string().concat(
                name.as_str(),
            ),
        }
    }
}

impl ProcessGraph {
    /// No two processes of the graph share a name.
    #[verifier::type_invariant]
    pub open spec fn wf(&self) -> bool {
        distinct_names(self@)
    }

    /// An empty graph.
    pub fn new() -> (graph: Self)
        ensures
            graph@ == Seq::<Node>::empty(),
    {
        let graph = ProcessGraph { entries: Vec::new() };
        assert(graph@ =~= Seq::<Node>::empty());
        graph
    }

    /// Whether the graph has no process.
    pub fn is_empty(&self) -> (empty: bool)
        ensures
            empty == (self@.len() == 0),
    {
        self.entries.len() == 0
    }

    /// Whether the graph has a process called `name`.
    pub fn contains_key(&self, name: &String) -> (found: bool)
        ensures
            found == lists(self@, name@),
    {
        match position(&self.entries, name) {
            Some(_) => true,
            None => false,
        }
    }

    /// Adds a process behind the others. One that is already there keeps its place and gets the
    /// new dependencies.
    pub fn insert(&mut self, name: String, deps: Vec<String>)
        ensures
            !lists(old(self)@, name@) ==> final(self)@ == old(self)@.push(
                Node { name: name@, deps: names_of(deps@) },
            ),
            forall|i: int|
                0 <= i < old(self)@.len() && (#[trigger] old(self)@[i]).name == name@
                    ==> final(self)@ == old(self)@.update(
                    i,
                    Node { name: name@, deps: names_of(deps@) },
                ),
    {
        proof {
            use_type_invariant(&*self);
        }
        let ghost before = self@;
        let ghost n = Node { name: name@, deps: names_of(deps@) };
        let mut entries: Vec<(String, Vec<String>)> = Vec::new();
        std::mem::swap(&mut entries, &mut self.entries);
        match position(&entries, &name) {
            Some(i) => {
                entries.set(i, (name, deps));
                assert(entry_nodes(entries@) =~= before.update(i as int, n));
            },
            None => {
                entries.push((name, deps));
                assert(entry_nodes(entries@) =~= before.push(n));
            },
        }
        self.entries = entries;
    }

    /// The processes of the graph with their dependencies.
    pub fn into_entries(self) -> (entries: Vec<(String, Vec<String>)>)
        ensures
            entry_nodes(entries@) == self@,
    {
        self.entries
    }
}

/// The position of the process called `name`.
fn position(entries: &Vec<(String, Vec<String>)>, name: &String) -> (at: Option<usize>)
    ensures
        match at {
            Some(i) => i < entries@.len() && entry_nodes(entries@)[i as int].name == name@,
            None => !lists(entry_nodes(entries@), name@),
        },
{
    let mut i: usize = 0;
    while i < entries.len()
        invariant
            i <= entries@.len(),
            forall|k: int| 0 <= k < i ==> (#[trigger] entry_nodes(entries@)[k]).name != name@,
        decreases entries@.len() - i,
    {
        if entries[i].0 == *name {
            return Some(i);
        }
        i += 1;
    }
    None
}

/// The first process with a dependency that is not there.
fn unresolved_at(entries: &Vec<(String, Vec<String>)>) -> (at: Option<usize>)
    ensures
        match at {
            Some(i) => {
                &&& i < entries@.len()
                &&& !resolved(entry_nodes(entries@), entry_nodes(entries@)[i as int])
                &&& forall|k: int|
                    0 <= k < i ==> resolved(
                        entry_nodes(entries@),
                        #[trigger] entry_nodes(entries@)[k],
                    )
            },
            None => closed(entry_nodes(entries@)),
        },
{
    let ghost g = entry_nodes(entries@);
    let mut i: usize = 0;
    while i < entries.len()
        invariant
            g == entry_nodes(entries@),
            i <= entries@.len(),
            forall|k: int| 0 <= k < i ==> resolved(g, #[trigger] g[k]),
        decreases entries@.len() - i,
    {
        let deps = &entries[i].1;
        let ghost n = g[i as int];
        let mut j: usize = 0;
        while j < deps.len()
            invariant
                g == entry_nodes(entries@),
                i < entries@.len(),
                *deps == entries@[i as int].1,
                n == g[i as int],
                j <= deps@.len(),
                forall|k: int| 0 <= k < i ==> resolved(g, #[trigger] g[k]),
                forall|k: int| 0 <= k < j ==> lists(g, #[trigger] n.deps[k]),
            decreases deps@.len() - j,
        {
            if position(entries, &deps[j]).is_none() {
                assert(n.deps[j as int] == deps@[j as int]@);
                assert(n.deps.contains(deps@[j as int]@));
                return Some(i);
            }
            j += 1;
        }
        i += 1;
    }
    None
}

/// The names of the processes without dependencies.
fn roots_of(entries: &Vec<(String, Vec<String>)>) -> (found: Vec<String>)
    ensures
        names_of(found@) == roots(entry_nodes(entries@)),
{
    let ghost g = entry_nodes(entries@);
    let mut found: Vec<String> = Vec::new();
    let mut i: usize = 0;
    assert(names_of(found@) =~= roots(g.take(0)));
    while i < entries.len()
        invariant
            g == entry_nodes(entries@),
            i <= entries@.len(),
            names_of(found@) == roots(g.take(i as int)),
        decreases entries@.len() - i,
    {
        let ghost before = found@;
        if entries[i].1.len() == 0 {
            found.push(entries[i].0.clone());
            assert(names_of(found@) =~= names_of(before).push(g[i as int].name));
        }
        assert(g.take(i + 1).drop_last() =~= g.take(i as int));
        i += 1;
    }
    assert(g.take(i as int) =~= g);
    found
}

/// Takes the process called `name` out and strikes its name once from the dependencies of each
/// other process.
fn take_out(entries: &mut Vec<(String, Vec<String>)>, name: &String)
    ensures
        entry_nodes(final(entries)@) == without(entry_nodes(old(entries)@), name@),
{
    let ghost before = entry_nodes(entries@);
    let ghost mut done: int = 0;
    let mut i: usize = 0;
    assert(entry_nodes(entries@) =~= without(before.take(0), name@) + before.skip(0));
    while i < entries.len()
        invariant
            0 <= done <= before.len(),
            i <= entries@.len(),
            i == without(before.take(done), name@).len(),
            entry_nodes(entries@) == without(before.take(done), name@) + before.skip(done),
        decreases entries@.len() - i,
    {
        let ghost kept = without(before.take(done), name@);
        let ghost current = entry_nodes(entries@);
        assert(current[i as int] == before[done]);
        assert(before.take(done + 1).drop_last() =~= before.take(done));
        if entries[i].0 == *name {
            entries.remove(i);
            assert(entry_nodes(entries@) =~= current.remove(i as int));
            assert(current.remove(i as int) =~= kept + before.skip(done + 1));
        } else {
            strike(&mut entries[i].1, name);
            let ghost n = Node {
                name: before[done].name,
                deps: before[done].deps.remove_value(name@),
            };
            assert(entry_nodes(entries@) =~= current.update(i as int, n));
            assert(current.update(i as int, n) =~= kept.push(n) + before.skip(done + 1));
            i += 1;
        }
        proof {
            done = done + 1;
        }
    }
    assert(before.take(done) =~= before);
    assert(entry_nodes(entries@) =~= without(before, name@));
}

/// Removes the first occurrence of `name`.
fn strike(deps: &mut Vec<String>, name: &String)
    ensures
        names_of(final(deps)@) == names_of(old(deps)@).remove_value(name@),
{
    let ghost before = names_of(deps@);
    proof {
        before.index_of_first_ensures(name@);
    }
    let mut j: usize = 0;
    while j < deps.len()
        invariant
            deps@ == old(deps)@,
            before == names_of(deps@),
            j <= deps@.len(),
            forall|k: int| 0 <= k < j ==> #[trigger] before[k] != name@,
        decreases deps@.len() - j,
    {
        if deps[j] == *name {
            proof {
                before.index_of_first_ensures(name@);
                assert(before[j as int] == name@);
                assert(before.contains(name@));
            }
            deps.remove(j);
            assert(names_of(deps@) =~= before.remove(j as int));
            return ;
        }
        j += 1;
    }
}

/// The start order of the processes: each process comes after all that it depends on. Taking the
/// processes into the order empties the graph; where some cannot be taken, they stay in it with
/// the dependencies that they still wait for.
pub fn topological_sort(graph: &mut ProcessGraph) -> (result: Result<Vec<String>, GraphError>)
    ensures
        match result {
            Ok(sorted) => {
                &&& sortable(old(graph)@)
                &&& names_of(sorted@) == order(old(graph)@)
                &&& lists_once(old(graph)@, names_of(sorted@))
                &&& dependencies_first(old(graph)@, names_of(sorted@))
                &&& final(graph)@.len() == 0
            },
            Err(GraphError::MissingDependency(name)) => {
                &&& first_unresolved(old(graph)@, name@)
                &&& final(graph)@ == old(graph)@
            },
            Err(GraphError::Cycle) => {
                &&& closed(old(graph)@)
                &&& !(distinct_deps(old(graph)@) && acyclic(old(graph)@))
                &&& final(graph)@ == residue(old(graph)@)
            },
            Err(GraphError::DuplicateProcess(_)) => false,
        },
{
    proof {
        use_type_invariant(&*graph);
    }
    let ghost whole = graph@;
    match unresolved_at(&graph.entries) {
        Some(i) => {
            return Err(GraphError::MissingDependency(graph.entries[i].0.clone()));
        },
        None => {},
    }
    let mut entries: Vec<(String, Vec<String>)> = Vec::new();
    std::mem::swap(&mut entries, &mut graph.entries);
    let mut sorted: Vec<String> = Vec::new();
    proof {
        lemma_residue(whole);
        assert(names_of(sorted@) + order(entry_nodes(entries@)) =~= order(whole));
    }
    while entries.len() > 0
        invariant
            whole == old(graph)@,
            graph@.len() == 0,
            distinct_names(whole),
            residue(whole).len() == 0 <==> sortable(whole),
            closed(whole),
            distinct_names(entry_nodes(entries@)),
            names_of(sorted@) + order(entry_nodes(entries@)) == order(whole),
            residue(entry_nodes(entries@)) == residue(whole),
        decreases entry_nodes(entries@).len(),
    {
        let ghost g = entry_nodes(entries@);
        let ghost taken = sorted@;
        let found = roots_of(&entries);
        if found.len() == 0 {
            assert(roots(g).len() == 0);
            graph.entries = entries;
            return Err(GraphError::Cycle);
        }
        proof {
            lemma_peel_shrinks(g);
            lemma_peel_names(g);
        }
        let mut k: usize = 0;
        assert(found@.take(0) =~= Seq::<String>::empty());
        while k < found.len()
            invariant
                k <= found@.len(),
                names_of(found@) == roots(g),
                names_of(sorted@) == names_of(taken) + roots(g).take(k as int),
                entry_nodes(entries@) == without_all(g, roots(g).take(k as int)),
            decreases found@.len() - k,
        {
            let ghost before = sorted@;
            assert(roots(g)[k as int] == found@[k as int]@);
            assert(roots(g).take(k + 1).drop_last() =~= roots(g).take(k as int));
            take_out(&mut entries, &found[k]);
            sorted.push(found[k].clone());
            assert(names_of(sorted@) =~= names_of(before).push(roots(g)[k as int]));
            assert(names_of(sorted@) =~= names_of(taken) + roots(g).take(k + 1));
            k += 1;
        }
        proof {
            assert(roots(g).take(k as int) =~= roots(g));
            assert(names_of(taken) + (roots(g) + order(peel(g))) =~= (names_of(taken) + roots(g))
                + order(peel(g)));
        }
    }
    proof {
        assert(roots(entry_nodes(entries@)) =~= Seq::empty());
        assert(names_of(sorted@) =~= order(whole));
        law_order_lists_every_process_once(whole);
        law_dependencies_start_first(whole);
    }
    Ok(sorted)
}

/// The nodes that stand for the processes.
pub open spec fn nodes_of(procs: Seq<Process>) -> Seq<Node> {
    procs.map_values(|p: Process| p@)
}

/// An earlier process with dependencies has the name of process `j`.
pub open spec fn repeated(procs: Seq<Node>, j: int) -> bool {
    exists|i: int|
        0 <= i < j && (#[trigger] procs[i]).deps.len() > 0 && procs[i].name == procs[j].name
}

/// The processes that have dependencies.
pub open spec fn dependents(procs: Seq<Node>) -> Seq<Node>
    decreases procs.len(),
{
    if procs.len() == 0 {
        Seq::empty()
    } else if procs.last().deps.len() > 0 {
        dependents(procs.drop_last()).push(procs.last())
    } else {
        dependents(procs.drop_last())
    }
}

/// `name` is that of the first process which repeats the name of an earlier one with dependencies.
pub open spec fn first_repeated(procs: Seq<Node>, name: Seq<char>) -> bool {
    exists|j: int|
        0 <= j < procs.len() && #[trigger] repeated(procs, j) && procs[j].name == name && forall|
            k: int,
        |
            0 <= k < j ==> !#[trigger] repeated(procs, k)
}

proof fn lemma_dependents(procs: Seq<Node>)
    ensures
        forall|n: Node| #[trigger] dependents(procs).contains(n) ==> n.deps.len() > 0,
        forall|x: Seq<char>| #[trigger]
            lists(dependents(procs), x) <==> exists|i: int|
                0 <= i < procs.len() && (#[trigger] procs[i]).deps.len() > 0 && procs[i].name == x,
        dependents(procs).len() == 0 <==> forall|i: int|
            0 <= i < procs.len() ==> (#[trigger] procs[i]).deps.len() == 0,
    decreases procs.len(),
{
    if procs.len() > 0 {
        let rest = procs.drop_last();
        let d = dependents(procs);
        let e = dependents(rest);
        lemma_dependents(rest);
        assert forall|n: Node| #[trigger] d.contains(n) implies n.deps.len() > 0 by {
            let k = choose|k: int| 0 <= k < d.len() && d[k] == n;
            if k < e.len() {
                assert(e.contains(e[k]));
            }
        }
        assert forall|x: Seq<char>| #[trigger] lists(d, x) <==> exists|i: int|
            0 <= i < procs.len() && (#[trigger] procs[i]).deps.len() > 0 && procs[i].name == x by {
            if lists(d, x) {
                let k = choose|k: int| 0 <= k < d.len() && (#[trigger] d[k]).name == x;
                if k < e.len() {
                    assert(e[k].name == x);
                    assert(lists(e, x));
                    let i = choose|i: int|
                        0 <= i < rest.len() && (#[trigger] rest[i]).deps.len() > 0 && rest[i].name
                            == x;
                    assert(procs[i] == rest[i]);
                } else {
                    assert(procs[procs.len() - 1].name == x);
                }
            }
            if exists|i: int|
                0 <= i < procs.len() && (#[trigger] procs[i]).deps.len() > 0 && procs[i].name
                    == x {
                let i = choose|i: int|
                    0 <= i < procs.len() && (#[trigger] procs[i]).deps.len() > 0 && procs[i].name
                        == x;
                if i < procs.len() - 1 {
                    assert(rest[i] == procs[i]);
                    assert(lists(e, x));
                    let k = choose|k: int| 0 <= k < e.len() && (#[trigger] e[k]).name == x;
                    assert(d[k].name == x);
                } else {
                    assert(d[d.len() - 1].name == x);
                }
            }
        }
        if d.len() == 0 {
            assert forall|i: int| 0 <= i < procs.len() implies (#[trigger] procs[i]).deps.len()
                == 0 by {
                if i < procs.len() - 1 {
                    assert(rest[i] == procs[i]);
                }
            }
        } else if e.len() > 0 {
            let i = choose|i: int| 0 <= i < rest.len() && (#[trigger] rest[i]).deps.len() != 0;
            assert(procs[i] == rest[i]);
        } else {
            assert(procs[procs.len() - 1].deps.len() > 0);
        }
    }
}

/// A graph in which every process has dependencies has a start order only if it is empty.
proof fn lemma_all_dependent(g: Seq<Node>)
    requires
        distinct_names(g),
        forall|n: Node| #[trigger] g.contains(n) ==> n.deps.len() > 0,
    ensures
        sortable(g) <==> g.len() == 0,
        g.len() == 0 ==> order(g).len() == 0,
{
    lemma_roots(g);
    assert(roots(g).len() == 0) by {
        if roots(g).len() > 0 {
            assert(roots(g).contains(roots(g)[0]));
            let i = choose|i: int|
                0 <= i < g.len() && (#[trigger] g[i]).name == roots(g)[0] && g[i].deps.len() == 0;
            assert(g.contains(g[i]));
        }
    }
    lemma_residue(g);
}

/// The start order of configured processes. Only the processes that have dependencies are nodes of
/// the graph that is sorted, so a dependency on a process without any counts as missing, and only
/// processes without dependencies throughout have an order: the empty one.
pub fn topological_sort_processes(procs: Vec<Process>) -> (result: Result<Vec<String>, GraphError>)
    ensures
        result is Ok <==> forall|i: int|
            0 <= i < procs@.len() ==> (#[trigger] nodes_of(procs@)[i]).deps.len() == 0,
        match result {
            Ok(sorted) => sorted@.len() == 0,
            Err(GraphError::DuplicateProcess(name)) => first_repeated(nodes_of(procs@), name@),
            Err(GraphError::MissingDependency(name)) => {
                &&& forall|j: int| 0 <= j < procs@.len() ==> !#[trigger] repeated(nodes_of(procs@), j)
                &&& first_unresolved(dependents(nodes_of(procs@)), name@)
            },
            Err(GraphError::Cycle) => {
                &&& forall|j: int| 0 <= j < procs@.len() ==> !#[trigger] repeated(nodes_of(procs@), j)
                &&& closed(dependents(nodes_of(procs@)))
            },
        },
{
    let ghost nodes = nodes_of(procs@);
    let mut graph = ProcessGraph::new();
    let mut i: usize = 0;
    assert(nodes.take(0) =~= Seq::<Node>::empty());
    while i < procs.len()
        invariant
            i <= procs@.len(),
            nodes == nodes_of(procs@),
            graph@ == dependents(nodes.take(i as int)),
            forall|j: int| 0 <= j < i ==> !#[trigger] repeated(nodes, j),
        decreases procs@.len() - i,
    {
        proof {
            lemma_dependents(nodes.take(i as int));
            assert(nodes[i as int] == procs@[i as int]@);
            assert(nodes.take(i + 1).drop_last() =~= nodes.take(i as int));
            assert(lists(graph@, nodes[i as int].name) <==> repeated(nodes, i as int)) by {
                if lists(graph@, nodes[i as int].name) {
                    let k = choose|k: int|
                        0 <= k < nodes.take(i as int).len() && (#[trigger] nodes.take(
                            i as int,
                        )[k]).deps.len() > 0 && nodes.take(i as int)[k].name
                            == nodes[i as int].name;
                    assert(nodes[k].deps.len() > 0);
                }
                if repeated(nodes, i as int) {
                    let k = choose|k: int|
                        0 <= k < i && (#[trigger] nodes[k]).deps.len() > 0 && nodes[k].name
                            == nodes[i as int].name;
                    assert(nodes.take(i as int)[k] == nodes[k]);
                }
            }
        }
        if graph.contains_key(&procs[i].name) {
            proof {
                let k = choose|k: int|
                    0 <= k < i && (#[trigger] nodes[k]).deps.len() > 0 && nodes[k].name
                        == nodes[i as int].name;
                assert(nodes[k].deps.len() > 0);
            }
            return Err(GraphError::DuplicateProcess(procs[i].name.clone()));
        }
        if procs[i].deps.len() > 0 {
            let deps = procs[i].deps.clone();
            assert(names_of(deps@) =~= names_of(procs@[i as int].deps@));
            graph.insert(procs[i].name.clone(), deps);
        }
        i += 1;
    }
    proof {
        assert(nodes.take(i as int) =~= nodes);
        lemma_dependents(nodes);
        use_type_invariant(&graph);
        lemma_all_dependent(graph@);
    }
    topological_sort(&mut graph)
}

/// `name` is the first process with a dependency that is not in the graph.
pub open spec fn first_unresolved(g: Seq<Node>, name: Seq<char>) -> bool {
    exists|i: int|
        0 <= i < g.len() && (#[trigger] g[i]).name == name && !resolved(g, g[i]) && forall|k: int|
            0 <= k < i ==> resolved(g, #[trigger] g[k])
}

/// The views of strings, of entries and of processes show every field of each, in its place.
pub proof fn law_graph_views_show_every_field(
    strings: Seq<String>,
    entries: Seq<(String, Vec<String>)>,
    procs: Seq<Process>,
)
    ensures
        names_of(strings).len() == strings.len(),
        forall|k: int| 0 <= k < strings.len() ==> #[trigger] names_of(strings)[k] == strings[k]@,
        entry_nodes(entries).len() == entries.len(),
        forall|i: int|
            0 <= i < entries.len() ==> {
                let n = #[trigger] entry_nodes(entries)[i];
                &&& n.name == entries[i].0@
                &&& n.deps.len() == entries[i].1@.len()
                &&& forall|k: int|
                    0 <= k < n.deps.len() ==> #[trigger] n.deps[k] == entries[i].1@[k]@
            },
        nodes_of(procs).len() == procs.len(),
        forall|i: int|
            0 <= i < procs.len() ==> {
                let n = #[trigger] nodes_of(procs)[i];
                &&& n.name == procs[i].name@
                &&& n.deps.len() == procs[i].deps@.len()
                &&& forall|k: int|
                    0 <= k < n.deps.len() ==> #[trigger] n.deps[k] == procs[i].deps@[k]@
            },
{
}

/// The process that is named for a missing dependency has a dependency that is the name of no node,
/// and no process before it has one.
pub proof fn law_missing_dependency_is_named(g: Seq<Node>, name: Seq<char>)
    requires
        first_unresolved(g, name),
    ensures
        exists|i: int, d: Seq<char>|
            0 <= i < g.len() && g[i].name == name && #[trigger] g[i].deps.contains(d) && (forall|
                j: int,
            |
                0 <= j < g.len() ==> (#[trigger] g[j]).name != d) && forall|k: int, e: Seq<char>|
                0 <= k < i && #[trigger] g[k].deps.contains(e) ==> exists|j: int|
                    0 <= j < g.len() && (#[trigger] g[j]).name == e,
{
    let i = choose|i: int|
        0 <= i < g.len() && (#[trigger] g[i]).name == name && !resolved(g, g[i]) && forall|k: int|
            0 <= k < i ==> resolved(g, #[trigger] g[k]);
    let d = choose|d: Seq<char>| #[trigger] g[i].deps.contains(d) && !lists(g, d);
    assert forall|k: int, e: Seq<char>|
        0 <= k < i && #[trigger] g[k].deps.contains(e) implies exists|j: int|
        0 <= j < g.len() && (#[trigger] g[j]).name == e by {
        assert(resolved(g, g[k]));
    }
    assert(g[i].deps.contains(d));
}

/// The process that is named for a repeated name has the name of an earlier process with
/// dependencies, and no process before it has such a name.
pub proof fn law_repeated_process_is_named(procs: Seq<Node>, name: Seq<char>)
    requires
        first_repeated(procs, name),
    ensures
        exists|i: int, j: int|
            0 <= i < j < procs.len() && (#[trigger] procs[i]).name == name && (
            #[trigger] procs[j]).name == name && procs[i].deps.len() > 0 && forall|k: int, l: int|
                0 <= k < l < j && (#[trigger] procs[k]).name == (#[trigger] procs[l]).name
                    ==> procs[k].deps.len() == 0,
{
    let j = choose|j: int|
        0 <= j < procs.len() && #[trigger] repeated(procs, j) && procs[j].name == name && forall|
            k: int,
        |
            0 <= k < j ==> !#[trigger] repeated(procs, k);
    let i = choose|i: int|
        0 <= i < j && (#[trigger] procs[i]).deps.len() > 0 && procs[i].name == procs[j].name;
    assert forall|k: int, l: int|
        0 <= k < l < j && (#[trigger] procs[k]).name == (
        #[trigger] procs[l]).name implies procs[k].deps.len() == 0 by {
        assert(!repeated(procs, l));
    }
    assert(procs[i].name == name && procs[j].name == name);
}

/// The processes that have dependencies are all those of the given ones that have any, in their
/// order.
pub proof fn law_dependents_are_those_with_dependencies(procs: Seq<Node>)
    ensures
        dependents(procs) == procs.filter(|n: Node| n.deps.len() > 0),
    decreases procs.len(),
{
    reveal(Seq::filter);
    if procs.len() > 0 {
        law_dependents_are_those_with_dependencies(procs.drop_last());
    } else {
        assert(procs =~= Seq::<Node>::empty());
    }
}

/// The message of a missing dependency and that of a repeated process name the process.
pub proof fn law_graph_errors_name_the_process(name: String)
    ensures
        GraphError::MissingDependency(name).text() == "Process "@ + name@
            + " depends on another process which doesn't exist"@,
        GraphError::DuplicateProcess(name).text() == "Duplicate process named "@ + name@,
        GraphError::Cycle.text() == "Process graph contains a cycle"@,
{
}

} // verus!
