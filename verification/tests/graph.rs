use cardamon::config::Process;
use cardamon::graph::{GraphError, ProcessGraph};
use cardamon::{topological_sort, topological_sort_processes};

fn strings(names: &[&str]) -> Vec<String> {
    names.iter().map(|n| n.to_string()).collect()
}

fn graph_of(nodes: &[(&str, &[&str])]) -> ProcessGraph {
    let mut graph = ProcessGraph::new();
    for (name, deps) in nodes {
        graph.insert(name.to_string(), strings(deps));
    }
    graph
}

fn process(name: &str, deps: &[&str]) -> Process {
    Process {
        name: name.to_string(),
        up: format!("./{}", name),
        deps: strings(deps),
    }
}

#[test]
pub fn topological_sort_works() -> Result<(), GraphError> {
    let mut graph = ProcessGraph::new();
    graph.insert("A".to_string(), vec!["B".to_string(), "C".to_string()]);
    graph.insert("B".to_string(), vec!["C".to_string()]);
    graph.insert("C".to_string(), vec![]);

    let sorted = topological_sort(&mut graph)?;
    assert_eq!(
        sorted,
        vec!["C".to_string(), "B".to_string(), "A".to_string()]
    );

    let mut graph = ProcessGraph::new();
    graph.insert("A".to_string(), vec!["B".to_string()]);
    graph.insert("B".to_string(), vec!["C".to_string()]);
    graph.insert("C".to_string(), vec!["B".to_string()]);

    let sorted = topological_sort(&mut graph);
    assert!(sorted.is_err());

    let mut graph = ProcessGraph::new();
    graph.insert("A".to_string(), vec!["B".to_string(), "C".to_string()]);
    graph.insert("B".to_string(), vec![]);
    graph.insert("C".to_string(), vec!["D".to_string(), "E".to_string()]);
    graph.insert("D".to_string(), vec!["F".to_string()]);
    graph.insert("E".to_string(), vec![]);
    graph.insert("F".to_string(), vec![]);

    let mut sorted = topological_sort(&mut graph)?;
    let (first, last) = sorted.split_at_mut(3);
    first.sort();
    assert_eq!(first, ["B".to_string(), "E".to_string(), "F".to_string()]);
    assert_eq!(last, ["D".to_string(), "C".to_string(), "A".to_string()]);

    Ok(())
}

#[test]
fn empty_graph_has_empty_order() {
    let mut graph = ProcessGraph::new();
    assert!(graph.is_empty());
    assert_eq!(topological_sort(&mut graph).unwrap(), strings(&[]));
    assert!(graph.is_empty());
}

#[test]
fn every_process_comes_once_and_after_its_dependencies() {
    let nodes: &[(&str, &[&str])] = &[
        ("web", &["api", "cache"]),
        ("api", &["db", "cache"]),
        ("db", &[]),
        ("cache", &[]),
        ("cron", &["db"]),
    ];
    let mut graph = graph_of(nodes);
    let sorted = topological_sort(&mut graph).unwrap();
    assert_eq!(sorted.len(), nodes.len());
    for (name, deps) in nodes {
        let at = sorted.iter().position(|n| n == name).unwrap();
        for dep in deps.iter() {
            assert!(sorted.iter().position(|n| n == dep).unwrap() < at);
        }
    }
    assert!(graph.is_empty());
}

#[test]
fn equal_depth_goes_by_insertion() {
    let mut graph = graph_of(&[
        ("z", &["m"]),
        ("m", &[]),
        ("a", &["b"]),
        ("b", &[]),
        ("k", &[]),
    ]);
    assert_eq!(
        topological_sort(&mut graph).unwrap(),
        strings(&["m", "b", "k", "z", "a"])
    );
}

#[test]
fn missing_dependency_is_named_and_graph_stays() {
    let mut graph = graph_of(&[("A", &["B"]), ("B", &["X"]), ("C", &["Y"])]);
    let error = topological_sort(&mut graph).unwrap_err();
    assert!(matches!(&error, GraphError::MissingDependency(name) if name == "B"));
    assert_eq!(
        error.message(),
        "Process B depends on another process which doesn't exist"
    );
    assert_eq!(
        graph.into_entries(),
        vec![
            ("A".to_string(), strings(&["B"])),
            ("B".to_string(), strings(&["X"])),
            ("C".to_string(), strings(&["Y"])),
        ]
    );
}

#[test]
fn missing_dependency_comes_before_cycle() {
    let mut graph = graph_of(&[("A", &["A"]), ("B", &["X"])]);
    assert!(matches!(
        topological_sort(&mut graph),
        Err(GraphError::MissingDependency(_))
    ));
}

#[test]
fn cycle_leaves_what_cannot_start() {
    let mut graph = graph_of(&[("A", &["B"]), ("B", &["C", "D"]), ("C", &["B"]), ("D", &[])]);
    let error = topological_sort(&mut graph).unwrap_err();
    assert!(matches!(error, GraphError::Cycle));
    assert_eq!(error.message(), "Process graph contains a cycle");
    assert!(graph.contains_key(&"C".to_string()));
    assert!(!graph.contains_key(&"D".to_string()));
    assert_eq!(
        graph.into_entries(),
        vec![
            ("A".to_string(), strings(&["B"])),
            ("B".to_string(), strings(&["C"])),
            ("C".to_string(), strings(&["B"])),
        ]
    );
}

#[test]
fn process_that_depends_on_itself_is_a_cycle() {
    let mut graph = graph_of(&[("A", &["A"])]);
    assert!(matches!(topological_sort(&mut graph), Err(GraphError::Cycle)));
}

#[test]
fn dependency_named_twice_counts_as_cycle() {
    let mut graph = graph_of(&[("A", &["B", "B"]), ("B", &[])]);
    assert!(matches!(topological_sort(&mut graph), Err(GraphError::Cycle)));
    assert_eq!(graph.into_entries(), vec![("A".to_string(), strings(&["B"]))]);
}

#[test]
fn insert_replaces_dependencies_in_place() {
    let mut graph = graph_of(&[("A", &["B"]), ("B", &[]), ("A", &[])]);
    assert_eq!(
        topological_sort(&mut graph).unwrap(),
        strings(&["A", "B"])
    );
}

#[test]
fn processes_without_dependencies_have_the_empty_order() {
    let procs = vec![process("A", &[]), process("B", &[]), process("A", &[])];
    assert_eq!(topological_sort_processes(procs).unwrap(), strings(&[]));
    assert_eq!(topological_sort_processes(vec![]).unwrap(), strings(&[]));
}

#[test]
fn dependency_on_process_without_any_counts_as_missing() {
    let procs = vec![process("A", &["B"]), process("B", &[])];
    let error = topological_sort_processes(procs).unwrap_err();
    assert!(matches!(&error, GraphError::MissingDependency(name) if name == "A"));
}

#[test]
fn duplicate_process_is_named() {
    let procs = vec![process("A", &["B"]), process("B", &["A"]), process("A", &[])];
    let error = topological_sort_processes(procs).unwrap_err();
    assert!(matches!(&error, GraphError::DuplicateProcess(name) if name == "A"));
    assert_eq!(error.message(), "Duplicate process named A");
}

#[test]
fn earlier_process_without_dependencies_is_no_duplicate() {
    let procs = vec![process("A", &[]), process("A", &["A"])];
    assert!(matches!(
        topological_sort_processes(procs),
        Err(GraphError::Cycle)
    ));
}

#[test]
fn what_cannot_start_keeps_its_order_and_what_it_waits_for() {
    let mut graph = graph_of(&[
        ("free", &["base"]),
        ("top", &["free", "Y", "base", "A"]),
        ("X", &["Y", "base"]),
        ("base", &[]),
        ("Y", &["base", "X"]),
        ("A", &["free", "A"]),
    ]);
    assert!(matches!(topological_sort(&mut graph), Err(GraphError::Cycle)));
    assert_eq!(
        graph.into_entries(),
        vec![
            ("top".to_string(), strings(&["Y", "A"])),
            ("X".to_string(), strings(&["Y"])),
            ("Y".to_string(), strings(&["X"])),
            ("A".to_string(), strings(&["A"])),
        ]
    );
}
