use luck::graph::{find_cycle_path, find_require_span, make_relative, GraphBuilder, GraphError, GraphWarning, MAX_FILE_SIZE};
use luck::module::{Dependency, ModuleId, ModuleInfo};
use petgraph::graph::{DiGraph, NodeIndex};

fn module(path: &str) -> ModuleInfo {
    ModuleInfo {
        path: path.to_string(),
        source: String::new(),
        dependencies: vec![],
        relative_path: path.to_string(),
        dynamic_callees: vec![],
        exports: vec![],
    }
}

/// Builds a graph whose node `i` carries `ModuleId(i)`, matching
/// `modules[i]`, from `(from, to)` edges given as module indices.
fn build(paths: &[&str], edges: &[(usize, usize)]) -> (DiGraph<ModuleId, ()>, Vec<ModuleInfo>) {
    let modules: Vec<ModuleInfo> = paths.iter().map(|path| module(path)).collect();
    let mut graph: DiGraph<ModuleId, ()> = DiGraph::new();
    let nodes: Vec<NodeIndex> = (0..paths.len()).map(|i| graph.add_node(ModuleId(i))).collect();
    for &(from, to) in edges {
        graph.add_edge(nodes[from], nodes[to], ());
    }
    (graph, modules)
}

fn strings(items: &[&str]) -> Vec<String> {
    items.iter().map(|s| s.to_string()).collect()
}

#[test]
fn self_cycle_reports_module_twice() {
    let (graph, modules) = build(&["a.lua"], &[(0, 0)]);
    let cycle = find_cycle_path(&graph, &modules, 0);
    assert_eq!(cycle, vec!["a.lua".to_string(), "a.lua".to_string()]);
}

#[test]
fn two_module_cycle_reports_closed_loop() {
    let (graph, modules) = build(&["a.lua", "b.lua"], &[(0, 1), (1, 0)]);
    let cycle = find_cycle_path(&graph, &modules, 0);
    assert_eq!(cycle, vec!["a.lua".to_string(), "b.lua".to_string(), "a.lua".to_string()]);
}

#[test]
fn three_module_cycle_reports_ordered_path() {
    let (graph, modules) = build(&["a.lua", "b.lua", "c.lua"], &[(0, 1), (1, 2), (2, 0)]);
    let cycle = find_cycle_path(&graph, &modules, 0);
    assert_eq!(
        cycle,
        vec!["a.lua".to_string(), "b.lua".to_string(), "c.lua".to_string(), "a.lua".to_string()]
    );
}

#[test]
fn diamond_dependency_reports_no_cycle() {
    // a -> b, a -> c, b -> d, c -> d: a DAG with no back edge.
    let (graph, modules) = build(&["a.lua", "b.lua", "c.lua", "d.lua"], &[(0, 1), (0, 2), (1, 3), (2, 3)]);
    assert!(petgraph::algo::toposort(&graph, None).is_ok(), "diamond is acyclic");
    // With no cycle, the finder falls back to the lone start module.
    let cycle = find_cycle_path(&graph, &modules, 0);
    assert_eq!(cycle, vec!["a.lua".to_string()]);
}

#[test]
fn independent_cycles_report_the_one_reachable_from_start() {
    // Two disjoint 2-cycles; the search only explores from its start,
    // so it reports whichever cycle the start node belongs to.
    let (graph, modules) = build(&["a.lua", "b.lua", "c.lua", "d.lua"], &[(0, 1), (1, 0), (2, 3), (3, 2)]);
    let from_c = find_cycle_path(&graph, &modules, 2);
    assert_eq!(from_c, vec!["c.lua".to_string(), "d.lua".to_string(), "c.lua".to_string()]);
    let from_a = find_cycle_path(&graph, &modules, 0);
    assert_eq!(from_a, vec!["a.lua".to_string(), "b.lua".to_string(), "a.lua".to_string()]);
}

#[test]
fn cycle_behind_a_tail_starts_at_the_revisited_module() {
    // a -> b -> c -> b: the reported loop leaves out the tail `a`.
    let (graph, modules) = build(&["a.lua", "b.lua", "c.lua"], &[(0, 1), (1, 2), (2, 1)]);
    let cycle = find_cycle_path(&graph, &modules, 0);
    assert_eq!(cycle, strings(&["b.lua", "c.lua", "b.lua"]));
}

#[test]
fn make_relative_strips_the_project_directory() {
    assert_eq!(make_relative("/p/src/main.lua", "/p"), "src/main.lua");
    assert_eq!(make_relative("/p/src/main.lua", "/p/"), "src/main.lua");
    assert_eq!(make_relative("/other/main.lua", "/p"), "/other/main.lua");
    // A sibling directory sharing the prefix text is not inside it.
    assert_eq!(make_relative("/project/main.lua", "/p"), "/project/main.lua");
    assert_eq!(make_relative("", ""), "");
}

fn dependency(name: &str, resolved: &str, start: usize, end: usize) -> Dependency {
    Dependency { require_string: name.to_string(), resolved_path: resolved.to_string(), call_span: start..end }
}

#[test]
fn find_require_span_names_the_first_matching_require() {
    let mut a = module("a.lua");
    a.dependencies = vec![dependency("x", "x.lua", 0, 5), dependency("b", "b.lua", 10, 22), dependency("b2", "b.lua", 30, 40)];
    let modules = vec![a, module("b.lua")];
    assert_eq!(find_require_span(&modules, &"a.lua".to_string(), &"b.lua".to_string()), Some(10..22));
    assert_eq!(find_require_span(&modules, &"b.lua".to_string(), &"a.lua".to_string()), None);
    assert_eq!(find_require_span(&modules, &"zzz.lua".to_string(), &"b.lua".to_string()), None);
}

#[test]
fn builder_orders_dependencies_before_dependents() {
    let mut builder = GraphBuilder::new("/p".to_string());
    builder.queue_path("/p/main.lua".to_string());
    assert_eq!(builder.next_path(), Some("/p/main.lua".to_string()));
    builder.add_module(
        "local u = require(\"util\")\n".to_string(),
        vec![dependency("util", "/p/util.lua", 10, 25)],
        vec![],
        vec![],
    );
    assert_eq!(builder.next_path(), Some("/p/util.lua".to_string()));
    assert!(builder.check_size(10));
    builder.add_module("return 1\n".to_string(), vec![], vec![], vec![]);
    assert_eq!(builder.next_path(), None);
    let graph = match builder.finish(&"/p/main.lua".to_string()) {
        Ok(graph) => graph,
        Err(_) => panic!("graph builds"),
    };
    assert_eq!(graph.modules.len(), 2);
    assert_eq!(graph.modules[0].relative_path, "main.lua");
    assert_eq!(graph.modules[1].relative_path, "util.lua");
    assert_eq!(graph.entry_id, ModuleId(0));
    assert_eq!(graph.topo_order, vec![ModuleId(1), ModuleId(0)]);
    assert!(graph.warnings.is_empty());
}

#[test]
fn builder_skips_paths_already_discovered() {
    let mut builder = GraphBuilder::new("/p".to_string());
    builder.queue_path("/p/main.lua".to_string());
    assert_eq!(builder.next_path(), Some("/p/main.lua".to_string()));
    builder.add_module(
        String::new(),
        vec![dependency("a", "/p/a.lua", 0, 1), dependency("b", "/p/b.lua", 2, 3)],
        vec![],
        vec![],
    );
    // The last queued path is taken first.
    assert_eq!(builder.next_path(), Some("/p/b.lua".to_string()));
    builder.add_module(String::new(), vec![dependency("a", "/p/a.lua", 0, 1)], vec![], vec![]);
    assert_eq!(builder.next_path(), Some("/p/a.lua".to_string()));
    builder.add_module(String::new(), vec![], vec![], vec![]);
    assert_eq!(builder.next_path(), None);
    let graph = match builder.finish(&"/p/main.lua".to_string()) {
        Ok(graph) => graph,
        Err(_) => panic!("graph builds"),
    };
    let paths: Vec<&str> = graph.modules.iter().map(|m| m.path.as_str()).collect();
    assert_eq!(paths, vec!["/p/main.lua", "/p/b.lua", "/p/a.lua"]);
    assert_eq!(graph.topo_order, vec![ModuleId(2), ModuleId(1), ModuleId(0)]);
}

#[test]
fn builder_warns_on_a_cycle_and_keeps_discovery_order() {
    let mut builder = GraphBuilder::new("/p".to_string());
    builder.queue_path("/p/a.lua".to_string());
    assert_eq!(builder.next_path(), Some("/p/a.lua".to_string()));
    builder.add_module(String::new(), vec![dependency("b", "/p/b.lua", 3, 17)], vec![], vec![]);
    assert_eq!(builder.next_path(), Some("/p/b.lua".to_string()));
    builder.add_module(String::new(), vec![dependency("a", "/p/a.lua", 5, 19)], vec![], vec![]);
    assert_eq!(builder.next_path(), None);
    let graph = match builder.finish(&"/p/a.lua".to_string()) {
        Ok(graph) => graph,
        Err(_) => panic!("a cycle still bundles"),
    };
    assert_eq!(graph.topo_order, vec![ModuleId(0), ModuleId(1)]);
    assert_eq!(graph.warnings.len(), 1);
    let warning = match &graph.warnings[0] {
        GraphWarning::Cycle(warning) => warning,
        GraphWarning::Module { .. } => panic!("expected a cycle warning"),
    };
    assert_eq!(warning.cycle.len(), 3);
    assert_eq!(warning.cycle[0], warning.cycle[2]);
    assert_ne!(warning.cycle[0], warning.cycle[1]);
    // The warning points at the require that closes the loop.
    assert_eq!(warning.file_path, warning.cycle[1]);
    let expected_span = if warning.file_path == "/p/a.lua" { 3..17 } else { 5..19 };
    assert_eq!(warning.span, expected_span);
}

#[test]
fn builder_reports_a_missing_entry() {
    let mut builder = GraphBuilder::new("/p".to_string());
    builder.queue_path("/p/main.lua".to_string());
    assert_eq!(builder.next_path(), Some("/p/main.lua".to_string()));
    builder.add_module(String::new(), vec![], vec![], vec![]);
    assert_eq!(builder.next_path(), None);
    match builder.finish(&"/p/other.lua".to_string()) {
        Err(errors) => {
            assert_eq!(errors.len(), 1);
            assert!(matches!(&errors[0], GraphError::EntryNotFound { path } if path == "/p/other.lua"));
        },
        Ok(_) => panic!("entry is missing"),
    }
}

#[test]
fn builder_gives_up_oversized_files_and_reports_errors_first() {
    let mut builder = GraphBuilder::new("/p".to_string());
    builder.queue_path("/p/main.lua".to_string());
    assert_eq!(builder.next_path(), Some("/p/main.lua".to_string()));
    assert!(!builder.check_size(MAX_FILE_SIZE + 1));
    assert_eq!(builder.next_path(), None);
    match builder.finish(&"/p/main.lua".to_string()) {
        Err(errors) => {
            assert_eq!(errors.len(), 1);
            assert!(matches!(
                &errors[0],
                GraphError::FileTooLarge { path, size, limit }
                    if path == "/p/main.lua" && *size == MAX_FILE_SIZE + 1 && *limit == MAX_FILE_SIZE
            ));
        },
        Ok(_) => panic!("oversized entry fails"),
    }
}

#[test]
fn builder_keeps_reported_module_errors() {
    let mut builder = GraphBuilder::new("/p".to_string());
    builder.queue_path("/p/main.lua".to_string());
    assert_eq!(builder.next_path(), Some("/p/main.lua".to_string()));
    builder.report(GraphError::Module { path: "/p/main.lua".to_string(), span: 1..2, message: "bad".to_string() });
    builder.add_module(String::new(), vec![], vec![], vec![]);
    assert_eq!(builder.next_path(), None);
    match builder.finish(&"/p/main.lua".to_string()) {
        Err(errors) => {
            assert_eq!(errors.len(), 1);
            assert!(matches!(&errors[0], GraphError::Module { message, .. } if message == "bad"));
        },
        Ok(_) => panic!("reported errors fail the build"),
    }
}

fn two_module_graph() -> luck::graph::DependencyGraph {
    let mut builder = GraphBuilder::new("/p".to_string());
    builder.queue_path("/p/main.lua".to_string());
    assert_eq!(builder.next_path(), Some("/p/main.lua".to_string()));
    builder.add_module(String::new(), vec![dependency("util", "/p/util.lua", 10, 25)], vec![], vec![]);
    assert_eq!(builder.next_path(), Some("/p/util.lua".to_string()));
    builder.add_module(String::new(), vec![], vec![], vec![]);
    assert_eq!(builder.next_path(), None);
    match builder.finish(&"/p/main.lua".to_string()) {
        Ok(graph) => graph,
        Err(_) => panic!("graph builds"),
    }
}

#[test]
fn graph_dot_lists_one_edge_per_require() {
    let graph = two_module_graph();
    assert_eq!(
        luck::cli::graph_dot(&graph),
        "digraph dependencies {\n  \"/p/main.lua\" -> \"/p/util.lua\";\n}\n"
    );
}

#[test]
fn graph_summary_reports_entry_modules_and_order() {
    let graph = two_module_graph();
    let summary = luck::cli::graph_summary(&graph);
    assert_eq!(summary.entry, "/p/main.lua");
    assert_eq!(summary.order, strings(&["/p/util.lua", "/p/main.lua"]));
    assert_eq!(summary.modules.len(), 2);
    assert_eq!(summary.modules[0].path, "/p/main.lua");
    assert_eq!(summary.modules[0].requires, strings(&["util"]));
    assert_eq!(summary.modules[0].resolved_deps, strings(&["/p/util.lua"]));
    assert!(summary.modules[1].requires.is_empty());
}

#[test]
fn builder_keeps_module_warnings_before_the_cycle_warning() {
    let mut builder = GraphBuilder::new("/p".to_string());
    builder.queue_path("/p/a.lua".to_string());
    assert_eq!(builder.next_path(), Some("/p/a.lua".to_string()));
    builder.warn("/p/a.lua".to_string(), 4..9, "duplicate require".to_string());
    builder.add_module(String::new(), vec![dependency("b", "/p/b.lua", 3, 17)], vec![], vec![]);
    assert_eq!(builder.next_path(), Some("/p/b.lua".to_string()));
    builder.add_module(String::new(), vec![dependency("a", "/p/a.lua", 5, 19)], vec![], vec![]);
    assert_eq!(builder.next_path(), None);
    let graph = match builder.finish(&"/p/a.lua".to_string()) {
        Ok(graph) => graph,
        Err(_) => panic!("a cycle still bundles"),
    };
    assert_eq!(graph.warnings.len(), 2);
    assert!(matches!(
        &graph.warnings[0],
        GraphWarning::Module { path, span, message }
            if path == "/p/a.lua" && *span == (4..9) && message == "duplicate require"
    ));
    assert!(matches!(&graph.warnings[1], GraphWarning::Cycle(_)));
}

#[test]
fn builder_passes_module_warnings_through_an_acyclic_graph() {
    let mut builder = GraphBuilder::new("/p".to_string());
    builder.queue_path("/p/main.lua".to_string());
    assert_eq!(builder.next_path(), Some("/p/main.lua".to_string()));
    builder.warn("/p/main.lua".to_string(), 0..3, "shadowed require".to_string());
    builder.add_module(String::new(), vec![], vec![], vec![]);
    assert_eq!(builder.next_path(), None);
    let graph = match builder.finish(&"/p/main.lua".to_string()) {
        Ok(graph) => graph,
        Err(_) => panic!("graph builds"),
    };
    assert_eq!(graph.warnings.len(), 1);
    assert!(matches!(&graph.warnings[0], GraphWarning::Module { message, .. } if message == "shadowed require"));
}

#[test]
fn emitted_paths_stay_project_relative() {
    let main = "local util = require(\"util\")\nreturn util.value\n";
    let call = "require(\"util\")";
    let start = main.find(call).expect("call present");
    let mut builder = GraphBuilder::new("/home/user/project".to_string());
    builder.queue_path("/home/user/project/src/main.lua".to_string());
    assert_eq!(builder.next_path(), Some("/home/user/project/src/main.lua".to_string()));
    builder.add_module(
        main.to_string(),
        vec![dependency("util", "/home/user/project/shared/util.lua", start, start + call.len())],
        vec![],
        vec![],
    );
    assert_eq!(builder.next_path(), Some("/home/user/project/shared/util.lua".to_string()));
    builder.add_module("return { value = 1 }\n".to_string(), vec![], vec![], vec![]);
    assert_eq!(builder.next_path(), None);
    let graph = match builder.finish(&"/home/user/project/src/main.lua".to_string()) {
        Ok(graph) => graph,
        Err(_) => panic!("graph builds"),
    };
    let output = luck::bundle::emit(&graph, luck::version::LuaVersion::Lua54);
    assert!(!output.contains("/home/user"), "absolute path leaked into the bundle:\n{output}");
    assert!(output.contains("shared/util.lua"), "{output}");
}
