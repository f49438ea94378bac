use healthcheck_service::dependency::{status_priority, DependencyGraph};
use healthcheck_service::models::{DependencyNode, ServiceStatus};

fn setup_graph() -> DependencyGraph {
    let mut graph = DependencyGraph::new();
    graph.add_service("a".to_string(), vec!["b".to_string(), "c".to_string()]);
    graph.add_service("b".to_string(), vec!["d".to_string()]);
    graph.add_service("c".to_string(), vec!["d".to_string()]);
    graph.add_service("d".to_string(), vec![]);
    graph
}

#[test]
fn test_build_tree() {
    let graph = setup_graph();
    let tree = graph.build_tree("a");

    assert_eq!(tree.name, "a");
    assert_eq!(tree.dependencies.len(), 2);
    assert_eq!(tree.dependencies[0].name, "b");
    assert_eq!(tree.dependencies[1].name, "c");
    assert_eq!(tree.dependencies[0].dependencies.len(), 1);
    assert_eq!(tree.dependencies[0].dependencies[0].name, "d");
}

#[test]
fn test_build_tree_handles_cycles() {
    let mut graph = DependencyGraph::new();
    graph.add_service("a".to_string(), vec!["b".to_string()]);
    graph.add_service("b".to_string(), vec!["a".to_string()]);

    let tree = graph.build_tree("a");
    assert_eq!(tree.name, "a");
    assert_eq!(tree.dependencies.len(), 1);
    assert_eq!(tree.dependencies[0].name, "b");
    assert_eq!(tree.dependencies[0].dependencies.len(), 1);
    assert_eq!(tree.dependencies[0].dependencies[0].name, "a");
    assert_eq!(
        tree.dependencies[0].dependencies[0].dependencies.len(),
        0
    );
}

#[test]
fn test_find_root_causes() {
    let mut graph = setup_graph();
    graph.update_status("a", ServiceStatus::Unhealthy);
    graph.update_status("b", ServiceStatus::Unhealthy);
    graph.update_status("c", ServiceStatus::Healthy);
    graph.update_status("d", ServiceStatus::Unhealthy);

    let causes = graph.find_root_causes();
    assert!(!causes.is_empty());
    assert_eq!(causes[0].service, "d");
    assert_eq!(causes[0].depth, 3);
}

#[test]
fn test_find_root_causes_healthy_services_not_included() {
    let mut graph = setup_graph();
    graph.update_status("a", ServiceStatus::Healthy);
    graph.update_status("b", ServiceStatus::Healthy);
    graph.update_status("c", ServiceStatus::Healthy);
    graph.update_status("d", ServiceStatus::Healthy);

    let causes = graph.find_root_causes();
    assert!(causes.is_empty());
}

#[test]
fn test_all_trees() {
    let mut graph = DependencyGraph::new();
    graph.add_service("root1".to_string(), vec!["child".to_string()]);
    graph.add_service("root2".to_string(), vec![]);
    graph.add_service("child".to_string(), vec![]);

    let trees = graph.all_trees();
    assert_eq!(trees.len(), 2);

    let names: Vec<_> = trees.iter().map(|t| t.name.as_str()).collect();
    assert!(names.contains(&"root1"));
    assert!(names.contains(&"root2"));
}

#[test]
fn test_is_root_cause() {
    let mut graph = setup_graph();
    graph.update_status("a", ServiceStatus::Unhealthy);
    graph.update_status("b", ServiceStatus::Unhealthy);
    graph.update_status("c", ServiceStatus::Healthy);
    graph.update_status("d", ServiceStatus::Unhealthy);

    assert!(!graph.is_root_cause("a"));
    assert!(!graph.is_root_cause("b"));
    assert!(graph.is_root_cause("d"));
}

#[test]
fn test_find_roots() {
    let graph = setup_graph();
    let roots = graph.find_roots();
    assert_eq!(roots.len(), 1);
    assert_eq!(roots[0], "a");
}

fn collect_names(node: &DependencyNode, names: &mut Vec<String>) {
    names.push(node.name.clone());
    for child in &node.dependencies {
        collect_names(child, names);
    }
}

#[test]
fn a_tree_opens_each_service_once() {
    let graph = setup_graph();
    let tree = graph.build_tree("a");
    assert_eq!(tree.dependencies[1].dependencies.len(), 1);
    let mut names = Vec::new();
    collect_names(&tree, &mut names);
    assert_eq!(names, vec!["a", "b", "d", "c", "d"]);

    let mut chain = DependencyGraph::new();
    chain.add_service("a".to_string(), vec!["b".to_string(), "b".to_string()]);
    chain.add_service("b".to_string(), vec!["c".to_string()]);
    let tree = chain.build_tree("a");
    assert_eq!(tree.dependencies[0].dependencies.len(), 1);
    assert_eq!(tree.dependencies[1].dependencies.len(), 0);
}

#[test]
fn a_tree_tells_every_status() {
    let mut graph = setup_graph();
    graph.update_status("b", ServiceStatus::Degraded);
    let tree = graph.build_tree("a");
    assert_eq!(tree.status, ServiceStatus::Unknown);
    assert_eq!(tree.dependencies[0].status, ServiceStatus::Degraded);
    assert_eq!(graph.get_status("b"), ServiceStatus::Degraded);
    assert_eq!(graph.get_status("nowhere"), ServiceStatus::Unknown);
}

#[test]
fn an_unregistered_service_is_a_leaf() {
    let graph = DependencyGraph::new();
    let tree = graph.build_tree("alone");
    assert_eq!(tree.name, "alone");
    assert!(tree.dependencies.is_empty());
    assert!(graph.all_trees().is_empty());
    assert!(DependencyGraph::default().find_roots().is_empty());
}

#[test]
fn a_circle_has_no_root_and_no_depth() {
    let mut graph = DependencyGraph::new();
    graph.add_service("a".to_string(), vec!["b".to_string()]);
    graph.add_service("b".to_string(), vec!["a".to_string()]);
    graph.update_status("a", ServiceStatus::Unhealthy);
    assert!(graph.find_roots().is_empty());
    let causes = graph.find_root_causes();
    assert_eq!(causes.len(), 1);
    assert_eq!(causes[0].service, "a");
    assert_eq!(causes[0].depth, 0);

    graph.update_status("b", ServiceStatus::Unhealthy);
    assert!(graph.find_root_causes().is_empty());
}

#[test]
fn deeper_causes_come_first_then_worse_ones() {
    let mut graph = DependencyGraph::new();
    graph.add_service("top".to_string(), vec!["x".to_string(), "y".to_string()]);
    graph.add_service("x".to_string(), vec![]);
    graph.add_service("y".to_string(), vec!["z".to_string()]);
    graph.add_service("z".to_string(), vec![]);
    graph.add_service("single".to_string(), vec![]);
    graph.update_status("x", ServiceStatus::Degraded);
    graph.update_status("z", ServiceStatus::Degraded);
    graph.update_status("single", ServiceStatus::Degraded);
    graph.update_status("stray", ServiceStatus::Unhealthy);
    let causes = graph.find_root_causes();
    let listed: Vec<(&str, usize, ServiceStatus)> =
        causes.iter().map(|c| (c.service.as_str(), c.depth, c.status)).collect();
    assert_eq!(
        listed,
        vec![
            ("z", 3, ServiceStatus::Degraded),
            ("x", 2, ServiceStatus::Degraded),
            ("single", 1, ServiceStatus::Degraded),
            ("stray", 0, ServiceStatus::Unhealthy),
        ]
    );

    graph.add_service("other".to_string(), vec![]);
    graph.update_status("other", ServiceStatus::Unhealthy);
    let causes = graph.find_root_causes();
    assert_eq!(causes[2].service, "other");
    assert_eq!(causes[3].service, "single");
}

#[test]
fn the_depth_is_the_deepest_over_all_roots() {
    let mut graph = DependencyGraph::new();
    graph.add_service("r1".to_string(), vec!["leaf".to_string()]);
    graph.add_service("r2".to_string(), vec!["mid".to_string()]);
    graph.add_service("mid".to_string(), vec!["leaf".to_string()]);
    graph.add_service("leaf".to_string(), vec![]);
    graph.update_status("leaf", ServiceStatus::Unhealthy);
    assert_eq!(graph.find_root_causes()[0].depth, 3);
}

#[test]
fn worse_statuses_have_a_higher_priority() {
    assert_eq!(status_priority(ServiceStatus::Unhealthy), 3);
    assert_eq!(status_priority(ServiceStatus::Degraded), 2);
    assert_eq!(status_priority(ServiceStatus::Unknown), 1);
    assert_eq!(status_priority(ServiceStatus::Healthy), 0);
}

fn count_places(node: &DependencyNode) -> usize {
    1 + node.dependencies.iter().map(count_places).sum::<usize>()
}

#[test]
fn a_tree_has_a_place_for_each_dependency() {
    let graph = setup_graph();
    assert_eq!(count_places(&graph.build_tree("a")), 1 + 4);
    assert_eq!(count_places(&graph.build_tree("d")), 1);

    let mut circle = DependencyGraph::new();
    circle.add_service("a".to_string(), vec!["b".to_string(), "a".to_string()]);
    circle.add_service("b".to_string(), vec!["a".to_string(), "x".to_string()]);
    assert_eq!(count_places(&circle.build_tree("a")), 1 + 4);
}

#[test]
fn a_service_keeps_the_depth_of_the_first_visit() {
    let mut graph = DependencyGraph::new();
    graph.add_service("a".to_string(), vec!["d".to_string(), "b".to_string()]);
    graph.add_service("b".to_string(), vec!["d".to_string()]);
    graph.add_service("d".to_string(), vec![]);
    graph.update_status("d", ServiceStatus::Unhealthy);
    assert_eq!(graph.find_root_causes()[0].depth, 2);
}

#[test]
fn copies_of_trees_and_causes_say_the_same() {
    let mut graph = setup_graph();
    graph.update_status("d", ServiceStatus::Unhealthy);
    let tree = graph.build_tree("a");
    assert_eq!(format!("{:?}", tree.clone()), format!("{:?}", tree));
    let cause = graph.find_root_causes()[0].clone();
    assert_eq!((cause.service.as_str(), cause.depth), ("d", 3));
    assert_eq!(cause.status, ServiceStatus::Unhealthy);
}
