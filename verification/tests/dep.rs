use chromist::dep::topological_sort;
use chromist::pdl::Domain;

fn domain(name: &str, deps: &[&str]) -> Domain {
    Domain {
        name: name.to_string(),
        description: None,
        experimental: false,
        deprecated: false,
        dependencies: deps.iter().map(|s| s.to_string()).collect(),
        types: vec![],
        commands: vec![],
        events: vec![],
    }
}

fn names(domains: &[Domain]) -> Vec<&str> {
    domains.iter().map(|d| d.name.as_str()).collect()
}

#[test]
fn no_deps_preserves_order() {
    let mut domains = vec![domain("A", &[]), domain("B", &[]), domain("C", &[])];
    topological_sort(&mut domains);
    assert_eq!(names(&domains), ["A", "B", "C"]);
}

#[test]
fn simple_chain() {
    let mut domains = vec![domain("C", &["B"]), domain("B", &["A"]), domain("A", &[])];
    topological_sort(&mut domains);
    let order = names(&domains);
    let pos = |n: &str| order.iter().position(|&x| x == n).unwrap();
    assert!(pos("A") < pos("B"));
    assert!(pos("B") < pos("C"));
}

#[test]
fn diamond_dependency() {
    let mut domains = vec![
        domain("D", &["B", "C"]),
        domain("B", &["A"]),
        domain("C", &["A"]),
        domain("A", &[]),
    ];
    topological_sort(&mut domains);
    let order = names(&domains);
    let pos = |n: &str| order.iter().position(|&x| x == n).unwrap();
    assert!(pos("A") < pos("B"));
    assert!(pos("A") < pos("C"));
    assert!(pos("B") < pos("D"));
    assert!(pos("C") < pos("D"));
}

#[test]
fn circular_dependency_does_not_panic() {
    let mut domains = vec![domain("A", &["B"]), domain("B", &["A"])];
    topological_sort(&mut domains);
    assert_eq!(domains.len(), 2);
    let order = names(&domains);
    assert!(order.contains(&"A") && order.contains(&"B"));
}

#[test]
fn missing_dependency_does_not_panic() {
    let mut domains = vec![domain("A", &["Ghost"]), domain("B", &[])];
    topological_sort(&mut domains);
    assert_eq!(domains.len(), 2);
}

#[test]
fn empty_input() {
    let mut domains: Vec<Domain> = vec![];
    topological_sort(&mut domains);
    assert!(domains.is_empty());
}

#[test]
fn single_domain() {
    let mut domains = vec![domain("Lone", &[])];
    topological_sort(&mut domains);
    assert_eq!(names(&domains), ["Lone"]);
}

#[test]
fn cycle_members_follow_the_rest_in_input_order() {
    let mut domains = vec![domain("X", &["Y"]), domain("Root", &[]), domain("Y", &["X"]), domain("Leaf", &["Root"])];
    topological_sort(&mut domains);
    assert_eq!(names(&domains), ["Root", "Leaf", "X", "Y"]);
}

#[test]
fn roots_come_first_in_input_order() {
    let mut domains = vec![domain("Late", &["Second"]), domain("First", &[]), domain("Second", &[])];
    topological_sort(&mut domains);
    assert_eq!(names(&domains), ["First", "Second", "Late"]);
}

#[test]
fn missing_dependency_goes_to_the_end() {
    let mut domains = vec![domain("A", &["Ghost"]), domain("B", &[]), domain("C", &["A"]), domain("D", &["B"])];
    topological_sort(&mut domains);
    let names: Vec<&str> = domains.iter().map(|d| d.name.as_str()).collect();
    assert_eq!(names, ["B", "D", "A", "C"]);
}

#[test]
fn dependents_follow_in_the_order_they_were_queued() {
    let mut domains = vec![
        domain("A", &["C"]),
        domain("B", &["C"]),
        domain("C", &[]),
        domain("D", &["B"]),
        domain("E", &["A"]),
    ];
    topological_sort(&mut domains);
    assert_eq!(names(&domains), ["C", "A", "B", "E", "D"]);
}

#[test]
fn a_missing_dependency_alone_goes_last() {
    let mut domains = vec![domain("A", &["Ghost"]), domain("B", &[])];
    topological_sort(&mut domains);
    assert_eq!(names(&domains), ["B", "A"]);
}
