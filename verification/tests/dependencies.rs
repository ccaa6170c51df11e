use enclave_tools::deps::{DependencyResolver, ServiceDependencies};

#[test]
fn test_simple_order() {
    let mut resolver = DependencyResolver::new();

    let mut deps_a = ServiceDependencies::new();
    deps_a.before.push("b".to_string());
    resolver.add_service("a".to_string(), deps_a);

    resolver.add_service("b".to_string(), ServiceDependencies::new());

    let order = resolver.compute_startup_order().unwrap();
    let pos_a = order.iter().position(|x| x == "a").unwrap();
    let pos_b = order.iter().position(|x| x == "b").unwrap();

    assert!(pos_a < pos_b);
}

#[test]
fn test_requires() {
    let mut resolver = DependencyResolver::new();

    resolver.add_service("db".to_string(), ServiceDependencies::new());

    let mut deps_app = ServiceDependencies::new();
    deps_app.requires.push("db".to_string());
    resolver.add_service("app".to_string(), deps_app);

    let order = resolver.compute_startup_order().unwrap();
    let pos_db = order.iter().position(|x| x == "db").unwrap();
    let pos_app = order.iter().position(|x| x == "app").unwrap();

    assert!(pos_db < pos_app);
}

#[test]
fn test_circular_dependency() {
    let mut resolver = DependencyResolver::new();

    let mut deps_a = ServiceDependencies::new();
    deps_a.after.push("b".to_string());
    resolver.add_service("a".to_string(), deps_a);

    let mut deps_b = ServiceDependencies::new();
    deps_b.after.push("a".to_string());
    resolver.add_service("b".to_string(), deps_b);

    assert!(resolver.compute_startup_order().is_err());
}

#[test]
fn circular_dependency_message() {
    let mut resolver = DependencyResolver::new();
    let mut deps = ServiceDependencies::new();
    deps.after.push("a".to_string());
    resolver.add_service("a".to_string(), deps);
    assert_eq!(
        resolver.compute_startup_order().unwrap_err(),
        "Circular dependency detected in service definitions"
    );
}

#[test]
fn chain_of_three_is_ordered() {
    let mut resolver = DependencyResolver::new();
    let mut web = ServiceDependencies::new();
    web.after.push("app".to_string());
    resolver.add_service("web".to_string(), web);
    let mut app = ServiceDependencies::new();
    app.requires.push("db".to_string());
    resolver.add_service("app".to_string(), app);
    resolver.add_service("db".to_string(), ServiceDependencies::new());
    let order = resolver.compute_startup_order().unwrap();
    assert_eq!(order, vec!["db".to_string(), "app".to_string(), "web".to_string()]);
}

#[test]
fn missing_requirement_is_reported() {
    let mut resolver = DependencyResolver::new();
    let mut app = ServiceDependencies::new();
    app.requires.push("db".to_string());
    resolver.add_service("app".to_string(), app);
    assert_eq!(
        resolver.validate_dependencies().unwrap_err(),
        "Service 'app' requires 'db' which does not exist"
    );
    resolver.add_service("db".to_string(), ServiceDependencies::new());
    assert!(resolver.validate_dependencies().is_ok());
}

#[test]
fn re_adding_a_service_replaces_its_declarations() {
    let mut resolver = DependencyResolver::new();
    let mut a = ServiceDependencies::new();
    a.after.push("b".to_string());
    resolver.add_service("a".to_string(), a);
    let mut b = ServiceDependencies::new();
    b.after.push("a".to_string());
    resolver.add_service("b".to_string(), b);
    assert!(resolver.compute_startup_order().is_err());
    resolver.add_service("a".to_string(), ServiceDependencies::new());
    let order = resolver.compute_startup_order().unwrap();
    assert_eq!(order, vec!["a".to_string(), "b".to_string()]);
}

#[test]
fn self_reference_is_circular() {
    let mut resolver = DependencyResolver::new();
    let mut deps = ServiceDependencies::new();
    deps.after.push("a".to_string());
    resolver.add_service("a".to_string(), deps);
    resolver.add_service("b".to_string(), ServiceDependencies::new());
    assert_eq!(
        resolver.compute_startup_order(),
        Err("Circular dependency detected in service definitions".to_string())
    );
}

#[test]
fn acyclic_chain_is_ordered() {
    let mut resolver = DependencyResolver::new();
    let mut c = ServiceDependencies::new();
    c.after.push("b".to_string());
    resolver.add_service("c".to_string(), c);
    let mut b = ServiceDependencies::new();
    b.after.push("a".to_string());
    resolver.add_service("b".to_string(), b);
    resolver.add_service("a".to_string(), ServiceDependencies::new());
    assert_eq!(resolver.compute_startup_order(), Ok(vec!["a".to_string(), "b".to_string(), "c".to_string()]));
}
