use rustedflask::flask::{App, Dispatch};

#[test]
fn test_app_routes() {
    let mut app = App::new("example".to_string());
    assert_eq!(app.name, "example".to_string());
    app.route("/");
    app.route("/template");
    assert_eq!(app.find_route_for_path("/"), Some(0));
    assert_eq!(app.find_route_for_path("/template"), Some(1));
    assert_eq!(app.find_route_for_path("/missing"), None);
}

#[test]
fn test_dispatch_get_route() {
    let mut app = App::new("example".to_string());
    app.route("/");
    assert!(matches!(app.dispatch("/", "GET"), Dispatch::Handler(0)));
    assert!(matches!(app.dispatch("/", "POST"), Dispatch::MethodNotAllowedDefault));
    assert!(matches!(app.dispatch("/other", "GET"), Dispatch::NotFoundDefault));
}

#[test]
fn test_dispatch_allowed_methods() {
    let mut app = App::new("example".to_string());
    app.route_with_allowed_methods("/postonly", vec!["POST".to_string()]);
    assert!(matches!(app.dispatch("/postonly", "POST"), Dispatch::Handler(0)));
    assert!(matches!(
        app.dispatch("/postonly", "GET"),
        Dispatch::MethodNotAllowedDefault
    ));
}

#[test]
fn test_dispatch_fallback_routes() {
    let mut app = App::new("example".to_string());
    app.route("/");
    app.route("!404");
    app.route_with_allowed_methods("!405", vec!["GET".to_string(), "POST".to_string()]);
    assert!(matches!(app.dispatch("/nowhere", "GET"), Dispatch::NotFoundHandler(1)));
    assert!(matches!(
        app.dispatch("/", "PUT"),
        Dispatch::MethodNotAllowedHandler(2)
    ));
}

#[test]
fn test_first_route_wins() {
    let mut app = App::new("example".to_string());
    app.route("/a");
    app.route("/a");
    assert!(matches!(app.dispatch("/a", "GET"), Dispatch::Handler(0)));
}
