use httpcore::method::Method;
use httpcore::routes::{RouteBuilder, Routes};

#[test]
fn method_from_str_normalizes_case() {
    assert_eq!(Method::from_str("get"), Method::GET);
    assert_eq!(Method::from_str("GeT"), Method::GET);
    assert_eq!(Method::from_str("POST"), Method::POST);
    assert_eq!(Method::from_str("put"), Method::PUT);
    assert_eq!(Method::from_str("Patch"), Method::PATCH);
    assert_eq!(Method::from_str("delete"), Method::DELETE);
    assert_eq!(Method::from_str("BREW"), Method::Custom("BREW".to_string()));
}

#[test]
fn custom_method_keeps_original_case() {
    let m = Method::from_str("brew");
    assert_eq!(m, Method::Custom("brew".to_string()));
    assert_ne!(m, Method::Custom("BREW".to_string()));
}

#[test]
fn find_exact_match() {
    let mut routes: Routes<u32> = Routes::new();
    routes.define("GET", "/", 1);
    routes.define("GET", "/about", 2);
    assert_eq!(routes.find("GET", "/"), Some(1));
    assert_eq!(routes.find("GET", "/about"), Some(2));
}

#[test]
fn last_write_wins() {
    let mut routes: Routes<u32> = Routes::new();
    routes.define("GET", "/", 1);
    routes.define("GET", "/", 2);
    assert_eq!(routes.find("GET", "/"), Some(2));
    routes.define("get", "/", 3);
    assert_eq!(routes.find("GET", "/"), Some(3));
}

#[test]
fn wildcard_catches_unregistered_paths() {
    let mut routes: Routes<u32> = Routes::new();
    routes.define("POST", "*", 7);
    assert_eq!(routes.find("POST", "/nowhere"), Some(7));
    assert_eq!(routes.find("POST", "/elsewhere"), Some(7));
}

#[test]
fn no_matching_entry_yields_none() {
    let routes: Routes<u32> = Routes::new();
    assert_eq!(routes.find("GET", "/"), None);

    let mut routes: Routes<u32> = Routes::new();
    routes.define("POST", "/only", 5);
    assert_eq!(routes.find("DELETE", "/x"), None);
}

#[test]
fn registered_method_without_wildcard_does_not_fall_to_get() {
    // once a method has any entry, a miss under it stops there
    let mut routes: Routes<u32> = Routes::new();
    routes.define("POST", "/only", 5);
    routes.define("GET", "*", 9);
    assert_eq!(routes.find("POST", "/other"), None);
}

#[test]
fn exact_beats_wildcard_scenario() {
    let mut routes: Routes<u32> = Routes::new();
    routes.define("GET", "/", 1);
    routes.define("GET", "*", 2);
    assert_eq!(routes.find("GET", "/missing"), Some(2));
    assert_eq!(routes.find("GET", "/"), Some(1));
}

#[test]
fn unregistered_method_falls_to_get_wildcard_scenario() {
    let mut routes: Routes<u32> = Routes::new();
    routes.define("GET", "*", 2);
    assert_eq!(routes.find("POST", "/anything"), Some(2));
}

#[test]
fn methods_are_case_insensitive_keys() {
    let mut routes: Routes<u32> = Routes::new();
    routes.define("get", "/a", 3);
    assert_eq!(routes.find("GET", "/a"), Some(3));
    assert_eq!(routes.find("gEt", "/a"), Some(3));
}

#[test]
fn custom_methods_route_case_sensitively() {
    let mut routes: Routes<u32> = Routes::new();
    routes.define("BREW", "/pot", 4);
    assert_eq!(routes.find("BREW", "/pot"), Some(4));
    // a custom method keeps its case, so a differently-cased token
    // names a different method with no entries, and GET has none either
    assert_eq!(routes.find("brew", "/pot"), None);
}

#[test]
fn wildcard_path_is_found_exactly_too() {
    let mut routes: Routes<u32> = Routes::new();
    routes.define("GET", "*", 8);
    assert_eq!(routes.find("GET", "*"), Some(8));
}

#[test]
fn configure_builds_routes() {
    let mut routes: Routes<u32> = Routes::new();
    routes.configure(|b| b.def("GET", "/log", 1).def("GET", "/events", 2).def("GET", "*", 3));
    assert_eq!(routes.find("GET", "/log"), Some(1));
    assert_eq!(routes.find("GET", "/events"), Some(2));
    assert_eq!(routes.find("GET", "/other"), Some(3));
}

#[test]
fn builder_new_wraps_routes() {
    let mut routes: Routes<u32> = Routes::new();
    routes.define("GET", "/", 1);
    let b = RouteBuilder::new(routes);
    let b = b.def("GET", "/more", 2);
    let built = b.build;
    assert_eq!(built.find("GET", "/"), Some(1));
    assert_eq!(built.find("GET", "/more"), Some(2));
}
