use hreq::{Chain, Dispatch, Method, ParsedPath, RouteMethod, Router, Step};

type Handlers = Router<&'static str, &'static str>;

fn get() -> Method {
    Method::new("GET")
}

fn post() -> Method {
    Method::new("POST")
}

/// The handler that the router chose and the captured value of each name
/// asked for, or the fallback's status and body.
fn served(router: &Handlers, method: &Method, path: &str, names: &[&str]) -> Result<(&'static str, Vec<Option<String>>), (u16, &'static str)> {
    match router.dispatch(method, path) {
        Dispatch::Run { chain, params } => {
            let mut step = chain.step();
            let end = loop {
                match step {
                    Step::Middleware(_, next) => step = next.run(),
                    Step::Handler(end) => break *end,
                }
            };
            Ok((end, names.iter().map(|n| params.get(n).map(|v| v.to_string())).collect()))
        }
        Dispatch::NotFound { status, body } => Err((status, body)),
    }
}

#[test]
fn a_new_router_has_no_endpoints_and_answers_not_found() {
    let router = Handlers::new();
    assert_eq!(router.len(), 0);
    assert_eq!(served(&router, &get(), "/", &[]), Err((404, "Not found")));
    assert_eq!(served(&router, &get(), "", &[]), Err((404, "Not found")));
}

#[test]
fn dispatch_runs_the_chain_of_the_matching_endpoint_with_its_captures() {
    let mut router = Handlers::new();
    router.at("/hello/:name").method(get(), "hello");
    router.at("/files/*path").method(get(), "files");
    assert_eq!(
        served(&router, &get(), "/hello/world", &["name"]),
        Ok(("hello", vec![Some("world".to_string())]))
    );
    assert_eq!(
        served(&router, &get(), "/files/a/b.txt", &["path", "name"]),
        Ok(("files", vec![Some("a/b.txt".to_string()), None]))
    );
}

#[test]
fn dispatch_skips_endpoints_of_another_method() {
    let mut router = Handlers::new();
    router.at("/a").method(get(), "get a");
    router.at("/b").all("any b");
    assert_eq!(served(&router, &get(), "/a", &[]), Ok(("get a", vec![])));
    assert_eq!(served(&router, &post(), "/a", &[]), Err((404, "Not found")));
    assert_eq!(served(&router, &Method::new("get"), "/a", &[]), Err((404, "Not found")));
    assert_eq!(served(&router, &post(), "/b", &[]), Ok(("any b", vec![])));
    assert_eq!(served(&router, &Method::new("BREW"), "/b", &[]), Ok(("any b", vec![])));
}

#[test]
fn a_path_that_matches_no_pattern_is_not_found() {
    let mut router = Handlers::new();
    router.at("/hello/:name").method(get(), "hello");
    assert_eq!(served(&router, &get(), "/hello", &[]), Err((404, "Not found")));
    assert_eq!(served(&router, &get(), "/bye/world", &[]), Err((404, "Not found")));
    assert_eq!(served(&router, &get(), "/hello/world/", &[]), Err((404, "Not found")));
}

#[test]
fn registering_a_pattern_again_replaces_the_endpoint() {
    let mut router = Handlers::new();
    router.at("/a").method(get(), "first");
    router.at("/b").method(get(), "other");
    router.at("/a").method(post(), "second");
    assert_eq!(router.len(), 2);
    assert_eq!(served(&router, &post(), "/a", &[]), Ok(("second", vec![])));
    assert_eq!(served(&router, &get(), "/a", &[]), Err((404, "Not found")));
    assert_eq!(served(&router, &get(), "/b", &[]), Ok(("other", vec![])));
}

#[test]
fn register_replaces_like_at_does() {
    let mut router = Handlers::new();
    router.register(RouteMethod::Method(get()), ParsedPath::parse("/a"), vec![], "first");
    router.register(RouteMethod::All, ParsedPath::parse("/a"), vec!["m"], "second");
    assert_eq!(router.len(), 1);
    assert_eq!(served(&router, &post(), "/a", &[]), Ok(("second", vec![])));
}

#[test]
fn at_removes_the_old_endpoint_at_once() {
    let mut router = Handlers::new();
    router.at("/a").method(get(), "first");
    let _ = router.at("/a");
    assert_eq!(router.len(), 0);
    assert_eq!(served(&router, &get(), "/a", &[]), Err((404, "Not found")));
}

#[test]
fn a_replaced_endpoint_moves_to_the_end_of_the_order() {
    let mut router = Handlers::new();
    router.at("/:x").method(get(), "param");
    router.at("/a").method(get(), "literal");
    assert_eq!(served(&router, &get(), "/a", &["x"]), Ok(("param", vec![Some("a".to_string())])));
    router.at("/:x").method(get(), "param again");
    assert_eq!(served(&router, &get(), "/a", &[]), Ok(("literal", vec![])));
    assert_eq!(served(&router, &get(), "/b", &["x"]), Ok(("param again", vec![Some("b".to_string())])));
}

#[test]
fn the_endpoint_registered_first_wins_among_overlapping_patterns() {
    let mut router = Handlers::new();
    router.at("/*all").method(get(), "wildcard");
    router.at("/hello/:name").method(get(), "hello");
    assert_eq!(served(&router, &get(), "/hello/world", &["all"]), Ok(("wildcard", vec![Some("hello/world".to_string())])));

    let mut router = Handlers::new();
    router.at("/hello/:name").method(get(), "hello");
    router.at("/*all").method(get(), "wildcard");
    assert_eq!(served(&router, &get(), "/hello/world", &["name"]), Ok(("hello", vec![Some("world".to_string())])));
    assert_eq!(served(&router, &get(), "/other", &["all"]), Ok(("wildcard", vec![Some("other".to_string())])));
}

#[test]
fn an_earlier_endpoint_of_another_method_does_not_shadow() {
    let mut router = Handlers::new();
    router.at("/*all").method(post(), "post all");
    router.at("/a").method(get(), "get a");
    assert_eq!(served(&router, &get(), "/a", &[]), Ok(("get a", vec![])));
}

#[test]
fn a_mounted_router_dispatches_on_the_path_behind_its_prefix() {
    let mut router = Handlers::new();
    router.set_prefix("/much");
    router.at("/hello/:name").method(get(), "hello");
    assert!(router.covers("/much/hello/world"));
    assert_eq!(
        served(&router, &get(), "/much/hello/world", &["name"]),
        Ok(("hello", vec![Some("world".to_string())]))
    );
    assert_eq!(served(&router, &get(), "/much/hello", &[]), Err((404, "Not found")));
    assert!(router.covers("/much"));
    assert_eq!(served(&router, &get(), "/much", &[]), Err((404, "Not found")));
}

#[test]
fn covers_tells_whether_a_path_lies_under_the_prefix() {
    let mut router = Handlers::new();
    assert!(router.covers("/anything"));
    assert!(router.covers(""));
    router.set_prefix("/much");
    assert!(!router.covers("/hello/world"));
    assert!(!router.covers("/muc"));
    assert!(router.covers("/muchmore"));
}

#[test]
fn set_prefix_keeps_the_endpoints() {
    let mut router = Handlers::new();
    router.at("/a").method(get(), "a");
    router.set_prefix("/x");
    assert_eq!(router.len(), 1);
    assert_eq!(served(&router, &get(), "/x/a", &[]), Ok(("a", vec![])));
}

#[test]
fn reset_removes_only_the_given_pattern() {
    let mut router = Handlers::new();
    router.at("/a").method(get(), "a");
    router.at("/b").method(get(), "b");
    router.reset(&ParsedPath::parse("/c"));
    assert_eq!(router.len(), 2);
    router.reset(&ParsedPath::parse("/a"));
    assert_eq!(router.len(), 1);
    assert_eq!(served(&router, &get(), "/b", &[]), Ok(("b", vec![])));
}

#[test]
fn a_route_hands_its_middleware_to_the_chain_in_order() {
    let mut router = Handlers::new();
    router.at("/a").middleware("outer").middleware("inner").method(get(), "end");
    match router.dispatch(&get(), "/a") {
        Dispatch::Run { chain, .. } => {
            let mut seen = Vec::new();
            let mut step = chain.step();
            loop {
                match step {
                    Step::Middleware(mid, next) => {
                        seen.push(*mid);
                        step = next.run();
                    }
                    Step::Handler(end) => {
                        seen.push(*end);
                        break;
                    }
                }
            }
            assert_eq!(seen, vec!["outer", "inner", "end"]);
        }
        Dispatch::NotFound { .. } => panic!("the endpoint is registered"),
    }
}

#[test]
fn route_method_equals_the_methods_it_answers_to() {
    assert!(RouteMethod::All == get());
    assert!(RouteMethod::All == Method::new("ANYTHING"));
    assert!(RouteMethod::Method(get()) == get());
    assert!(RouteMethod::Method(get()) != post());
    assert!(RouteMethod::Method(get()) != Method::new("get"));
    assert!(get() == Method::new("GET"));
    assert!(get() != post());
    assert_eq!(get().as_str(), "GET");
}

#[test]
fn chain_of_a_dispatch_is_the_registered_one() {
    let mut router: Router<u8, u8> = Router::new();
    router.at("/n").middleware(1).middleware(2).all(9);
    match router.dispatch(&get(), "/n") {
        Dispatch::Run { chain, params } => {
            assert_eq!(params.len(), 0);
            match chain {
                Chain::MidWrap(1, rest) => match &**rest {
                    Chain::MidWrap(2, rest) => assert!(matches!(&**rest, Chain::End(9))),
                    _ => panic!("the second middleware is missing"),
                },
                _ => panic!("the first middleware is missing"),
            }
        }
        Dispatch::NotFound { .. } => panic!("the endpoint is registered"),
    }
}

#[test]
fn a_cloned_router_serves_as_the_one_it_was_cloned_from() {
    let mut router = Handlers::new();
    router.set_prefix("/api");
    router.at("/a/:id").middleware("m").method(get(), "a");
    let copy = router.clone();
    router.at("/a/:id").method(get(), "changed");
    assert_eq!(copy.len(), 1);
    assert_eq!(served(&copy, &get(), "/api/a/7", &["id"]), Ok(("a", vec![Some("7".to_string())])));
    assert_eq!(served(&router, &get(), "/api/a/7", &["id"]), Ok(("changed", vec![Some("7".to_string())])));
}

#[test]
fn the_fallback_is_the_same_for_every_method() {
    let mut router = Handlers::new();
    router.at("/a").method(get(), "a");
    for token in ["GET", "POST", "PUT", "DELETE", "HEAD", "OPTIONS", "PATCH"] {
        assert_eq!(served(&router, &Method::new(token), "/missing", &[]), Err((404, "Not found")));
    }
}

#[test]
fn a_wildcard_under_another_name_replaces_the_endpoint() {
    let mut router = Handlers::new();
    router.at("/files/*a").method(get(), "first");
    router.at("/files/*b").method(get(), "second");
    assert_eq!(router.len(), 1);
    assert_eq!(
        served(&router, &get(), "/files/x/y", &["a", "b"]),
        Ok(("second", vec![None, Some("x/y".to_string())]))
    );
}

#[test]
fn a_parameter_under_another_name_is_another_pattern() {
    let mut router = Handlers::new();
    router.at("/u/:a").method(get(), "first");
    router.at("/u/:b").method(get(), "second");
    assert_eq!(router.len(), 2);
    assert_eq!(served(&router, &get(), "/u/7", &["a", "b"]), Ok(("first", vec![Some("7".to_string()), None])));
}
