use sahomedb::kvs::{delete, get_key, handler, post, Request, Server};

fn route(parts: &[&str]) -> Vec<String> {
    parts.iter().map(|p| p.to_string()).collect()
}

fn seeded_server() -> Server {
    let mut server = Server::new();
    server.set("0".to_string(), "{\"embedding\":[0,0],\"data\":{}}".to_string());
    server.set("10".to_string(), "{\"embedding\":[1,2],\"data\":{}}".to_string());
    server
}

#[test]
fn test_set_value() {
    let mut server = Server::new();
    let body = "{\"embedding\":[0,0],\"data\":{}}".to_string();
    let response = post(&mut server, &Some("10".to_string()), &Some(body.clone()));
    assert_eq!(response.status, 201);
    assert_eq!(response.body, body);
}

#[test]
fn test_get_value() {
    let server = seeded_server();
    let response = get_key(&server, &route(&["", "values", "0"]));
    assert_eq!(response.status, 200);
    assert_eq!(response.body, "{\"embedding\":[0,0],\"data\":{}}");
}

#[test]
fn test_delete_value() {
    let mut server = seeded_server();
    let response = delete(&mut server, &route(&["", "values", "0"]));
    assert_eq!(response.status, 204);
    let gone = get_key(&server, &route(&["", "values", "0"]));
    assert_eq!(gone.status, 404);
}

#[test]
fn test_reset_values() {
    let mut server = seeded_server();
    // a bare /values route carries no key and is refused
    let refused = delete(&mut server, &route(&["", "values"]));
    assert_eq!(refused.status, 400);
    // clearing every key one by one empties the store
    for key in ["0", "10"] {
        let response = delete(&mut server, &route(&["", "values", key]));
        assert_eq!(response.status, 204);
    }
    for key in ["0", "10"] {
        let gone = get_key(&server, &route(&["", "values", key]));
        assert_eq!(gone.status, 404);
    }
}

#[test]
fn handler_dispatches_by_method() {
    let mut server = seeded_server();

    let get_req = Request {
        method: "get".to_string(),
        route: route(&["", "values", "10"]),
        key: None,
        value: None,
    };
    let r = handler(&mut server, &get_req);
    assert_eq!(r.status, 200);
    assert_eq!(r.body, "{\"embedding\":[1,2],\"data\":{}}");

    let post_req = Request {
        method: "post".to_string(),
        route: route(&["", "values"]),
        key: Some("k2".to_string()),
        value: Some("\"v2\"".to_string()),
    };
    let r = handler(&mut server, &post_req);
    assert_eq!(r.status, 201);

    let delete_req = Request {
        method: "delete".to_string(),
        route: route(&["", "values", "k2"]),
        key: None,
        value: None,
    };
    let r = handler(&mut server, &delete_req);
    assert_eq!(r.status, 204);

    let patch_req = Request {
        method: "patch".to_string(),
        route: route(&["", "values", "k2"]),
        key: None,
        value: None,
    };
    let r = handler(&mut server, &patch_req);
    assert_eq!(r.status, 405);
}

#[test]
fn missing_key_or_value_is_refused() {
    let mut server = Server::new();
    let r = post(&mut server, &None, &Some("x".to_string()));
    assert_eq!(r.status, 400);
    let r = post(&mut server, &Some("k".to_string()), &None);
    assert_eq!(r.status, 400);
    let r = get_key(&server, &route(&["", "values", ""]));
    assert_eq!(r.status, 400);
    let r = get_key(&server, &route(&["", "values"]));
    assert_eq!(r.status, 400);
}
