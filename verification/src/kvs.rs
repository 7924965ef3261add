//! The ancillary key-value store and its route handlers.
//!
//! The server is a flat association of string keys to serialized values with
//! unique keys. The route handlers decide status codes and bodies from the
//! already-parsed request: the method, the path split on slashes, and the
//! body's key and value fields. All transport, splitting and JSON work stays
//! with the caller.

use vstd::prelude::*;
use vstd::string::StringExecFns;

verus! {

/// Whether the entries hold `key` bound to `value`.
pub open spec fn kv_maps_to(
    entries: Seq<(String, String)>,
    key: Seq<char>,
    value: Seq<char>,
) -> bool {
    exists|i: int|
        0 <= i < entries.len() && (#[trigger] entries[i]).0@ == key && entries[i].1@ == value
}

/// Whether the entries hold any binding for `key`.
pub open spec fn kv_has(entries: Seq<(String, String)>, key: Seq<char>) -> bool {
    exists|i: int| 0 <= i < entries.len() && (#[trigger] entries[i]).0@ == key
}

/// Two bindings with the same key and the same value.
pub open spec fn kv_same_entry(a: (String, String), b: (String, String)) -> bool {
    a.0@ == b.0@ && a.1@ == b.1@
}

/// Every binding of `new_e` for a key other than `key` already stood in
/// `old_e`, and every binding of `old_e` for a key other than `key` still
/// stands in `new_e`: the mutation touched at most the one key.
pub open spec fn kv_preserved_except(
    old_e: Seq<(String, String)>,
    new_e: Seq<(String, String)>,
    key: Seq<char>,
) -> bool {
    &&& forall|j: int|
        0 <= j < new_e.len() && (#[trigger] new_e[j]).0@ != key ==> exists|w: int|
            0 <= w < old_e.len() && kv_same_entry(#[trigger] old_e[w], new_e[j])
    &&& forall|w: int|
        0 <= w < old_e.len() && (#[trigger] old_e[w]).0@ != key ==> exists|j: int|
            0 <= j < new_e.len() && kv_same_entry(old_e[w], #[trigger] new_e[j])
}

/// The key-value store: an association list with unique keys.
pub struct Server {
    /// The bindings, each key held at most once.
    pub entries: Vec<(String, String)>,
}

impl Server {
    /// Keys are unique, so each lookup has at most one answer.
    pub open spec fn wf(self) -> bool {
        forall|i: int, j: int|
            #![trigger self.entries@[i], self.entries@[j]]
            0 <= i < j < self.entries@.len() ==> self.entries@[i].0@ != self.entries@[j].0@
    }

    /// An empty store.
    pub fn new() -> (r: Self)
        ensures
            r.wf(),
            r.entries@.len() == 0,
    {
        Server { entries: Vec::new() }
    }

    /// The value bound to `key`, if any.
    #[verifier::loop_isolation(false)]
    pub fn get(&self, key: &String) -> (r: Option<String>)
        requires
            self.wf(),
        ensures
            match r {
                Some(v) => kv_maps_to(self.entries@, key@, v@),
                None => !kv_has(self.entries@, key@),
            },
    {
        let n = self.entries.len();
        let mut i: usize = 0;
        while i < n
            invariant
                i <= n,
                forall|j: int| 0 <= j < i as int ==> (#[trigger] self.entries@[j]).0@ != key@,
            decreases n - i,
        {
            if self.entries[i].0 == *key {
                let v = self.entries[i].1.clone();
                return Some(v);
            }
            i = i + 1;
        }
        None
    }

    /// Binds `key` to `value`, replacing any previous binding.
    #[verifier::loop_isolation(false)]
    pub fn set(&mut self, key: String, value: String)
        requires
            old(self).wf(),
        ensures
            final(self).wf(),
            kv_maps_to(final(self).entries@, key@, value@),
            kv_preserved_except(old(self).entries@, final(self).entries@, key@),
    {
        let n = self.entries.len();
        let mut i: usize = 0;
        while i < n
            invariant
                i <= n,
                *self == *old(self),
                forall|j: int| 0 <= j < i as int ==> (#[trigger] self.entries@[j]).0@ != key@,
            decreases n - i,
        {
            if self.entries[i].0 == key {
                self.entries[i] = (key, value);
                proof {
                    assert(self.entries@.len() == old(self).entries@.len());
                    assert(self.entries@[i as int].0@ == key@);
                    assert(self.entries@[i as int].1@ == value@);
                    assert(forall|j: int|
                        0 <= j < self.entries@.len() && j != i as int
                            ==> #[trigger] self.entries@[j] == old(self).entries@[j]);
                    assert forall|a: int, b: int|
                        #![trigger self.entries@[a], self.entries@[b]]
                        0 <= a < b < self.entries@.len() implies self.entries@[a].0@
                        != self.entries@[b].0@ by {
                        assert(old(self).entries@[a].0@ != old(self).entries@[b].0@);
                        assert(old(self).entries@[i as int].0@ == key@);
                    }
                    assert(kv_maps_to(self.entries@, key@, value@));
                    assert forall|j: int|
                        0 <= j < self.entries@.len() && (#[trigger] self.entries@[j]).0@
                            != key@ implies exists|w: int|
                        0 <= w < old(self).entries@.len() && kv_same_entry(
                            #[trigger] old(self).entries@[w],
                            self.entries@[j],
                        ) by {
                        assert(j != i as int);
                        assert(kv_same_entry(old(self).entries@[j], self.entries@[j]));
                    }
                    assert forall|w: int|
                        0 <= w < old(self).entries@.len() && (#[trigger] old(self).entries@[w]).0@
                            != key@ implies exists|j: int|
                        0 <= j < self.entries@.len() && kv_same_entry(
                            old(self).entries@[w],
                            #[trigger] self.entries@[j],
                        ) by {
                        assert(w != i as int);
                        assert(kv_same_entry(old(self).entries@[w], self.entries@[w]));
                    }
                }
                return ;
            }
            i = i + 1;
        }
        self.entries.push((key, value));
        proof {
            let last = self.entries@.len() - 1;
            assert(self.entries@[last].0@ == key@);
            assert(self.entries@[last].1@ == value@);
            assert(kv_maps_to(self.entries@, key@, value@));
            assert forall|j: int|
                0 <= j < self.entries@.len() && (#[trigger] self.entries@[j]).0@
                    != key@ implies exists|w: int|
                0 <= w < old(self).entries@.len() && kv_same_entry(
                    #[trigger] old(self).entries@[w],
                    self.entries@[j],
                ) by {
                assert(j != last);
                assert(kv_same_entry(old(self).entries@[j], self.entries@[j]));
            }
            assert forall|w: int|
                0 <= w < old(self).entries@.len() && (#[trigger] old(self).entries@[w]).0@
                    != key@ implies exists|j: int|
                0 <= j < self.entries@.len() && kv_same_entry(
                    old(self).entries@[w],
                    #[trigger] self.entries@[j],
                ) by {
                assert(kv_same_entry(old(self).entries@[w], self.entries@[w]));
            }
        }
    }

    /// Removes any binding for `key`.
    #[verifier::loop_isolation(false)]
    pub fn delete(&mut self, key: &String)
        requires
            old(self).wf(),
        ensures
            final(self).wf(),
            !kv_has(final(self).entries@, key@),
            kv_preserved_except(old(self).entries@, final(self).entries@, key@),
    {
        let n = self.entries.len();
        let mut kept: Vec<(String, String)> = Vec::new();
        let mut i: usize = 0;
        while i < n
            invariant
                i <= n,
                *self == *old(self),
                forall|j: int| 0 <= j < kept@.len() ==> (#[trigger] kept@[j]).0@ != key@,
                forall|j1: int, j2: int|
                    #![trigger kept@[j1], kept@[j2]]
                    0 <= j1 < j2 < kept@.len() ==> kept@[j1].0@ != kept@[j2].0@,
                forall|j: int|
                    #![trigger kept@[j]]
                    0 <= j < kept@.len() ==> exists|w: int|
                        0 <= w < i as int && kv_same_entry(
                            #[trigger] old(self).entries@[w],
                            kept@[j],
                        ),
                forall|w: int|
                    #![trigger old(self).entries@[w]]
                    0 <= w < i as int && old(self).entries@[w].0@ != key@ ==> exists|j: int|
                        0 <= j < kept@.len() && kv_same_entry(
                            old(self).entries@[w],
                            #[trigger] kept@[j],
                        ),
            decreases n - i,
        {
            let keep = !(self.entries[i].0 == *key);
            if keep {
                let pair = (self.entries[i].0.clone(), self.entries[i].1.clone());
                proof {
                    assert(pair.0@ == old(self).entries@[i as int].0@);
                    assert(pair.1@ == old(self).entries@[i as int].1@);
                    assert forall|j: int| 0 <= j < kept@.len() implies (#[trigger] kept@[j]).0@
                        != pair.0@ by {
                        let w = choose|w: int|
                            0 <= w < i as int && kv_same_entry(old(self).entries@[w], kept@[j]);
                        assert(old(self).entries@[w].0@ != old(self).entries@[i as int].0@);
                    }
                }
                let ghost prev_kept = kept@;
                kept.push(pair);
                proof {
                    assert forall|j: int| #![trigger kept@[j]] 0 <= j < kept@.len() implies exists|w: int|
                        0 <= w < i + 1 && kv_same_entry(
                            #[trigger] old(self).entries@[w],
                            kept@[j],
                        ) by {
                        if j < prev_kept.len() {
                            assert(kept@[j] == prev_kept[j]);
                            let w0 = choose|w: int|
                                0 <= w < i as int && kv_same_entry(
                                    old(self).entries@[w],
                                    prev_kept[j],
                                );
                            assert(0 <= w0 < i + 1 && kv_same_entry(
                                old(self).entries@[w0],
                                kept@[j],
                            ));
                        } else {
                            assert(kept@[j] == pair);
                            assert(kv_same_entry(old(self).entries@[i as int], kept@[j]));
                        }
                    }
                    assert forall|w: int| #![trigger old(self).entries@[w]]
                        0 <= w < i + 1 && old(self).entries@[w].0@
                            != key@ implies exists|j: int|
                        0 <= j < kept@.len() && kv_same_entry(
                            old(self).entries@[w],
                            #[trigger] kept@[j],
                        ) by {
                        if w < i as int {
                            let j0 = choose|j: int|
                                0 <= j < prev_kept.len() && kv_same_entry(
                                    old(self).entries@[w],
                                    prev_kept[j],
                                );
                            assert(kept@[j0] == prev_kept[j0]);
                            assert(kv_same_entry(old(self).entries@[w], kept@[j0]));
                        } else {
                            let j1: int = kept@.len() - 1;
                            assert(kept@[j1] == pair);
                            assert(kv_same_entry(old(self).entries@[w], kept@[j1]));
                        }
                    }
                }
            } else {
                proof {
                    assert(old(self).entries@[i as int].0@ == key@);
                }
            }
            i = i + 1;
        }
        self.entries = kept;
        proof {
            if kv_has(self.entries@, key@) {
                let w = choose|w: int|
                    0 <= w < self.entries@.len() && (#[trigger] self.entries@[w]).0@ == key@;
                assert(false);
            }
        }
    }
}

/// A parsed request: the method, the path split on slashes, and the body's
/// key and value fields where the body carried them.
pub struct Request {
    /// The request method, lower case.
    pub method: String,
    /// The path split on `/`; an absolute path yields a leading empty
    /// segment.
    pub route: Vec<String>,
    /// The `key` field of the body, when present.
    pub key: Option<String>,
    /// The serialized `value` field of the body, when present.
    pub value: Option<String>,
}

/// A response: a status code and a body (a serialized value, or an error
/// message for the caller to wrap).
pub struct Response {
    /// The HTTP status code.
    pub status: u16,
    /// The response body.
    pub body: String,
}

/// A route is usable when it has at least three segments (as
/// `/values/<key>` does once split) and a nonempty final segment, the key.
pub open spec fn route_ok(route: Seq<String>) -> bool {
    route.len() >= 3 && route[route.len() - 1]@.len() > 0
}

/// The key of a route: its final segment.
pub open spec fn route_key(route: Seq<String>) -> Seq<char> {
    route[route.len() - 1]@
}

/// The response for a method the store does not serve.
pub fn get_not_allowed_response() -> (r: Response)
    ensures
        r.status == 405,
{
    Response { status: 405, body: String::from_str("The method is not allowed.") }
}

/// Serves a read of one key: 400 without a usable key in the route, 404 for
/// a key with no binding, otherwise 200 with the bound value as the body.
pub fn get_key(server: &Server, route: &Vec<String>) -> (r: Response)
    requires
        server.wf(),
    ensures
        !route_ok(route@) ==> r.status == 400,
        route_ok(route@) && !kv_has(server.entries@, route_key(route@)) ==> r.status == 404,
        route_ok(route@) && kv_has(server.entries@, route_key(route@)) ==> r.status == 200
            && kv_maps_to(server.entries@, route_key(route@), r.body@),
{
    if route.len() < 3 {
        return Response { status: 400, body: String::from_str("The key is required.") };
    }
    let key = &route[route.len() - 1];
    if key.as_str().is_empty() {
        return Response { status: 400, body: String::from_str("The key is required.") };
    }
    match server.get(key) {
        None => Response { status: 404, body: String::from_str("The value is not found.") },
        Some(v) => Response { status: 200, body: v },
    }
}

/// Serves a write of one key: 400 unless the body carried both a key and a
/// value, otherwise the binding is stored and echoed back with 201.
pub fn post(server: &mut Server, key: &Option<String>, value: &Option<String>) -> (r: Response)
    requires
        old(server).wf(),
    ensures
        final(server).wf(),
        (key is None || value is None) ==> r.status == 400 && *final(server) == *old(server),
        (key is Some && value is Some) ==> {
            &&& r.status == 201
            &&& r.body@ == value.unwrap()@
            &&& kv_maps_to(final(server).entries@, key.unwrap()@, value.unwrap()@)
            &&& kv_preserved_except(old(server).entries@, final(server).entries@, key.unwrap()@)
        },
{
    let k = match key {
        Some(k) => k,
        None => {
            return Response {
                status: 400,
                body: String::from_str("Both key and value are required."),
            };
        },
    };
    let v = match value {
        Some(v) => v,
        None => {
            return Response {
                status: 400,
                body: String::from_str("Both key and value are required."),
            };
        },
    };
    server.set(k.clone(), v.clone());
    Response { status: 201, body: v.clone() }
}

/// Serves a removal of one key: 400 without a usable key in the route,
/// otherwise the binding (if any) is dropped and 204 returned.
pub fn delete(server: &mut Server, route: &Vec<String>) -> (r: Response)
    requires
        old(server).wf(),
    ensures
        final(server).wf(),
        !route_ok(route@) ==> r.status == 400 && *final(server) == *old(server),
        route_ok(route@) ==> {
            &&& r.status == 204
            &&& !kv_has(final(server).entries@, route_key(route@))
            &&& kv_preserved_except(
                old(server).entries@,
                final(server).entries@,
                route_key(route@),
            )
        },
{
    if route.len() < 3 {
        return Response { status: 400, body: String::from_str("The key is missing.") };
    }
    let key = &route[route.len() - 1];
    if key.as_str().is_empty() {
        return Response { status: 400, body: String::from_str("The key is missing.") };
    }
    server.delete(key);
    Response { status: 204, body: String::new() }
}

/// Dispatches one request on the key-value store by its method: reads serve
/// the routed key, posts store the body's binding, deletes drop the routed
/// key, and any other method is refused with 405.
pub fn handler(server: &mut Server, request: &Request) -> (r: Response)
    requires
        old(server).wf(),
    ensures
        final(server).wf(),
        request.method@ == "get"@ ==> *final(server) == *old(server) && (!route_ok(request.route@)
            ==> r.status == 400) && (route_ok(request.route@) && !kv_has(
            old(server).entries@,
            route_key(request.route@),
        ) ==> r.status == 404) && (route_ok(request.route@) && kv_has(
            old(server).entries@,
            route_key(request.route@),
        ) ==> r.status == 200 && kv_maps_to(
            old(server).entries@,
            route_key(request.route@),
            r.body@,
        )),
        request.method@ == "post"@ ==> ((request.key is None || request.value is None)
            ==> r.status == 400 && *final(server) == *old(server)) && ((request.key is Some
            && request.value is Some) ==> r.status == 201 && kv_maps_to(
            final(server).entries@,
            request.key.unwrap()@,
            request.value.unwrap()@,
        ) && kv_preserved_except(
            old(server).entries@,
            final(server).entries@,
            request.key.unwrap()@,
        )),
        request.method@ == "delete"@ ==> (!route_ok(request.route@) ==> r.status == 400 && *final(server) == *old(server)) && (route_ok(request.route@) ==> r.status == 204 && !kv_has(
            final(server).entries@,
            route_key(request.route@),
        ) && kv_preserved_except(
            old(server).entries@,
            final(server).entries@,
            route_key(request.route@),
        )),
        request.method@ != "get"@ && request.method@ != "post"@ && request.method@ != "delete"@
            ==> r.status == 405 && *final(server) == *old(server),
{
    proof {
        reveal_strlit("get");
        reveal_strlit("post");
        reveal_strlit("delete");
    }
    let get_m = String::from_str("get");
    let post_m = String::from_str("post");
    let delete_m = String::from_str("delete");
    if request.method == get_m {
        proof {
            reveal_strlit("get");
            reveal_strlit("post");
            reveal_strlit("delete");
            assert(request.method@ == "get"@);
            assert("get"@.len() == 3);
            assert("post"@.len() == 4);
            assert(request.method@ != "post"@);
            assert(request.method@ != "delete"@);
        }
        get_key(server, &request.route)
    } else if request.method == post_m {
        proof {
            reveal_strlit("get");
            reveal_strlit("post");
            reveal_strlit("delete");
            assert(request.method@ == "post"@);
            assert("post"@.len() == 4);
            assert("delete"@.len() == 6);
            assert(request.method@ != "delete"@);
        }
        post(server, &request.key, &request.value)
    } else if request.method == delete_m {
        proof {
            reveal_strlit("get");
            reveal_strlit("post");
            reveal_strlit("delete");
            assert(request.method@ == "delete"@);
            assert("post"@.len() == 4);
            assert("delete"@.len() == 6);
            assert(request.method@ != "post"@);
        }
        delete(server, &request.route)
    } else {
        get_not_allowed_response()
    }
}

} // verus!
