//! The request dispatcher: from a method and a route to a store operation
//! and a response.
//!
//! | route            | method | store operation | result                         |
//! |------------------|--------|-----------------|--------------------------------|
//! | `Index`          | GET    | none            | 200, the index page            |
//! | `Index`          | other  | none            | 405                            |
//! | `Collection`     | GET    | list            | 200, handles joined by commas  |
//! | `Collection`     | other  | none            | 405                            |
//! | `Item(None)`     | POST   | insert          | 200, the new handle            |
//! | `Item(None)`     | other  | none            | 405                            |
//! | `Item(Some(_))`  | POST   | none            | 400                            |
//! | `Item(Some(id))` | GET    | get             | 200 and the record, or 404     |
//! | `Item(Some(id))` | PUT    | update          | 200, or 404                    |
//! | `Item(Some(id))` | DELETE | remove          | 200, or 404                    |
//! | `Item(Some(_))`  | other  | none            | 405                            |
//! | `Unmatched`      | any    | none            | 404                            |
//!
//! Every response but a 200 has an empty body.

use crate::decimal::{comma_joined, decimal_digits, render_decimal, render_list};
use crate::route::{law_item_path, match_path, route_of, same_bytes, Route};
use crate::store::{is_lowest_free, listing, lowest_free, RecordHandle, Store, UserData};
use vstd::prelude::*;
use vstd::slice::slice_to_vec;
use vstd::string::StringSliceAdditionalSpecFns;

verus! {

/// The page served at the index route.
pub const INDEX_PAGE: &'static str = r#"
<!doctype html>
<html>
  <head>
    <title>02: Hyper microservice</title>
  </head>
  <body>
    <h3>This is where it all starts.</h3>
  </body>
</html>
"#;

/// The request methods that the service tells apart.
#[derive(Clone, Copy, Debug, PartialEq, Eq, Structural)]
pub enum Method {
    Get,
    Post,
    Put,
    Delete,
    /// Any method but the four above.
    Other,
}

/// The outcomes of a request.
#[derive(Clone, Copy, Debug, PartialEq, Eq, Structural)]
pub enum Status {
    /// 200: the request was served.
    Success,
    /// 400: a handle was given where none is expected.
    BadRequest,
    /// 404: the path is unknown, or no live record has the handle.
    NotFound,
    /// 405: the route does not take the method.
    MethodNotAllowed,
}

/// What goes back to the client.
#[derive(Debug, PartialEq, Eq)]
pub struct Response {
    pub status: Status,
    pub body: Vec<u8>,
}

/// The method with the given name. Names are case-sensitive.
pub open spec fn method_of(name: Seq<u8>) -> Method {
    if name == "GET".spec_bytes() {
        Method::Get
    } else if name == "POST".spec_bytes() {
        Method::Post
    } else if name == "PUT".spec_bytes() {
        Method::Put
    } else if name == "DELETE".spec_bytes() {
        Method::Delete
    } else {
        Method::Other
    }
}

/// The status that answers `method` on `route` for a store that holds
/// `records`.
pub open spec fn status_of(
    method: Method,
    route: Route,
    records: Map<RecordHandle, UserData>,
) -> Status {
    match route {
        Route::Index | Route::Collection => if method == Method::Get {
            Status::Success
        } else {
            Status::MethodNotAllowed
        },
        Route::Item(None) => if method == Method::Post {
            Status::Success
        } else {
            Status::MethodNotAllowed
        },
        Route::Item(Some(id)) => match method {
            Method::Post => Status::BadRequest,
            Method::Get | Method::Put | Method::Delete => if records.contains_key(id) {
                Status::Success
            } else {
                Status::NotFound
            },
            Method::Other => Status::MethodNotAllowed,
        },
        Route::Unmatched => Status::NotFound,
    }
}

/// The body that answers `method` on `route` for a store that holds
/// `records`.
pub open spec fn body_of(
    method: Method,
    route: Route,
    records: Map<RecordHandle, UserData>,
) -> Seq<u8> {
    if status_of(method, route, records) != Status::Success {
        Seq::empty()
    } else {
        match (route, method) {
            (Route::Index, _) => INDEX_PAGE.spec_bytes(),
            (Route::Collection, _) => comma_joined(listing(records.dom())),
            (Route::Item(None), _) => decimal_digits(lowest_free(records.dom()) as nat),
            (Route::Item(Some(_)), Method::Get) => UserData::rendered(),
            _ => Seq::empty(),
        }
    }
}

/// What a store that held `records` holds once `method` on `route` is
/// served.
pub open spec fn records_after(
    method: Method,
    route: Route,
    records: Map<RecordHandle, UserData>,
) -> Map<RecordHandle, UserData> {
    match (route, method) {
        (Route::Item(None), Method::Post) => records.insert(lowest_free(records.dom()), UserData),
        (Route::Item(Some(id)), Method::Put) => if records.contains_key(id) {
            records.insert(id, UserData)
        } else {
            records
        },
        (Route::Item(Some(id)), Method::Delete) => records.remove(id),
        _ => records,
    }
}

impl Status {
    /// The status as an HTTP status code.
    pub open spec fn code_spec(self) -> u16 {
        match self {
            Status::Success => 200,
            Status::BadRequest => 400,
            Status::NotFound => 404,
            Status::MethodNotAllowed => 405,
        }
    }

    /// The status as an HTTP status code.
    #[verifier::when_used_as_spec(code_spec)]
    pub fn code(self) -> (code: u16)
        ensures
            code == self.code_spec(),
    {
        match self {
            Status::Success => 200,
            Status::BadRequest => 400,
            Status::NotFound => 404,
            Status::MethodNotAllowed => 405,
        }
    }
}

impl Method {
    /// The method with the given name.
    pub fn from_name(name: &str) -> (method: Method)
        ensures
            method == method_of(name.spec_bytes()),
    {
        let name = name.as_bytes();
        if same_bytes(name, "GET".as_bytes()) {
            Method::Get
        } else if same_bytes(name, "POST".as_bytes()) {
            Method::Post
        } else if same_bytes(name, "PUT".as_bytes()) {
            Method::Put
        } else if same_bytes(name, "DELETE".as_bytes()) {
            Method::Delete
        } else {
            Method::Other
        }
    }
}

impl Response {
    /// A 200 response with the given body.
    pub fn ok(body: Vec<u8>) -> (response: Response)
        ensures
            response.status == Status::Success,
            response.body@ == body@,
    {
        Response { status: Status::Success, body }
    }

    /// A response with the given status and an empty body.
    pub fn with_status(status: Status) -> (response: Response)
        ensures
            response.status == status,
            response.body@ == Seq::<u8>::empty(),
    {
        Response { status, body: Vec::new() }
    }
}

/// Serves `method` on `route` from `store`: performs the store operation
/// of the routing table, if there is one, and builds the response.
pub fn dispatch(method: Method, route: Route, store: &mut Store) -> (response: Response)
    ensures
        response.status == status_of(method, route, old(store)@),
        response.body@ == body_of(method, route, old(store)@),
        final(store)@ == records_after(method, route, old(store)@),
{
    match route {
        Route::Index => match method {
            Method::Get => Response::ok(slice_to_vec(INDEX_PAGE.as_bytes())),
            _ => Response::with_status(Status::MethodNotAllowed),
        },
        Route::Collection => match method {
            Method::Get => {
                let handles = store.list_handles();
                Response::ok(render_list(handles.as_slice()))
            },
            _ => Response::with_status(Status::MethodNotAllowed),
        },
        Route::Item(None) => match method {
            Method::Post => {
                let handle = store.insert(UserData);
                Response::ok(render_decimal(handle))
            },
            _ => Response::with_status(Status::MethodNotAllowed),
        },
        Route::Item(Some(id)) => match method {
            Method::Post => Response::with_status(Status::BadRequest),
            Method::Get => match store.get(id) {
                Some(record) => Response::ok(record.text()),
                None => Response::with_status(Status::NotFound),
            },
            Method::Put => if store.update(id, UserData) {
                Response::with_status(Status::Success)
            } else {
                Response::with_status(Status::NotFound)
            },
            Method::Delete => if store.remove(id) {
                Response::with_status(Status::Success)
            } else {
                Response::with_status(Status::NotFound)
            },
            Method::Other => Response::with_status(Status::MethodNotAllowed),
        },
        Route::Unmatched => Response::with_status(Status::NotFound),
    }
}

/// Serves a request: classifies `path` and dispatches on the route.
pub fn handle(method: Method, path: &str, store: &mut Store) -> (response: Response)
    ensures
        response.status == status_of(method, route_of(path.spec_bytes()), old(store)@),
        response.body@ == body_of(method, route_of(path.spec_bytes()), old(store)@),
        final(store)@ == records_after(method, route_of(path.spec_bytes()), old(store)@),
{
    let route = match_path(path);
    dispatch(method, route, store)
}

/// Only a served request has a body or changes the store, and reading
/// changes nothing.
///
/// Whatever the method, the route and the records: a response with a status
/// other than 200 has an empty body and leaves the records as they were,
/// and so does every GET leave them.
pub proof fn law_refusal_is_inert(
    method: Method,
    route: Route,
    records: Map<RecordHandle, UserData>,
)
    ensures
        status_of(method, route, records) != Status::Success ==> body_of(method, route, records)
            == Seq::<u8>::empty() && records_after(method, route, records) == records,
        method == Method::Get ==> records_after(method, route, records) == records,
{
}

/// What answers a POST names the new record.
///
/// Let a store with a free handle serve `POST /user/`. The body of the
/// answer, written after `/user/`, is then the path of the new record: a
/// GET on it is served with the record's text, and a DELETE on it is served
/// and leaves the records as they were before the POST.
pub proof fn law_created_record_is_found(records: Map<RecordHandle, UserData>)
    requires
        is_lowest_free(records.dom(), lowest_free(records.dom())),
    ensures
        ({
            let path = "/user/".spec_bytes() + body_of(Method::Post, Route::Item(None), records);
            let created = records_after(Method::Post, Route::Item(None), records);
            &&& status_of(Method::Get, route_of(path), created) == Status::Success
            &&& body_of(Method::Get, route_of(path), created) == UserData::rendered()
            &&& status_of(Method::Delete, route_of(path), created) == Status::Success
            &&& records_after(Method::Delete, route_of(path), created) == records
        }),
{
    law_item_path(lowest_free(records.dom()));
}

} // verus!
