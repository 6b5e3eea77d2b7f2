//! The path matcher: which resource a request path addresses.
//!
//! Paths are matched as bytes, exactly and case-sensitively:
//!
//! | path                                   | route              |
//! |----------------------------------------|--------------------|
//! | `/`, `/index.htm`, `/index.html`       | `Index`            |
//! | `/users`, `/users/`                    | `Collection`       |
//! | `/user/`                               | `Item(None)`       |
//! | `/user/<digits>`, `/user/<digits>/`    | `Item(Some(id))`   |
//! | anything else                          | `Unmatched`        |
//!
//! A digit string that does not fit a handle makes the path unmatched: a
//! malformed id is never read as "no id".

use crate::decimal::{decimal_digits, lemma_decimal_round_trip, parse_decimal, parsed};
use crate::store::RecordHandle;
use vstd::prelude::*;
use vstd::slice::slice_subrange;
use vstd::string::{is_ascii_spec_bytes, StringSliceAdditionalSpecFns};

verus! {

/// The byte `/`.
pub const SLASH: u8 = 0x2f;

/// What a request path addresses.
#[derive(Clone, Copy, Debug, PartialEq, Eq)]
pub enum Route {
    /// The index page.
    Index,
    /// The collection of all users.
    Collection,
    /// A single user: with the handle that the path names, or without one.
    Item(Option<RecordHandle>),
    /// Nothing that the service knows.
    Unmatched,
}

/// `path` begins with `prefix`.
pub open spec fn has_prefix(path: Seq<u8>, prefix: Seq<u8>) -> bool {
    prefix.len() <= path.len() && path.take(prefix.len() as int) == prefix
}

/// `text` without its last byte if that byte is a slash, else `text`.
pub open spec fn without_trailing_slash(text: Seq<u8>) -> Seq<u8> {
    if text.len() > 0 && text.last() == SLASH {
        text.drop_last()
    } else {
        text
    }
}

/// The route of a path that begins with `/user/`, given what follows that
/// prefix.
pub open spec fn item_route(tail: Seq<u8>) -> Route {
    if tail.len() == 0 {
        Route::Item(None)
    } else {
        match parsed(without_trailing_slash(tail)) {
            Some(id) => Route::Item(Some(id)),
            None => Route::Unmatched,
        }
    }
}

/// The route of a request path, given as its bytes.
pub open spec fn route_of(path: Seq<u8>) -> Route {
    if path == "/".spec_bytes() || path == "/index.htm".spec_bytes() || path
        == "/index.html".spec_bytes() {
        Route::Index
    } else if path == "/users".spec_bytes() || path == "/users/".spec_bytes() {
        Route::Collection
    } else if has_prefix(path, "/user/".spec_bytes()) {
        item_route(path.skip("/user/".spec_bytes().len() as int))
    } else {
        Route::Unmatched
    }
}

/// Whether two byte strings are the same.
pub fn same_bytes(a: &[u8], b: &[u8]) -> (same: bool)
    ensures
        same == (a@ == b@),
{
    if a.len() != b.len() {
        return false;
    }
    let mut i: usize = 0;
    while i < a.len()
        invariant
            a@.len() == b@.len(),
            i <= a@.len(),
            forall|j: int| 0 <= j < i ==> a@[j] == b@[j],
        decreases a@.len() - i,
    {
        if a[i] != b[i] {
            return false;
        }
        i += 1;
    }
    assert(a@ =~= b@);
    true
}

/// Whether `path` begins with `prefix`.
fn starts_with(path: &[u8], prefix: &[u8]) -> (found: bool)
    ensures
        found == has_prefix(path@, prefix@),
{
    if prefix.len() > path.len() {
        return false;
    }
    let head = slice_subrange(path, 0, prefix.len());
    same_bytes(head, prefix)
}

/// Classifies what follows `/user/` in a path.
fn match_item(tail: &[u8]) -> (route: Route)
    ensures
        route == item_route(tail@),
{
    let len = tail.len();
    if len == 0 {
        return Route::Item(None);
    }
    let digits = if tail[len - 1] == SLASH {
        slice_subrange(tail, 0, len - 1)
    } else {
        tail
    };
    match parse_decimal(digits) {
        Some(id) => Route::Item(Some(id)),
        None => Route::Unmatched,
    }
}

/// Classifies a request path given as bytes.
pub fn match_bytes(path: &[u8]) -> (route: Route)
    ensures
        route == route_of(path@),
{
    if same_bytes(path, "/".as_bytes()) || same_bytes(path, "/index.htm".as_bytes()) || same_bytes(
        path,
        "/index.html".as_bytes(),
    ) {
        Route::Index
    } else if same_bytes(path, "/users".as_bytes()) || same_bytes(path, "/users/".as_bytes()) {
        Route::Collection
    } else {
        let prefix = "/user/".as_bytes();
        if starts_with(path, prefix) {
            let tail = slice_subrange(path, prefix.len(), path.len());
            match_item(tail)
        } else {
            Route::Unmatched
        }
    }
}

/// Classifies a request path.
pub fn match_path(path: &str) -> (route: Route)
    ensures
        route == route_of(path.spec_bytes()),
{
    match_bytes(path.as_bytes())
}

/// Every handle has a path.
///
/// The decimal notation of a handle, written after `/user/`, is a path that
/// addresses that handle, with or without a slash at its end. So the body
/// that answers an insertion names the record in later requests.
pub proof fn law_item_path(id: RecordHandle)
    ensures
        route_of("/user/".spec_bytes() + decimal_digits(id as nat)) == Route::Item(Some(id)),
        route_of("/user/".spec_bytes() + decimal_digits(id as nat) + seq![SLASH]) == Route::Item(
            Some(id),
        ),
{
    let prefix = "/user/".spec_bytes();
    let digits = decimal_digits(id as nat);
    lemma_decimal_round_trip(id as nat);
    // With the fixed paths spelled out, each is seen to be too short for
    // `/user/` and a digit, or to differ from it in its second or sixth byte.
    reveal_strlit("/");
    reveal_strlit("/index.htm");
    reveal_strlit("/index.html");
    reveal_strlit("/users");
    reveal_strlit("/users/");
    reveal_strlit("/user/");
    is_ascii_spec_bytes("/");
    is_ascii_spec_bytes("/index.htm");
    is_ascii_spec_bytes("/index.html");
    is_ascii_spec_bytes("/users");
    is_ascii_spec_bytes("/users/");
    is_ascii_spec_bytes("/user/");

    let plain = prefix + digits;
    assert(plain.take(6) =~= prefix);
    assert(plain.skip(6) =~= digits);

    let slashed = prefix + digits + seq![SLASH];
    assert(slashed.take(6) =~= prefix);
    assert(slashed.skip(6) =~= digits + seq![SLASH]);
    assert((digits + seq![SLASH]).drop_last() =~= digits);
}

} // verus!
