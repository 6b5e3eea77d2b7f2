use user_service::route::{match_bytes, match_path, Route};

#[test]
fn index_paths() {
    assert_eq!(match_path("/"), Route::Index);
    assert_eq!(match_path("/index.htm"), Route::Index);
    assert_eq!(match_path("/index.html"), Route::Index);
}

#[test]
fn near_misses_of_the_index_are_unmatched() {
    for path in [
        "",
        "//",
        "/index",
        "/index.",
        "/index.ht",
        "/index.htmlx",
        "/index.html/",
        "/index.htm/",
        "/Index.html",
        "/INDEX.HTM",
        "/indexXhtml",
        "index.html",
    ] {
        assert_eq!(match_path(path), Route::Unmatched, "{:?}", path);
    }
}

#[test]
fn collection_paths() {
    assert_eq!(match_path("/users"), Route::Collection);
    assert_eq!(match_path("/users/"), Route::Collection);
}

#[test]
fn near_misses_of_the_collection_are_unmatched() {
    for path in ["/users//", "/Users", "/users/1", "/userss", "users", "/users "] {
        assert_eq!(match_path(path), Route::Unmatched, "{:?}", path);
    }
}

#[test]
fn item_without_id() {
    assert_eq!(match_path("/user/"), Route::Item(None));
}

#[test]
fn item_prefix_needs_its_slash() {
    assert_eq!(match_path("/user"), Route::Unmatched);
    assert_eq!(match_path("/use"), Route::Unmatched);
    assert_eq!(match_path("/User/"), Route::Unmatched);
}

#[test]
fn item_with_id() {
    assert_eq!(match_path("/user/0"), Route::Item(Some(0)));
    assert_eq!(match_path("/user/5"), Route::Item(Some(5)));
    assert_eq!(match_path("/user/5/"), Route::Item(Some(5)));
    assert_eq!(match_path("/user/42"), Route::Item(Some(42)));
    assert_eq!(match_path("/user/12345/"), Route::Item(Some(12345)));
}

#[test]
fn leading_zeros_do_not_count() {
    assert_eq!(match_path("/user/007"), Route::Item(Some(7)));
    assert_eq!(match_path("/user/000/"), Route::Item(Some(0)));
}

#[test]
fn malformed_id_is_unmatched() {
    for path in [
        "/user/abc",
        "/user/5a",
        "/user/a5",
        "/user/-1",
        "/user/+5",
        "/user/5//",
        "/user//",
        "/user//5",
        "/user/ 5",
        "/user/5 ",
        "/user/5/6",
        "/user/0x10",
        "/user/1.0",
        "/user/\u{0663}",
        "/user/5\n",
    ] {
        assert_eq!(match_path(path), Route::Unmatched, "{:?}", path);
    }
}

#[test]
fn largest_handle_is_matched() {
    let path = format!("/user/{}", usize::MAX);
    assert_eq!(match_path(&path), Route::Item(Some(usize::MAX)));
    let path = format!("/user/{}/", usize::MAX);
    assert_eq!(match_path(&path), Route::Item(Some(usize::MAX)));
}

#[test]
fn id_beyond_the_largest_handle_is_unmatched() {
    let path = format!("/user/{}0", usize::MAX);
    assert_eq!(match_path(&path), Route::Unmatched);
    let path = format!("/user/{}", usize::MAX as u128 + 1);
    assert_eq!(match_path(&path), Route::Unmatched);
    assert_eq!(
        match_path("/user/99999999999999999999999999999999999999999999"),
        Route::Unmatched
    );
}

#[test]
fn bytes_and_text_agree() {
    for path in ["/", "/users/", "/user/", "/user/17/", "/user/x", "/nowhere"] {
        assert_eq!(match_bytes(path.as_bytes()), match_path(path), "{:?}", path);
    }
}

#[test]
fn bytes_that_are_no_text_are_unmatched() {
    assert_eq!(match_bytes(&[0x2f, 0xff]), Route::Unmatched);
    assert_eq!(
        match_bytes(&[0x2f, 0x75, 0x73, 0x65, 0x72, 0x2f, 0xb5]),
        Route::Unmatched
    );
}

#[test]
fn every_handle_has_a_path() {
    for id in [0usize, 1, 9, 10, 11, 99, 100, 101, 65535, 1_000_000, usize::MAX] {
        assert_eq!(match_path(&format!("/user/{}", id)), Route::Item(Some(id)));
        assert_eq!(match_path(&format!("/user/{}/", id)), Route::Item(Some(id)));
    }
}
