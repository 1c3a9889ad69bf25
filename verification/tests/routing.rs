use linkal::filters::{allowed_method, route, Route};
use linkal::handlers::{handle_root, principal_path_of};

#[test]
fn options_are_answered_everywhere() {
    assert!(matches!(route("OPTIONS", "/"), Route::Options { calendar_access: false }));
    assert!(matches!(route("OPTIONS", "/anything/at/all"), Route::Options { calendar_access: false }));
    assert!(matches!(route("OPTIONS", "/calsx"), Route::Options { calendar_access: false }));
    assert!(matches!(route("OPTIONS", "/cals"), Route::Options { calendar_access: true }));
    assert!(matches!(route("OPTIONS", "/cals/"), Route::Options { calendar_access: true }));
    assert!(matches!(route("OPTIONS", "/cals/personal"), Route::Options { calendar_access: true }));
}

#[test]
fn root_is_described_and_answers_propfind() {
    assert!(matches!(route("GET", "/"), Route::Root));
    assert!(matches!(route("GET", ""), Route::Root));
    assert!(matches!(route("PROPFIND", "/"), Route::RootProperties));
    assert!(matches!(route("REPORT", "/"), Route::NotFound));
}

#[test]
fn principal_answers_propfind_and_report() {
    match route("PROPFIND", "/principals/mock/") {
        Route::Principal(name) => assert_eq!(name, "mock"),
        other => panic!("{:?}", other),
    }
    match route("REPORT", "/principals/linkal") {
        Route::Principal(name) => assert_eq!(name, "linkal"),
        other => panic!("{:?}", other),
    }
    assert!(matches!(route("PROPFIND", "/principals"), Route::NotFound));
    assert!(matches!(route("PROPFIND", "/principals/a/b"), Route::NotFound));
    assert!(matches!(route("GET", "/principals/mock"), Route::NotFound));
}

#[test]
fn collection_takes_propfind_report_and_proppatch() {
    assert!(matches!(route("PROPFIND", "/cals"), Route::Collection));
    assert!(matches!(route("REPORT", "/cals/"), Route::Collection));
    assert!(matches!(route("PROPPATCH", "/cals"), Route::Collection));
    assert!(matches!(route("PROPPATCH", "/cals/personal"), Route::NotFound));
    assert!(matches!(route("GET", "/cals"), Route::NotFound));
}

#[test]
fn calendar_is_found_by_its_segment() {
    match route("PROPFIND", "/cals/personal") {
        Route::Resource(segment) => assert_eq!(segment, "personal"),
        other => panic!("{:?}", other),
    }
    match route("REPORT", "/cals/work/") {
        Route::Resource(segment) => assert_eq!(segment, "work"),
        other => panic!("{:?}", other),
    }
    assert!(matches!(route("PROPFIND", "/cals/a/b"), Route::NotFound));
    assert!(matches!(route("PROPFIND", "/cals//"), Route::NotFound));
    assert!(matches!(route("PROPFIND", "/calsx/a"), Route::NotFound));
}

#[test]
fn well_known_address_is_redirected() {
    assert!(matches!(route("GET", "/.well-known/caldav"), Route::WellKnown));
    assert!(matches!(route("GET", "/.well-known/caldav/"), Route::WellKnown));
    assert!(matches!(route("GET", "/.well-known"), Route::NotFound));
    assert!(matches!(route("PROPFIND", "/.well-known/caldav"), Route::NotFound));
}

#[test]
fn other_methods_are_not_taken() {
    assert!(matches!(route("DELETE", "/cals"), Route::MethodNotAllowed));
    assert!(matches!(route("propfind", "/cals"), Route::MethodNotAllowed));
    assert!(matches!(route("", "/"), Route::MethodNotAllowed));
}

#[test]
fn allowed_methods() {
    assert!(allowed_method("OPTIONS"));
    assert!(allowed_method("PROPFIND"));
    assert!(allowed_method("REPORT"));
    assert!(!allowed_method("GET"));
    assert!(!allowed_method("PROPPATCH"));
    assert!(!allowed_method("REPORTS"));
}

#[test]
fn root_description() {
    let response = handle_root();
    assert_eq!(response.status, 207);
    assert!(response.body.contains("<d:href>/</d:href>"));
    assert!(response
        .body
        .contains("<d:resourcetype><d:collection/><d:principal/></d:resourcetype>"));
}

#[test]
fn principal_path() {
    assert_eq!(principal_path_of("mock"), "/principals/mock/");
    assert_eq!(principal_path_of(""), "/principals//");
}
