use linkal::handlers::{
    calendar_fragment, collection_response, find_failure, forward, cals_plan, events_request, handle_cals, handle_events, handle_options, handle_options_cals,
    handle_propfind_locally, handle_well_known, upstream_answer, CalsPlan,
};
use linkal::utils::{into_response, Calendar, LinkalError};

fn personal() -> Calendar {
    Calendar {
        name: "Personal".to_string(),
        url: "https://host/remote.php/dav/public-calendars/AAA/".to_string(),
        path: "personal".to_string(),
        color: None,
    }
}

fn work() -> Calendar {
    Calendar {
        name: "Work".to_string(),
        url: "https://other/remote.php/dav/public-calendars/BBB".to_string(),
        path: "work".to_string(),
        color: Some("#00FF00".to_string()),
    }
}

fn sample_answer(token: &str, owner: &str, name: &str) -> String {
    format!(
        "<?xml version=\"1.0\"?>\n<d:multistatus xmlns:d=\"DAV:\" xmlns:oc=\"http://owncloud.org/ns\"><d:response><d:href>/remote.php/dav/public-calendars/{}/</d:href><d:propstat><d:prop><d:displayname>{}</d:displayname><d:owner>{}</d:owner></d:prop><d:status>HTTP/1.1 200 OK</d:status></d:propstat></d:response></d:multistatus>",
        token, name, owner
    )
}

fn count(text: &str, pat: &str) -> usize {
    text.matches(pat).count()
}

#[test]
fn collection_of_one_calendar() {
    let calendars = vec![personal()];
    let upstream = vec![Ok(sample_answer("AAA", "/remote.php/dav/principals/bob/", "Bob's"))];
    let response = handle_cals(&calendars, &upstream).unwrap();
    println!("{}", response.body);
    assert_eq!(response.status, 207);
    assert_eq!(
        response.headers,
        vec![("Content-Type".to_string(), "application/xml; charset=utf-8".to_string())]
    );
    assert_eq!(count(&response.body, "<d:response>"), 2);
    assert_eq!(count(&response.body, "<d:href>/cals/personal/</d:href>"), 1);
    assert_eq!(count(&response.body, "<d:displayname>Personal</d:displayname>"), 1);
    assert_eq!(count(&response.body, "<d:owner>/principals/linkal/</d:owner>"), 1);
    assert_eq!(count(&response.body, "bob"), 0);
    assert!(response.body.starts_with("<?xml version=\"1.0\"?>"));
    assert!(response.body.ends_with("</d:multistatus>"));
    assert_eq!(count(&response.body, "<d:href>/cals/</d:href>"), 1);
}

#[test]
fn collection_holds_one_response_more_than_calendars() {
    let calendars = vec![personal(), work()];
    let upstream = vec![
        Ok(sample_answer("AAA", "alice", "A")),
        Ok(sample_answer("BBB", "bob", "B")),
    ];
    let response = handle_cals(&calendars, &upstream).unwrap();
    assert_eq!(count(&response.body, "<d:response>"), 3);
    let first = response.body.find("/cals/personal/").unwrap();
    let second = response.body.find("/cals/work/").unwrap();
    assert!(first < second);
}

#[test]
fn collection_of_no_calendars() {
    let response = handle_cals(&vec![], &vec![]).unwrap();
    assert_eq!(count(&response.body, "<d:response>"), 1);
}

#[test]
fn one_failure_fails_the_collection() {
    let calendars = vec![personal(), work()];
    let upstream = vec![
        Ok(sample_answer("AAA", "alice", "A")),
        Err(LinkalError::UpstreamProtocol(503)),
    ];
    match handle_cals(&calendars, &upstream) {
        Err(LinkalError::UpstreamProtocol(status)) => assert_eq!(status, 503),
        other => panic!("{:?}", other),
    }
}

#[test]
fn first_failure_is_reported() {
    let calendars = vec![personal(), work()];
    let upstream = vec![
        Err(LinkalError::UpstreamTransport("refused".to_string())),
        Err(LinkalError::UpstreamProtocol(500)),
    ];
    match handle_cals(&calendars, &upstream) {
        Err(LinkalError::UpstreamTransport(detail)) => assert_eq!(detail, "refused"),
        other => panic!("{:?}", other),
    }
}

#[test]
fn answer_that_is_no_xml_fails_the_collection() {
    let calendars = vec![personal()];
    let upstream = vec![Ok("not xml".to_string())];
    assert!(matches!(handle_cals(&calendars, &upstream), Err(LinkalError::InternalRewrite(_))));
}

#[test]
fn answer_without_a_response_fails_the_collection() {
    let calendars = vec![personal()];
    let upstream = vec![Ok("<d:multistatus xmlns:d=\"DAV:\">text</d:multistatus>".to_string())];
    assert!(matches!(handle_cals(&calendars, &upstream), Err(LinkalError::InternalRewrite(_))));
}

#[test]
fn answer_with_nested_responses_fails_the_collection() {
    let calendars = vec![personal()];
    let upstream = vec![Ok(
        "<d:multistatus xmlns:d=\"DAV:\"><d:response><d:response>x</d:response></d:response></d:multistatus>"
            .to_string(),
    )];
    assert!(matches!(handle_cals(&calendars, &upstream), Err(LinkalError::InternalRewrite(_))));
}

#[test]
fn missing_answer_fails_the_collection() {
    let calendars = vec![personal(), work()];
    let upstream = vec![Ok(sample_answer("AAA", "alice", "A"))];
    assert!(matches!(handle_cals(&calendars, &upstream), Err(LinkalError::InternalRewrite(_))));
}

#[test]
fn declaration_that_is_not_ascii_fails_the_collection() {
    let calendars = vec![personal()];
    let upstream = vec![Ok("<?xml version=\u{e9}1.0\u{e9}?><a><b/></a>".to_string())];
    assert!(matches!(handle_cals(&calendars, &upstream), Err(LinkalError::InternalRewrite(_))));
}

#[test]
fn proppatch_is_acknowledged_and_not_forwarded() {
    let calendars = vec![personal()];
    match cals_plan("PROPPATCH", &calendars, b"<x/>", None).unwrap() {
        CalsPlan::Answer(response) => {
            assert_eq!(response.status, 207);
            assert!(response.body.contains("<d:status>HTTP/1.1 200 OK</d:status>"));
            assert!(response.body.contains("<d:href>/cals/</d:href>"));
        }
        CalsPlan::Forward(_) => panic!("forwarded"),
    }
}

#[test]
fn propfind_goes_to_every_calendar() {
    let calendars = vec![personal(), work()];
    match cals_plan("PROPFIND", &calendars, b"<d:propfind/>", Some(1)).unwrap() {
        CalsPlan::Forward(requests) => {
            assert_eq!(requests.len(), 2);
            assert_eq!(requests[0].method, "PROPFIND");
            assert_eq!(requests[0].url, "https://host/remote.php/dav/public-calendars/AAA/");
            assert_eq!(requests[1].url, "https://other/remote.php/dav/public-calendars/BBB");
            assert_eq!(
                requests[0].headers,
                vec![
                    ("Depth".to_string(), "1".to_string()),
                    ("Content-Type".to_string(), "application/xml".to_string())
                ]
            );
            assert_eq!(requests[1].body, "<d:propfind/>");
        }
        CalsPlan::Answer(_) => panic!("answered"),
    }
}

#[test]
fn collection_body_must_be_utf8() {
    let calendars = vec![personal()];
    assert!(matches!(
        cals_plan("REPORT", &calendars, &[0xff, 0xfe], Some(0)),
        Err(LinkalError::MalformedRequest(_))
    ));
}

#[test]
fn request_for_one_calendar() {
    let calendars = vec![personal(), work()];
    let request =
        events_request("work", b"<d:href>/cals/BBB/e.ics</d:href>", "REPORT", &calendars, None)
            .unwrap();
    assert_eq!(request.method, "REPORT");
    assert_eq!(request.url, "https://other/remote.php/dav/public-calendars/BBB");
    assert_eq!(request.headers[0], ("Depth".to_string(), "0".to_string()));
    assert_eq!(request.body, "<d:href>/remote.php/dav/public-calendars/BBB/e.ics</d:href>");
}

#[test]
fn request_for_one_calendar_keeps_the_depth() {
    let calendars = vec![personal()];
    let request = events_request("personal", b"", "PROPFIND", &calendars, Some(4294967295)).unwrap();
    assert_eq!(request.headers[0], ("Depth".to_string(), "4294967295".to_string()));
}

#[test]
fn request_for_an_unknown_calendar() {
    let calendars = vec![personal()];
    match events_request("nowhere", b"", "PROPFIND", &calendars, None) {
        Err(LinkalError::UnknownCalendar(path)) => assert_eq!(path, "nowhere"),
        other => panic!("{:?}", other),
    }
}

#[test]
fn request_body_for_one_calendar_must_be_utf8() {
    let calendars = vec![personal()];
    assert!(matches!(
        events_request("personal", &[0xc3, 0x28], "PROPFIND", &calendars, None),
        Err(LinkalError::MalformedRequest(_))
    ));
}

#[test]
fn answer_for_one_calendar_is_rewritten() {
    let calendars = vec![personal(), work()];
    let upstream = Ok(format!(
        "{}<x1:calendar-color xmlns:x1=\"http://apple.com/ns/ical/\">#111111</x1:calendar-color>",
        sample_answer("BBB", "bob", "B")
    ));
    let response = handle_events("work", &calendars, &upstream).unwrap();
    assert_eq!(response.status, 207);
    assert!(response.body.contains("<d:href>/cals/work/</d:href>"));
    assert!(response.body.contains("<d:displayname>Work</d:displayname>"));
    assert!(response.body.contains("<d:owner>/principals/linkal/</d:owner>"));
    assert!(response.body.contains(
        "<x1:calendar-color xmlns:x1=\"http://apple.com/ns/ical/\">#00FF00</x1:calendar-color>"
    ));
}

#[test]
fn answer_for_one_calendar_without_color_keeps_upstream_color() {
    let calendars = vec![personal()];
    let upstream = Ok(
        "<x1:calendar-color xmlns:x1=\"http://apple.com/ns/ical/\">#111111</x1:calendar-color>"
            .to_string(),
    );
    let response = handle_events("personal", &calendars, &upstream).unwrap();
    assert_eq!(
        response.body,
        "<x1:calendar-color xmlns:x1=\"http://apple.com/ns/ical/\">#111111</x1:calendar-color>"
    );
}

#[test]
fn upstream_failure_for_one_calendar_is_handed_on() {
    let calendars = vec![personal()];
    let upstream = Err(LinkalError::UpstreamProtocol(404));
    match handle_events("personal", &calendars, &upstream) {
        Err(LinkalError::UpstreamProtocol(status)) => assert_eq!(status, 404),
        other => panic!("{:?}", other),
    }
}

#[test]
fn answer_for_an_unknown_calendar() {
    let calendars = vec![personal()];
    let upstream = Ok(String::new());
    assert!(matches!(
        handle_events("work", &calendars, &upstream),
        Err(LinkalError::UnknownCalendar(_))
    ));
}

#[test]
fn options_without_calendar_access() {
    let response = handle_options(false);
    assert_eq!(response.status, 207);
    assert_eq!(response.body, "");
    assert_eq!(
        response.headers,
        vec![
            ("Content-Type".to_string(), "text/html; charset=UTF-8".to_string()),
            ("DAV".to_string(), "1, extended-mkcol, access-control".to_string()),
            (
                "ALLOW".to_string(),
                "OPTIONS, GET, HEAD, DELETE, PROPFIND, PUT, PROPPATCH, COPY, MOVE, REPORT"
                    .to_string()
            ),
        ]
    );
}

#[test]
fn options_with_calendar_access() {
    let response = handle_options(true);
    assert_eq!(
        response.headers[1],
        ("DAV".to_string(), "1, extended-mkcol, access-control, calendar-access".to_string())
    );
    assert_eq!(handle_options_cals().headers, response.headers);
}

#[test]
fn well_known_redirects_to_the_root() {
    let response = handle_well_known();
    assert_eq!(response.status, 301);
    assert_eq!(response.headers, vec![("Location".to_string(), "/".to_string())]);
    assert_eq!(response.body, "");
}

#[test]
fn local_propfind_answers_from_the_catalog() {
    let body = b"<d:propfind xmlns:d=\"DAV:\"><d:prop><d:displayname/><d:unknown/></d:prop></d:propfind>";
    let response = handle_propfind_locally(body, "/principals/mock/").unwrap();
    assert_eq!(response.status, 207);
    assert!(response.body.contains("<d:href>/principals/mock/</d:href>"));
    assert_eq!(count(&response.body, "<d:displayname>Linkal</d:displayname>"), 1);
    assert!(response
        .body
        .contains("<d:resourcetype><d:collection/><d:principal/></d:resourcetype>"));
    assert!(!response.body.contains("unknown"));
}

#[test]
fn local_propfind_body_must_be_utf8() {
    assert!(matches!(
        handle_propfind_locally(&[0x80], "/"),
        Err(LinkalError::MalformedRequest(_))
    ));
}

#[test]
fn local_propfind_body_must_be_xml() {
    assert!(matches!(
        handle_propfind_locally(b"<d:propfind><d:prop>", "/"),
        Err(LinkalError::MalformedRequest(_))
    ));
}

#[test]
fn errors_have_a_status_and_a_body() {
    assert_eq!(
        LinkalError::MalformedRequest("bad".to_string()).status_code_body(),
        (400, "bad".to_string())
    );
    assert_eq!(
        LinkalError::UpstreamTransport("down".to_string()).status_code_body(),
        (502, "down".to_string())
    );
    assert_eq!(
        LinkalError::UpstreamProtocol(503).status_code_body(),
        (500, "upstream answered with status 503".to_string())
    );
    assert_eq!(
        LinkalError::UnknownCalendar("x".to_string()).status_code_body(),
        (404, "no calendar at x".to_string())
    );
    assert_eq!(
        LinkalError::InternalRewrite("why".to_string()).status_code_body(),
        (500, "why".to_string())
    );
}

#[test]
fn error_becomes_a_response() {
    let response = into_response(Err(LinkalError::UpstreamProtocol(0)));
    assert_eq!(response.status, 500);
    assert!(response.headers.is_empty());
    assert_eq!(response.body, "upstream answered with status 0");
    let kept = into_response(Ok(handle_well_known()));
    assert_eq!(kept.status, 301);
}

#[test]
fn collection_request_must_name_its_depth() {
    let calendars = vec![personal()];
    assert!(matches!(
        cals_plan("PROPFIND", &calendars, b"<d:propfind/>", None),
        Err(LinkalError::MalformedRequest(_))
    ));
}

#[test]
fn upstream_success_gives_the_body() {
    assert_eq!(upstream_answer(207, "x".to_string()).unwrap(), "x");
    assert_eq!(upstream_answer(200, "y".to_string()).unwrap(), "y");
    assert_eq!(upstream_answer(299, String::new()).unwrap(), "");
}

#[test]
fn upstream_status_that_is_no_success_is_a_protocol_error() {
    for status in [0, 199, 300, 301, 404, 500, 65535] {
        match upstream_answer(status, "body".to_string()) {
            Err(LinkalError::UpstreamProtocol(s)) => assert_eq!(s, status),
            other => panic!("{:?}", other),
        }
    }
}

#[test]
fn collection_answer_from_fragments() {
    let fragments = vec![
        "<d:response><d:href>/cals/a/</d:href><d:owner>bob</d:owner></d:response>".to_string(),
        "<d:response><d:href>/cals/b/</d:href></d:response>".to_string(),
    ];
    let response = collection_response(&fragments).unwrap();
    assert_eq!(response.status, 207);
    assert_eq!(
        response.body,
        "<?xml version=\"1.0\"?>\n                <d:multistatus xmlns:d=\"DAV:\" xmlns:s=\"http://sabredav.org/ns\" xmlns:cal=\"urn:ietf:params:xml:ns:caldav\" xmlns:cs=\"http://calendarserver.org/ns/\" xmlns:oc=\"http://owncloud.org/ns\" xmlns:nc=\"http://nextcloud.org/ns\">\n                <d:response>\n                    <d:href>/cals/</d:href>\n                    <d:propstat>\n                        <d:prop>\n                            <d:resourcetype>\n                                <d:collection/>\n                            </d:resourcetype>\n                        </d:prop>\n                        <d:status>HTTP/1.1 200 OK</d:status>\n                    </d:propstat>\n                </d:response><d:response><d:href>/cals/a/</d:href><d:owner>/principals/linkal/</d:owner></d:response><d:response><d:href>/cals/b/</d:href></d:response></d:multistatus>"
    );
}

#[test]
fn collection_answer_refuses_a_fragment_without_a_response() {
    let fragments = vec!["<d:other/>".to_string()];
    assert!(matches!(collection_response(&fragments), Err(LinkalError::InternalRewrite(_))));
}

#[test]
fn collection_answer_refuses_a_fragment_with_two_responses() {
    let fragments = vec!["<d:response></d:response><d:response></d:response>".to_string()];
    assert!(matches!(collection_response(&fragments), Err(LinkalError::InternalRewrite(_))));
}

#[test]
fn collection_answer_refuses_a_response_lost_in_an_owner() {
    let fragments = vec![
        "<d:response><d:owner></d:response>".to_string(),
        "<d:response></d:owner></d:response>".to_string(),
    ];
    assert!(matches!(collection_response(&fragments), Err(LinkalError::InternalRewrite(_))));
}

#[test]
fn fragment_is_the_first_child_rewritten() {
    let fragment = calendar_fragment(
        &personal(),
        "<d:multistatus xmlns:d=\"DAV:\"><d:response><d:href>/remote.php/dav/public-calendars/AAA/</d:href></d:response><d:response><d:href>/second/</d:href></d:response></d:multistatus>",
    )
    .unwrap();
    assert!(fragment.starts_with("<d:response>"));
    assert!(fragment.contains("<d:href>/cals/personal/</d:href>"));
    assert!(!fragment.contains("second"));
    assert!(!fragment.contains("multistatus"));
}

#[test]
fn fragment_of_what_is_no_document() {
    assert!(calendar_fragment(&personal(), "").is_none());
    assert!(calendar_fragment(&personal(), "<a>").is_none());
    assert!(calendar_fragment(&personal(), "<a/>").is_none());
    assert!(calendar_fragment(&personal(), "<a>text only</a>").is_none());
}

#[test]
fn failure_is_found_at_its_first_index() {
    assert_eq!(find_failure(&vec![]), None);
    assert_eq!(find_failure(&vec![Ok(String::new())]), None);
    assert_eq!(
        find_failure(&vec![
            Ok(String::new()),
            Err(LinkalError::UpstreamProtocol(1)),
            Err(LinkalError::UpstreamProtocol(2))
        ]),
        Some(1)
    );
}

#[test]
fn forwarded_request() {
    let request = forward("REPORT", "https://u/x", 12, "a /cals b cals");
    assert_eq!(request.method, "REPORT");
    assert_eq!(request.url, "https://u/x");
    assert_eq!(
        request.headers,
        vec![
            ("Depth".to_string(), "12".to_string()),
            ("Content-Type".to_string(), "application/xml".to_string())
        ]
    );
    assert_eq!(request.body, "a /remote.php/dav/public-calendars b cals");
}

#[test]
fn refusals_say_why() {
    let calendars = vec![personal()];
    match handle_cals(&calendars, &vec![]) {
        Err(LinkalError::InternalRewrite(detail)) => {
            assert_eq!(detail, "there is not one upstream answer for each calendar")
        }
        other => panic!("{:?}", other),
    }
    match handle_cals(&calendars, &vec![Ok("<a/>".to_string())]) {
        Err(LinkalError::InternalRewrite(detail)) => {
            assert_eq!(detail, "an upstream answer holds no single response element")
        }
        other => panic!("{:?}", other),
    }
    match handle_cals(&calendars, &vec![Ok("<a><b/></a>".to_string())]) {
        Err(LinkalError::InternalRewrite(detail)) => assert_eq!(
            detail,
            "the collection's answer would not hold one response for each calendar"
        ),
        other => panic!("{:?}", other),
    }
    match cals_plan("REPORT", &calendars, b"", None) {
        Err(LinkalError::MalformedRequest(detail)) => {
            assert_eq!(detail, "the request names no depth")
        }
        other => panic!("{:?}", other),
    }
    match events_request("personal", &[0xff], "REPORT", &calendars, None) {
        Err(LinkalError::MalformedRequest(detail)) => {
            assert_eq!(detail, "the request body is not UTF-8")
        }
        other => panic!("{:?}", other),
    }
}

#[test]
fn fragment_of_a_document_that_the_parser_cannot_take() {
    for answer in [
        "<!D><?xml a=\u{e9}\"?><r><d:response/></r>",
        "<r><b></b>></r>",
        "<r><!-- c --><b/></r>",
        "<r><?p x?><b/></r>",
    ] {
        assert!(calendar_fragment(&personal(), answer).is_none(), "{}", answer);
    }
}

#[test]
fn document_type_fails_the_collection() {
    let calendars = vec![personal()];
    let upstream = vec![Ok("<!D><?xml a=\u{e9}\"?><r><d:response/></r>".to_string())];
    assert!(matches!(handle_cals(&calendars, &upstream), Err(LinkalError::InternalRewrite(_))));
}
