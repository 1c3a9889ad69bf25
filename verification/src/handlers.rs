//! What the gateway answers: for itself, for one calendar, and for the
//! collection of all calendars. A handler that needs upstream servers comes in
//! two parts: one says what to send to them, the other makes the answer from
//! what they sent back.

use crate::elements::settled;
use crate::propfind::{
    forwarded_body, generate_response, lemma_owners_are_local, multistatus, option_view,
    owners_rewritten, parse_propfind, prepare_forwarded_body, prop_block, propfind_names,
    replace_owners, rewrite_response, rewritten, OWNER_CLOSE, OWNER_OPEN, OWNER_PRINCIPAL_CLOSE,
    OWNER_PRINCIPAL_OPEN, PRINCIPAL_HREF,
};
use crate::text::{
    chars_equal, chars_of, count_chars, count_occurrences, decimal, decimal_chars, decode, decoded,
    joined, string_of, texts,
};
use crate::utils::{Calendar, LinkalError, Response, ResponseView};
use crate::xml::{first_child_document, is_parser_safe, parser_safe, read_first_child};
use vstd::prelude::*;

verus! {

/// The status of a multistatus answer.
pub const MULTISTATUS: u16 = 207;

/// The status of a permanent redirect.
pub const MOVED_PERMANENTLY: u16 = 301;

pub const CONTENT_TYPE: &'static str = "Content-Type";

pub const XML_CONTENT_TYPE: &'static str = "application/xml; charset=utf-8";

pub const HTML_CONTENT_TYPE: &'static str = "text/html; charset=UTF-8";

/// The content type of what is sent upstream.
pub const UPSTREAM_CONTENT_TYPE: &'static str = "application/xml";

pub const DEPTH: &'static str = "Depth";

pub const DAV: &'static str = "DAV";

pub const ALLOW: &'static str = "ALLOW";

pub const LOCATION: &'static str = "Location";

/// What the gateway can do for any resource.
pub const DAV_BASE: &'static str = "1, extended-mkcol, access-control";

/// What the gateway can do for a calendar resource.
pub const DAV_CALENDAR: &'static str = "1, extended-mkcol, access-control, calendar-access";

/// The methods that the gateway names as allowed.
pub const ALLOWED_METHODS: &'static str =
    "OPTIONS, GET, HEAD, DELETE, PROPFIND, PUT, PROPPATCH, COPY, MOVE, REPORT";

/// The method that changes properties, which is never sent upstream.
pub const PROPPATCH: &'static str = "PROPPATCH";

/// What opens the answer for the collection: the document's head and the
/// response for the collection itself.
pub const COLLECTION_HEAD: &'static str = "<?xml version=\"1.0\"?>\n                <d:multistatus xmlns:d=\"DAV:\" xmlns:s=\"http://sabredav.org/ns\" xmlns:cal=\"urn:ietf:params:xml:ns:caldav\" xmlns:cs=\"http://calendarserver.org/ns/\" xmlns:oc=\"http://owncloud.org/ns\" xmlns:nc=\"http://nextcloud.org/ns\">\n                <d:response>\n                    <d:href>/cals/</d:href>\n                    <d:propstat>\n                        <d:prop>\n                            <d:resourcetype>\n                                <d:collection/>\n                            </d:resourcetype>\n                        </d:prop>\n                        <d:status>HTTP/1.1 200 OK</d:status>\n                    </d:propstat>\n                </d:response>";

/// What closes the answer for the collection.
pub const COLLECTION_TAIL: &'static str = "</d:multistatus>";

/// The opening tag of one response in a multistatus document.
pub const RESPONSE_OPEN: &'static str = "<d:response>";

/// The answer to a change of the collection's properties: the change is
/// acknowledged and goes nowhere.
pub const PATCH_ACKNOWLEDGED: &'static str = "<?xml version=\"1.0\"?>\n<d:multistatus xmlns:d=\"DAV:\">\n<d:response>\n<d:href>/cals/</d:href>\n<d:propstat>\n<d:prop/>\n<d:status>HTTP/1.1 200 OK</d:status>\n</d:propstat>\n</d:response>\n</d:multistatus>";

/// Why a response for the collection cannot be put together.
pub const NO_SINGLE_RESPONSE: &'static str = "an upstream answer holds no single response element";

pub const WRONG_RESPONSE_COUNT: &'static str =
    "the collection's answer would not hold one response for each calendar";

pub const WRONG_ANSWER_COUNT: &'static str = "there is not one upstream answer for each calendar";

pub const NOT_UTF8: &'static str = "the request body is not UTF-8";

pub const NO_DEPTH: &'static str = "the request names no depth";

fn header(name: &str, value: &str) -> (pair: (String, String))
    ensures
        pair.0@ == name@,
        pair.1@ == value@,
{
    (String::from_str(name), String::from_str(value))
}

/// A multistatus answer with the XML document `body`.
pub open spec fn xml_reply(body: Seq<char>) -> ResponseView {
    ResponseView {
        status: MULTISTATUS,
        headers: seq![(CONTENT_TYPE@, XML_CONTENT_TYPE@)],
        body,
    }
}

fn xml_response(body: String) -> (response: Response)
    ensures
        response@ == xml_reply(body@),
{
    let mut headers: Vec<(String, String)> = Vec::new();
    headers.push(header(CONTENT_TYPE, XML_CONTENT_TYPE));
    let response = Response { status: MULTISTATUS, headers, body };
    assert(response@.headers =~= seq![(CONTENT_TYPE@, XML_CONTENT_TYPE@)]);
    response
}

/// The answer for the gateway's own resource at `path` to the request body
/// `body`: `None` where the body is not UTF-8 or asks for no properties in
/// well-formed XML.
pub open spec fn local_answer(body: Seq<u8>, path: Seq<char>) -> Option<ResponseView> {
    match decoded(body) {
        Some(text) => match propfind_names(text) {
            Some(names) => Some(xml_reply(multistatus(path, prop_block(names, true)))),
            None => None,
        },
        None => None,
    }
}

/// Answers a PROPFIND for a resource of the gateway itself, as a principal
/// resource, from the property catalog alone.
pub fn handle_propfind_locally(req_body: &[u8], path: &str) -> (reply: Result<
    Response,
    LinkalError,
>)
    ensures
        match reply {
            Ok(response) => local_answer(req_body@, path@) == Some(response@),
            Err(e) => e matches LinkalError::MalformedRequest(detail) && local_answer(
                req_body@,
                path@,
            ) is None && (decoded(req_body@) is None ==> detail@ == NOT_UTF8@),
        },
{
    let text = match decode(req_body) {
        Some(text) => text,
        None => { return Err(LinkalError::MalformedRequest(String::from_str(NOT_UTF8))); },
    };
    match parse_propfind(text) {
        Ok(props) => Ok(xml_response(generate_response(props, path, true))),
        Err(e) => Err(e),
    }
}

/// The path of the root.
pub const ROOT_PATH: &'static str = "/";

/// Describes the root: a principal resource, with no further properties.
pub fn handle_root() -> (response: Response)
    ensures
        response@ == xml_reply(multistatus(ROOT_PATH@, prop_block(Seq::empty(), true))),
{
    let props: Vec<String> = Vec::new();
    assert(texts(props@) =~= Seq::<Seq<char>>::empty());
    xml_response(generate_response(props, ROOT_PATH, true))
}

/// The path of the principal `name`.
pub open spec fn principal_path(name: Seq<char>) -> Seq<char> {
    "/principals/"@ + name + "/"@
}

/// Makes the path of the principal `name`.
pub fn principal_path_of(name: &str) -> (path: String)
    ensures
        path@ == principal_path(name@),
{
    let mut path = String::from_str("/principals/");
    path.append(name);
    path.append("/");
    path
}

/// The redirect from the well-known CalDAV address to the root.
pub open spec fn well_known_reply() -> ResponseView {
    ResponseView {
        status: MOVED_PERMANENTLY,
        headers: seq![(LOCATION@, "/"@)],
        body: Seq::empty(),
    }
}

/// Redirects a client from the well-known CalDAV address to the root.
pub fn handle_well_known() -> (response: Response)
    ensures
        response@ == well_known_reply(),
{
    let mut headers: Vec<(String, String)> = Vec::new();
    headers.push(header(LOCATION, "/"));
    let response = Response { status: MOVED_PERMANENTLY, headers, body: String::new() };
    assert(response@.headers =~= seq![(LOCATION@, "/"@)]);
    response
}

/// The answer to OPTIONS: no body, and headers that name what the gateway can
/// do, calendar access among it where `calendar_access` is set.
pub open spec fn options_reply(calendar_access: bool) -> ResponseView {
    ResponseView {
        status: MULTISTATUS,
        headers: seq![
            (CONTENT_TYPE@, HTML_CONTENT_TYPE@),
            (DAV@, if calendar_access { DAV_CALENDAR@ } else { DAV_BASE@ }),
            (ALLOW@, ALLOWED_METHODS@),
        ],
        body: Seq::empty(),
    }
}

/// Answers OPTIONS.
pub fn handle_options(calendar_access: bool) -> (response: Response)
    ensures
        response@ == options_reply(calendar_access),
{
    let mut headers: Vec<(String, String)> = Vec::new();
    headers.push(header(CONTENT_TYPE, HTML_CONTENT_TYPE));
    if calendar_access {
        headers.push(header(DAV, DAV_CALENDAR));
    } else {
        headers.push(header(DAV, DAV_BASE));
    }
    headers.push(header(ALLOW, ALLOWED_METHODS));
    let response = Response { status: MULTISTATUS, headers, body: String::new() };
    assert(response@.headers =~= options_reply(calendar_access).headers);
    response
}

/// Answers OPTIONS for the collection of calendars, which always names
/// calendar access.
pub fn handle_options_cals() -> (response: Response)
    ensures
        response@ == options_reply(true),
{
    handle_options(true)
}

/// One request to an upstream server.
#[derive(Debug)]
pub struct UpstreamRequest {
    pub method: String,
    pub url: String,
    pub headers: Vec<(String, String)>,
    pub body: String,
}

/// An upstream request as plain values.
pub struct UpstreamRequestView {
    pub method: Seq<char>,
    pub url: Seq<char>,
    pub headers: Seq<(Seq<char>, Seq<char>)>,
    pub body: Seq<char>,
}

impl UpstreamRequest {
    pub open spec fn view(&self) -> UpstreamRequestView {
        UpstreamRequestView {
            method: self.method@,
            url: self.url@,
            headers: self.headers@.map_values(|h: (String, String)| (h.0@, h.1@)),
            body: self.body@,
        }
    }
}

/// The request that hands a client's request on to the calendar at `url`: the
/// same method, the depth in decimal, XML as content type, and the body with
/// the gateway's namespace turned into the upstream one.
pub open spec fn forwarded(
    method: Seq<char>,
    url: Seq<char>,
    depth: u32,
    body: Seq<char>,
) -> UpstreamRequestView {
    UpstreamRequestView {
        method,
        url,
        headers: seq![
            (DEPTH@, decimal(depth as nat)),
            (CONTENT_TYPE@, UPSTREAM_CONTENT_TYPE@),
        ],
        body: forwarded_body(body),
    }
}

/// Makes the request that hands a client's request on to the calendar at
/// `url`.
pub fn forward(method: &str, url: &str, depth: u32, body: &str) -> (request: UpstreamRequest)
    ensures
        request@ == forwarded(method@, url@, depth, body@),
{
    let mut headers: Vec<(String, String)> = Vec::new();
    let depth_text = string_of(&decimal_chars(depth));
    headers.push(header(DEPTH, depth_text.as_str()));
    headers.push(header(CONTENT_TYPE, UPSTREAM_CONTENT_TYPE));
    let request = UpstreamRequest {
        method: String::from_str(method),
        url: String::from_str(url),
        headers,
        body: prepare_forwarded_body(body),
    };
    assert(request@.headers =~= forwarded(method@, url@, depth, body@).headers);
    request
}

/// Whether an upstream server answered with success.
pub open spec fn is_success(status: u16) -> bool {
    200 <= status < 300
}

/// What an upstream answer with `status` and `body` is to the gateway: the
/// body where the status is a success, multistatus among them, and a protocol
/// error with that status otherwise.
pub fn upstream_answer(status: u16, body: String) -> (answer: Result<String, LinkalError>)
    ensures
        answer == if is_success(status) {
            Ok::<String, LinkalError>(body)
        } else {
            Err::<String, LinkalError>(LinkalError::UpstreamProtocol(status))
        },
{
    if 200 <= status && status < 300 {
        Ok(body)
    } else {
        Err(LinkalError::UpstreamProtocol(status))
    }
}

/// The index of the first calendar at or after `from` that is exposed under
/// `path`.
pub open spec fn position_from(calendars: Seq<Calendar>, path: Seq<char>, from: int) -> Option<
    int,
>
    decreases calendars.len() - from,
{
    if from < 0 || from >= calendars.len() {
        None
    } else if calendars[from].path@ == path {
        Some(from)
    } else {
        position_from(calendars, path, from + 1)
    }
}

/// The index of the calendar that is exposed under `path`.
pub open spec fn position_of(calendars: Seq<Calendar>, path: Seq<char>) -> Option<int> {
    position_from(calendars, path, 0)
}

/// Finds the calendar that is exposed under `path`.
pub fn find_calendar(calendars: &Vec<Calendar>, path: &str) -> (found: Option<usize>)
    ensures
        match found {
            Some(i) => position_of(calendars@, path@) == Some(i as int) && i < calendars.len(),
            None => position_of(calendars@, path@) is None,
        },
{
    let wanted = chars_of(path);
    let mut i: usize = 0;
    while i < calendars.len()
        invariant
            i <= calendars.len(),
            wanted@ == path@,
            position_of(calendars@, path@) == position_from(calendars@, path@, i as int),
        decreases calendars.len() - i,
    {
        if chars_equal(&chars_of(calendars[i].path.as_str()), &wanted) {
            return Some(i);
        }
        i = i + 1;
    }
    None
}

/// The depth of a request that names none.
pub open spec fn depth_or_default(depth: Option<u32>) -> u32 {
    match depth {
        Some(d) => d,
        None => 0,
    }
}

/// What is sent upstream for a request to the calendar under `path`: `None`
/// where no calendar is exposed under `path`, or the body is not UTF-8.
pub open spec fn events_forwarded(
    path: Seq<char>,
    body: Seq<u8>,
    method: Seq<char>,
    calendars: Seq<Calendar>,
    depth: Option<u32>,
) -> Option<UpstreamRequestView> {
    match (position_of(calendars, path), decoded(body)) {
        (Some(i), Some(text)) => Some(
            forwarded(method, calendars[i].url@, depth_or_default(depth), text),
        ),
        _ => None,
    }
}

/// Says what to send upstream for a request to the calendar under `path`: the
/// client's method and body, and its depth, 0 where it names none. An unknown
/// path is an error; for a known path, a body that is not UTF-8 is one.
pub fn events_request(
    path: &str,
    req_body: &[u8],
    method: &str,
    calendars: &Vec<Calendar>,
    depth: Option<u32>,
) -> (request: Result<UpstreamRequest, LinkalError>)
    ensures
        match request {
            Ok(r) => events_forwarded(path@, req_body@, method@, calendars@, depth) == Some(r@),
            Err(e) => if position_of(calendars@, path@) is None {
                e matches LinkalError::UnknownCalendar(p) && p@ == path@
            } else {
                e matches LinkalError::MalformedRequest(detail) && detail@ == NOT_UTF8@
                    && decoded(req_body@) is None
            },
        },
{
    let i = match find_calendar(calendars, path) {
        Some(i) => i,
        None => { return Err(LinkalError::UnknownCalendar(String::from_str(path))); },
    };
    let text = match decode(req_body) {
        Some(text) => text,
        None => { return Err(LinkalError::MalformedRequest(String::from_str(NOT_UTF8))); },
    };
    let depth: u32 = match depth {
        Some(d) => d,
        None => 0,
    };
    Ok(forward(method, calendars[i].url.as_str(), depth, text))
}

/// An upstream response as the gateway hands it on for `calendar`.
pub open spec fn rewritten_for(calendar: Calendar, response: Seq<char>) -> Seq<char> {
    rewritten(
        calendar.url@,
        calendar.path@,
        calendar.name@,
        option_view(calendar.color),
        response,
    )
}

/// A copy of `error`.
pub fn duplicate(error: &LinkalError) -> (copy: LinkalError)
    ensures
        copy == *error,
{
    match error {
        LinkalError::MalformedRequest(detail) => LinkalError::MalformedRequest(detail.clone()),
        LinkalError::UpstreamTransport(detail) => LinkalError::UpstreamTransport(detail.clone()),
        LinkalError::UpstreamProtocol(status) => LinkalError::UpstreamProtocol(*status),
        LinkalError::UnknownCalendar(path) => LinkalError::UnknownCalendar(path.clone()),
        LinkalError::InternalRewrite(detail) => LinkalError::InternalRewrite(detail.clone()),
    }
}

/// Answers a request to the calendar under `path` from what its upstream
/// server sent back: the upstream document, rewritten for that calendar. An
/// unknown path is an error; an upstream failure is handed on as it is.
pub fn handle_events(
    path: &str,
    calendars: &Vec<Calendar>,
    upstream: &Result<String, LinkalError>,
) -> (reply: Result<Response, LinkalError>)
    ensures
        match position_of(calendars@, path@) {
            None => reply matches Err(LinkalError::UnknownCalendar(p)) && p@ == path@,
            Some(i) => match *upstream {
                Ok(body) => reply matches Ok(response) && response@ == xml_reply(
                    rewritten_for(calendars@[i], body@),
                ),
                Err(e) => reply == Err::<Response, LinkalError>(e),
            },
        },
{
    let i = match find_calendar(calendars, path) {
        Some(i) => i,
        None => { return Err(LinkalError::UnknownCalendar(String::from_str(path))); },
    };
    match upstream {
        Ok(body) => Ok(xml_response(rewrite_response(&calendars[i], body.as_str()))),
        Err(e) => Err(duplicate(e)),
    }
}

/// What the gateway does with a request to the collection of calendars.
#[derive(Debug)]
pub enum CalsPlan {
    /// The gateway answers by itself.
    Answer(Response),
    /// The requests go upstream, one for each calendar, in the calendars'
    /// order.
    Forward(Vec<UpstreamRequest>),
}

/// The requests as plain values.
pub open spec fn requests_view(requests: Seq<UpstreamRequest>) -> Seq<UpstreamRequestView> {
    requests.map_values(|r: UpstreamRequest| r@)
}

/// The requests that hand a client's request on to each of `calendars`.
pub open spec fn all_forwarded(
    method: Seq<char>,
    calendars: Seq<Calendar>,
    depth: u32,
    body: Seq<char>,
) -> Seq<UpstreamRequestView> {
    Seq::new(calendars.len(), |i: int| forwarded(method, calendars[i].url@, depth, body))
}

/// The requests that hand a client's request with the body `body` on to each
/// of `calendars`: `None` where the body is not UTF-8.
pub open spec fn cals_forwarded(
    method: Seq<char>,
    calendars: Seq<Calendar>,
    body: Seq<u8>,
    depth: u32,
) -> Option<Seq<UpstreamRequestView>> {
    match decoded(body) {
        Some(text) => Some(all_forwarded(method, calendars, depth, text)),
        None => None,
    }
}

/// Says what to do with a request to the collection of calendars. A change of
/// properties is acknowledged at once and sent nowhere. Any other request goes
/// to every calendar with the client's method, depth and body; it has to name
/// its depth, and its body has to be UTF-8.
pub fn cals_plan(
    method: &str,
    calendars: &Vec<Calendar>,
    req_body: &[u8],
    depth: Option<u32>,
) -> (plan: Result<CalsPlan, LinkalError>)
    ensures
        match plan {
            Ok(CalsPlan::Answer(response)) => method@ == PROPPATCH@ && response@ == xml_reply(
                PATCH_ACKNOWLEDGED@,
            ),
            Ok(CalsPlan::Forward(requests)) => method@ != PROPPATCH@ && depth is Some
                && cals_forwarded(method@, calendars@, req_body@, depth->0) == Some(
                requests_view(requests@),
            ),
            Err(e) => e matches LinkalError::MalformedRequest(detail) && method@ != PROPPATCH@ && (
            if depth is None {
                detail@ == NO_DEPTH@
            } else {
                decoded(req_body@) is None && detail@ == NOT_UTF8@
            }),
        },
{
    if chars_equal(&chars_of(method), &chars_of(PROPPATCH)) {
        return Ok(CalsPlan::Answer(xml_response(String::from_str(PATCH_ACKNOWLEDGED))));
    }
    let depth: u32 = match depth {
        Some(depth) => depth,
        None => { return Err(LinkalError::MalformedRequest(String::from_str(NO_DEPTH))); },
    };
    let text = match decode(req_body) {
        Some(text) => text,
        None => { return Err(LinkalError::MalformedRequest(String::from_str(NOT_UTF8))); },
    };
    let mut requests: Vec<UpstreamRequest> = Vec::new();
    let mut i: usize = 0;
    while i < calendars.len()
        invariant
            i <= calendars.len(),
            requests@.len() == i,
            forall|k: int|
                0 <= k < i ==> (#[trigger] requests@[k])@ == forwarded(
                    method@,
                    calendars@[k].url@,
                    depth,
                    text@,
                ),
        decreases calendars.len() - i,
    {
        requests.push(forward(method, calendars[i].url.as_str(), depth, text));
        i = i + 1;
    }
    assert(requests_view(requests@) =~= all_forwarded(method@, calendars@, depth, text@));
    Ok(CalsPlan::Forward(requests))
}

/// The index of the first upstream answer at or after `from` that is a
/// failure.
pub open spec fn failure_from(upstream: Seq<Result<String, LinkalError>>, from: int) -> Option<
    int,
>
    decreases upstream.len() - from,
{
    if from < 0 || from >= upstream.len() {
        None
    } else if upstream[from] is Err {
        Some(from)
    } else {
        failure_from(upstream, from + 1)
    }
}

/// The index of the first upstream answer that is a failure.
pub open spec fn first_failure(upstream: Seq<Result<String, LinkalError>>) -> Option<int> {
    failure_from(upstream, 0)
}

/// The body of an upstream answer; nothing for a failure.
pub open spec fn body_of(answer: Result<String, LinkalError>) -> Seq<char> {
    match answer {
        Ok(body) => body@,
        Err(_) => Seq::empty(),
    }
}

/// The one response that the collection's answer holds for `calendar`, made
/// from the upstream answer `body`: the answer is rewritten for the calendar,
/// and the first element inside its root is taken. `None` where the parser
/// cannot be given the rewritten answer or finds no such element.
pub open spec fn fragment_of(calendar: Calendar, body: Seq<char>) -> Option<Seq<char>> {
    let document = rewritten_for(calendar, body);
    if !parser_safe(document) {
        None
    } else {
        match first_child_document(document) {
            Some(Some(fragment)) => Some(fragment),
            _ => None,
        }
    }
}

/// Makes the one response that the collection's answer holds for `calendar`
/// from the upstream answer `body`.
pub fn calendar_fragment(calendar: &Calendar, body: &str) -> (fragment: Option<String>)
    ensures
        match fragment {
            Some(f) => fragment_of(*calendar, body@) == Some(f@),
            None => fragment_of(*calendar, body@) is None,
        },
{
    let document = rewrite_response(calendar, body);
    if !is_parser_safe(&chars_of(document.as_str())) {
        return None;
    }
    match read_first_child(document.as_str()) {
        Ok(Some(fragment)) => Some(fragment),
        _ => None,
    }
}

/// The responses for the first `n` calendars, in the calendars' order; `None`
/// where one of them cannot be made.
pub open spec fn fragments_of(
    calendars: Seq<Calendar>,
    upstream: Seq<Result<String, LinkalError>>,
    n: int,
) -> Option<Seq<Seq<char>>>
    decreases n,
{
    if n <= 0 {
        Some(Seq::empty())
    } else {
        match (
            fragments_of(calendars, upstream, n - 1),
            fragment_of(calendars[n - 1], body_of(upstream[n - 1])),
        ) {
            (Some(before), Some(fragment)) => Some(before.push(fragment)),
            _ => None,
        }
    }
}

/// The collection's document around the calendars' responses `fragments`: the
/// response for the collection itself, then the calendars' responses one
/// behind the other, with the gateway's principal as every owner.
pub open spec fn envelope(fragments: Seq<Seq<char>>) -> Seq<char> {
    owners_rewritten(COLLECTION_HEAD@ + joined(fragments) + COLLECTION_TAIL@)
}

/// The collection's document around `fragments`, where it holds exactly one
/// response more than there are fragments; `None` where it would not.
pub open spec fn collection_document(fragments: Seq<Seq<char>>) -> Option<Seq<char>> {
    if count_occurrences(envelope(fragments), RESPONSE_OPEN@) == fragments.len() + 1 {
        Some(envelope(fragments))
    } else {
        None
    }
}

/// Puts the collection's answer together from the calendars' responses. The
/// answer holds the response for the collection and one response for each
/// calendar, and no other: fragments that would make it hold more or fewer
/// are refused.
pub fn collection_response(fragments: &Vec<String>) -> (reply: Result<Response, LinkalError>)
    ensures
        match reply {
            Ok(response) => collection_document(texts(fragments@)) == Some(response@.body)
                && response@ == xml_reply(response@.body),
            Err(e) => e matches LinkalError::InternalRewrite(detail) && detail@
                == WRONG_RESPONSE_COUNT@ && collection_document(texts(fragments@)) is None,
        },
{
    let mut document = String::new();
    document.append(COLLECTION_HEAD);
    let mut i: usize = 0;
    assert(texts(fragments@).subrange(0, 0) =~= Seq::<Seq<char>>::empty());
    while i < fragments.len()
        invariant
            i <= fragments.len(),
            document@ == COLLECTION_HEAD@ + joined(texts(fragments@).subrange(0, i as int)),
        decreases fragments.len() - i,
    {
        document.append(fragments[i].as_str());
        i = i + 1;
        proof {
            let upto = texts(fragments@).subrange(0, i as int);
            assert(upto.drop_last() =~= texts(fragments@).subrange(0, i - 1));
            assert(document@ =~= COLLECTION_HEAD@ + joined(upto));
        }
    }
    assert(texts(fragments@).subrange(0, fragments@.len() as int) =~= texts(fragments@));
    document.append(COLLECTION_TAIL);
    let body = replace_owners(document.as_str());
    proof {
        reveal_strlit("<d:response>");
    }
    let marks = count_chars(&chars_of(body.as_str()), &chars_of(RESPONSE_OPEN));
    if marks < fragments.len() || marks - fragments.len() != 1 {
        return Err(LinkalError::InternalRewrite(String::from_str(WRONG_RESPONSE_COUNT)));
    }
    Ok(xml_response(body))
}

/// The collection's answer made from one upstream answer for each calendar.
/// `None` where there is not one answer for each calendar, where a calendar's
/// response cannot be made, or where the document would not hold exactly one
/// response more than there are calendars.
pub open spec fn aggregated(
    calendars: Seq<Calendar>,
    upstream: Seq<Result<String, LinkalError>>,
) -> Option<Seq<char>> {
    if upstream.len() != calendars.len() {
        None
    } else {
        match fragments_of(calendars, upstream, calendars.len() as int) {
            Some(fragments) => collection_document(fragments),
            None => None,
        }
    }
}

/// Why no answer for the collection is made from answers that are no
/// failures.
pub open spec fn refusal(
    calendars: Seq<Calendar>,
    upstream: Seq<Result<String, LinkalError>>,
) -> Seq<char> {
    if upstream.len() != calendars.len() {
        WRONG_ANSWER_COUNT@
    } else if fragments_of(calendars, upstream, calendars.len() as int) is None {
        NO_SINGLE_RESPONSE@
    } else {
        WRONG_RESPONSE_COUNT@
    }
}

/// Finds the first upstream answer that is a failure.
pub fn find_failure(upstream: &Vec<Result<String, LinkalError>>) -> (found: Option<usize>)
    ensures
        match found {
            Some(i) => first_failure(upstream@) == Some(i as int) && i < upstream.len()
                && upstream@[i as int] is Err,
            None => first_failure(upstream@) is None && forall|k: int|
                0 <= k < upstream.len() ==> upstream@[k] is Ok,
        },
{
    let mut i: usize = 0;
    while i < upstream.len()
        invariant
            i <= upstream.len(),
            first_failure(upstream@) == failure_from(upstream@, i as int),
            forall|k: int| 0 <= k < i ==> upstream@[k] is Ok,
        decreases upstream.len() - i,
    {
        if upstream[i].is_err() {
            return Some(i);
        }
        i = i + 1;
    }
    None
}

/// Answers a request to the collection of calendars from what the upstream
/// servers sent back, `upstream[i]` for `calendars[i]`. Where any of them
/// failed, the request fails with the first failure, and no part of an answer
/// is given. Else the answer holds the response for the collection and one
/// response for each calendar, and nothing else: where that cannot be made
/// from what came back, the request fails too.
pub fn handle_cals(calendars: &Vec<Calendar>, upstream: &Vec<Result<String, LinkalError>>) -> (reply:
    Result<Response, LinkalError>)
    ensures
        match reply {
            Ok(response) => first_failure(upstream@) is None && aggregated(calendars@, upstream@)
                == Some(response@.body) && response@ == xml_reply(response@.body)
                && count_occurrences(response@.body, RESPONSE_OPEN@) == calendars.len() + 1,
            Err(e) => match first_failure(upstream@) {
                Some(i) => upstream@[i] == Err::<String, LinkalError>(e),
                None => e matches LinkalError::InternalRewrite(detail) && detail@ == refusal(
                    calendars@,
                    upstream@,
                ) && aggregated(calendars@, upstream@) is None,
            },
        },
        (exists|i: int| 0 <= i < upstream.len() && upstream@[i] is Err) ==> reply is Err,
{
    match find_failure(upstream) {
        Some(i) => {
            return match &upstream[i] {
                Err(e) => Err(duplicate(e)),
                Ok(_) => vstd::pervasive::unreached(),
            };
        },
        None => {},
    }
    if upstream.len() != calendars.len() {
        return Err(LinkalError::InternalRewrite(String::from_str(WRONG_ANSWER_COUNT)));
    }
    let mut fragments: Vec<String> = Vec::new();
    let mut i: usize = 0;
    assert(texts(fragments@) =~= Seq::<Seq<char>>::empty());
    while i < calendars.len()
        invariant
            i <= calendars.len(),
            upstream.len() == calendars.len(),
            first_failure(upstream@) is None,
            forall|k: int| 0 <= k < upstream.len() ==> upstream@[k] is Ok,
            fragments@.len() == i,
            fragments_of(calendars@, upstream@, i as int) == Some(texts(fragments@)),
        decreases calendars.len() - i,
    {
        let made = match &upstream[i] {
            Ok(body) => calendar_fragment(&calendars[i], body.as_str()),
            Err(_) => vstd::pervasive::unreached(),
        };
        match made {
            Some(fragment) => {
                let ghost before = texts(fragments@);
                fragments.push(fragment);
                assert(texts(fragments@) =~= before.push(fragment@));
            },
            None => {
                proof {
                    assert(fragments_of(calendars@, upstream@, i + 1) is None);
                    lemma_fragments_fail(calendars@, upstream@, i + 1, calendars@.len() as int);
                }
                return Err(LinkalError::InternalRewrite(String::from_str(NO_SINGLE_RESPONSE)));
            },
        }
        i = i + 1;
    }
    collection_response(&fragments)
}

/// Where the responses for the first `n` calendars cannot be made, those for
/// more of them cannot be made either.
pub proof fn lemma_fragments_fail(
    calendars: Seq<Calendar>,
    upstream: Seq<Result<String, LinkalError>>,
    n: int,
    m: int,
)
    requires
        n <= m,
        fragments_of(calendars, upstream, n) is None,
    ensures
        fragments_of(calendars, upstream, m) is None,
    decreases m - n,
{
    if n < m {
        lemma_fragments_fail(calendars, upstream, n, m - 1);
    }
}

/// In the collection's answer every owner is the gateway's principal,
/// whatever the upstream servers sent.
pub proof fn lemma_collection_owners_are_local(
    calendars: Seq<Calendar>,
    upstream: Seq<Result<String, LinkalError>>,
)
    requires
        aggregated(calendars, upstream) is Some,
    ensures
        settled(aggregated(calendars, upstream)->0, OWNER_OPEN@, OWNER_CLOSE@, PRINCIPAL_HREF@),
        settled(
            aggregated(calendars, upstream)->0,
            OWNER_PRINCIPAL_OPEN@,
            OWNER_PRINCIPAL_CLOSE@,
            PRINCIPAL_HREF@,
        ),
{
    let fragments = fragments_of(calendars, upstream, calendars.len() as int)->0;
    lemma_owners_are_local(COLLECTION_HEAD@ + joined(fragments) + COLLECTION_TAIL@);
}

} // verus!
