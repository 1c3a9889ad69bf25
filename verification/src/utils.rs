//! The calendars behind the gateway and the errors of a request.
//!
//! The registry is a vector of calendars, in the order of the file that lists
//! them. No two of its calendars are exposed under the same path segment.

use crate::json::{json_error_text, json_parsed, member, member_of, read_json, Json, Member};
use crate::text::{chars_equal, chars_of, decimal, decimal_chars, push_range, string_of};
use vstd::prelude::*;

verus! {

/// One upstream calendar: the name it is shown under, the absolute URL of its
/// collection, the path segment under which the gateway exposes it, and the
/// colour it is shown in, if one is configured.
#[derive(Clone, Debug)]
pub struct Calendar {
    pub name: String,
    pub url: String,
    pub path: String,
    pub color: Option<String>,
}

/// A calendar as plain values.
pub struct CalendarView {
    pub name: Seq<char>,
    pub url: Seq<char>,
    pub path: Seq<char>,
    pub color: Option<Seq<char>>,
}

impl Calendar {
    pub open spec fn view(&self) -> CalendarView {
        CalendarView {
            name: self.name@,
            url: self.url@,
            path: self.path@,
            color: match self.color {
                Some(c) => Some(c@),
                None => None,
            },
        }
    }
}

/// The calendars of a registry as plain values.
pub open spec fn views(registry: Seq<Calendar>) -> Seq<CalendarView> {
    registry.map_values(|c: Calendar| c@)
}

/// No two calendars of the registry are exposed under the same path segment.
pub open spec fn unique_paths(registry: Seq<CalendarView>) -> bool {
    forall|i: int, j: int|
        0 <= i < j < registry.len() ==> (#[trigger] registry[i]).path != (
        #[trigger] registry[j]).path
}

/// Why a registry cannot be read from its file.
#[derive(Debug)]
pub enum RegistryError {
    /// The file is no JSON document. Holds the parser's words.
    NotJson(String),
    /// The document has no object under `calendars`.
    NoCalendars,
    /// A calendar's colour is no text. Holds the calendar's URL.
    ColorNotText(String),
}

/// Why a request fails. Every error ends the request: nothing is retried, and
/// no partial answer is given.
#[derive(Debug)]
pub enum LinkalError {
    /// The request body is not UTF-8, not well-formed XML, or names no
    /// properties. Holds the parser's words, where it gave any.
    MalformedRequest(String),
    /// An upstream server could not be reached. Holds the transport's words.
    UpstreamTransport(String),
    /// An upstream server answered with a status that is no success. Holds
    /// that status.
    UpstreamProtocol(u16),
    /// No calendar is configured under the path segment that it holds.
    UnknownCalendar(String),
    /// An upstream response could not be rewritten safely. Holds the reason.
    InternalRewrite(String),
}

/// What the gateway sends back: a status, headers as pairs of name and value,
/// and a body.
#[derive(Debug)]
pub struct Response {
    pub status: u16,
    pub headers: Vec<(String, String)>,
    pub body: String,
}

/// A response as plain values.
pub struct ResponseView {
    pub status: u16,
    pub headers: Seq<(Seq<char>, Seq<char>)>,
    pub body: Seq<char>,
}

impl Response {
    pub open spec fn view(&self) -> ResponseView {
        ResponseView {
            status: self.status,
            headers: self.headers@.map_values(|h: (String, String)| (h.0@, h.1@)),
            body: self.body@,
        }
    }
}

/// What stands before the status in the body of a protocol error.
pub const PROTOCOL_ERROR_PREFIX: &'static str = "upstream answered with status ";

/// What stands before the path segment in the body of an unknown calendar.
pub const UNKNOWN_CALENDAR_PREFIX: &'static str = "no calendar at ";

impl LinkalError {
    /// The HTTP status that answers this error.
    pub open spec fn status_code(&self) -> u16 {
        match self {
            LinkalError::MalformedRequest(_) => 400,
            LinkalError::UpstreamTransport(_) => 502,
            LinkalError::UpstreamProtocol(_) => 500,
            LinkalError::UnknownCalendar(_) => 404,
            LinkalError::InternalRewrite(_) => 500,
        }
    }

    /// The short text that tells the client what went wrong.
    pub open spec fn diagnostic(&self) -> Seq<char> {
        match self {
            LinkalError::MalformedRequest(detail) => detail@,
            LinkalError::UpstreamTransport(detail) => detail@,
            LinkalError::UpstreamProtocol(status) => PROTOCOL_ERROR_PREFIX@ + decimal(
                *status as nat,
            ),
            LinkalError::UnknownCalendar(path) => UNKNOWN_CALENDAR_PREFIX@ + path@,
            LinkalError::InternalRewrite(detail) => detail@,
        }
    }

    /// The status and the body that answer this error.
    pub fn status_code_body(&self) -> (answer: (u16, String))
        ensures
            answer.0 == self.status_code(),
            answer.1@ == self.diagnostic(),
    {
        match self {
            LinkalError::MalformedRequest(detail) => (400, detail.clone()),
            LinkalError::UpstreamTransport(detail) => (502, detail.clone()),
            LinkalError::UpstreamProtocol(status) => {
                let mut body = chars_of(PROTOCOL_ERROR_PREFIX);
                let digits = decimal_chars(*status as u32);
                push_range(&mut body, &digits, 0, digits.len());
                assert(digits@.subrange(0, digits@.len() as int) =~= digits@);
                (500, string_of(&body))
            },
            LinkalError::UnknownCalendar(path) => {
                let mut body = String::new();
                body.append(UNKNOWN_CALENDAR_PREFIX);
                body.append(path.as_str());
                assert(body@ =~= UNKNOWN_CALENDAR_PREFIX@ + path@);
                (404, body)
            },
            LinkalError::InternalRewrite(detail) => (500, detail.clone()),
        }
    }

    /// The response that answers this error: its status, no headers, and its
    /// diagnostic as the body.
    pub fn into_response(self) -> (response: Response)
        ensures
            response@ == (ResponseView {
                status: self.status_code(),
                headers: Seq::empty(),
                body: self.diagnostic(),
            }),
    {
        let (status, body) = self.status_code_body();
        let response = Response { status, headers: Vec::new(), body };
        assert(response@.headers =~= Seq::empty());
        response
    }
}

/// The response of a request that ended in `reply`: the response itself, or
/// the one that answers the error.
pub fn into_response(reply: Result<Response, LinkalError>) -> (response: Response)
    ensures
        match reply {
            Ok(r) => response == r,
            Err(e) => response@ == (ResponseView {
                status: e.status_code(),
                headers: Seq::empty(),
                body: e.diagnostic(),
            }),
        },
{
    match reply {
        Ok(response) => response,
        Err(error) => error.into_response(),
    }
}

/// The index just behind the `n`-th `/` of `url` at or after `pos`; the length
/// of `url` where it holds fewer.
pub open spec fn behind_slashes(url: Seq<char>, pos: int, n: nat) -> int
    decreases url.len() - pos,
{
    if n == 0 || pos < 0 {
        pos
    } else if pos >= url.len() {
        url.len() as int
    } else if url[pos] == '/' {
        behind_slashes(url, pos + 1, (n - 1) as nat)
    } else {
        behind_slashes(url, pos + 1, n)
    }
}

/// `s` without one `/` at its end.
pub open spec fn without_trailing_slash(s: Seq<char>) -> Seq<char> {
    if s.len() > 0 && s.last() == '/' {
        s.drop_last()
    } else {
        s
    }
}

/// The path of an absolute URL, as upstream responses name it: what follows
/// the third `/` (scheme, empty part and authority come before it), without a
/// `/` at the end. Empty where the URL has no path.
pub open spec fn upstream_suffix(url: Seq<char>) -> Seq<char> {
    without_trailing_slash(rest_behind(url, behind_slashes(url, 0, 3)))
}

/// `url` from `pos` to its end, for a `pos` inside it.
pub open spec fn rest_behind(url: Seq<char>, pos: int) -> Seq<char> {
    if 0 <= pos <= url.len() {
        url.subrange(pos, url.len() as int)
    } else {
        Seq::empty()
    }
}

/// What follows the last `/` of `s`; all of `s` where it holds none.
pub open spec fn behind_last_slash(s: Seq<char>) -> Seq<char>
    decreases s.len(),
{
    if s.len() == 0 || s.last() == '/' {
        Seq::empty()
    } else {
        behind_last_slash(s.drop_last()).push(s.last())
    }
}

/// The final path segment of a URL, a `/` at its end left aside.
pub open spec fn final_segment(url: Seq<char>) -> Seq<char> {
    behind_last_slash(without_trailing_slash(url))
}

/// The path of `url` as upstream responses name it.
pub fn upstream_suffix_chars(url: &Vec<char>) -> (out: Vec<char>)
    ensures
        out@ == upstream_suffix(url@),
{
    let mut pos: usize = 0;
    let mut left: usize = 3;
    while left > 0 && pos < url.len()
        invariant
            pos <= url.len(),
            left <= 3,
            behind_slashes(url@, 0, 3) == behind_slashes(url@, pos as int, left as nat),
        decreases url.len() - pos,
    {
        if url[pos] == '/' {
            left = left - 1;
        }
        pos = pos + 1;
    }
    let mut end: usize = url.len();
    if end > pos && url[end - 1] == '/' {
        end = end - 1;
    }
    let mut out: Vec<char> = Vec::new();
    crate::text::push_range(&mut out, url, pos, end);
    proof {
        let tail = rest_behind(url@, pos as int);
        assert(tail.len() == url@.len() - pos);
        if tail.len() > 0 {
            assert(tail.last() == url@[url@.len() - 1]);
        }
        assert(out@ =~= without_trailing_slash(tail));
    }
    out
}

/// The final path segment of `url`.
pub fn final_segment_chars(url: &Vec<char>) -> (out: Vec<char>)
    ensures
        out@ == final_segment(url@),
{
    let mut end: usize = url.len();
    if end > 0 && url[end - 1] == '/' {
        end = end - 1;
    }
    let ghost trimmed = without_trailing_slash(url@);
    assert(trimmed =~= url@.subrange(0, end as int));
    let mut start: usize = end;
    while start > 0 && url[start - 1] != '/'
        invariant
            start <= end <= url.len(),
            trimmed == url@.subrange(0, end as int),
            behind_last_slash(trimmed) == behind_last_slash(url@.subrange(0, start as int))
                + url@.subrange(start as int, end as int),
        decreases start,
    {
        proof {
            let upto = url@.subrange(0, start as int);
            assert(upto.drop_last() =~= url@.subrange(0, start - 1));
            assert(upto.last() == url@[start - 1]);
            assert(behind_last_slash(upto.drop_last()).push(upto.last()) + url@.subrange(
                start as int,
                end as int,
            ) =~= behind_last_slash(upto.drop_last()) + url@.subrange(start - 1, end as int));
        }
        start = start - 1;
    }
    let mut out: Vec<char> = Vec::new();
    crate::text::push_range(&mut out, url, start, end);
    proof {
        let upto = url@.subrange(0, start as int);
        assert(behind_last_slash(upto) =~= Seq::<char>::empty());
        assert(out@ =~= behind_last_slash(trimmed));
    }
    out
}

/// The key under which the registry file holds its calendars.
pub const CALENDARS_KEY: &'static str = "calendars";

pub const NAME_KEY: &'static str = "name";

pub const COLOR_KEY: &'static str = "color";

/// The name of a calendar for which the file gives none.
pub const DEFAULT_NAME: &'static str = "Unamed calendar";

/// The name that the entry `value` gives its calendar: the text under `name`,
/// or the default where there is none.
pub open spec fn entry_name(value: Json) -> Seq<char> {
    match member_of(value, NAME_KEY@) {
        Some(Json::Text(name)) => name@,
        _ => DEFAULT_NAME@,
    }
}

/// The calendar that the registry file describes by the entry `value` under
/// the key `url`: exposed under the final path segment of `url`. `None` where
/// the entry holds a colour that is no text.
pub open spec fn calendar_of(url: Seq<char>, value: Json) -> Option<CalendarView> {
    match member_of(value, COLOR_KEY@) {
        None => Some(
            CalendarView { name: entry_name(value), url, path: final_segment(url), color: None },
        ),
        Some(Json::Text(color)) => Some(
            CalendarView {
                name: entry_name(value),
                url,
                path: final_segment(url),
                color: Some(color@),
            },
        ),
        Some(_) => None,
    }
}

/// The index of the first calendar at or after `from` that is exposed under
/// `path`.
pub open spec fn path_index(registry: Seq<CalendarView>, path: Seq<char>, from: int) -> Option<int>
    decreases registry.len() - from,
{
    if from < 0 || from >= registry.len() {
        None
    } else if registry[from].path == path {
        Some(from)
    } else {
        path_index(registry, path, from + 1)
    }
}

/// `registry` with `calendar` put in: in the place of the calendar that is
/// exposed under the same path segment, or at the end where there is none.
pub open spec fn put(registry: Seq<CalendarView>, calendar: CalendarView) -> Seq<CalendarView> {
    match path_index(registry, calendar.path, 0) {
        Some(i) => registry.update(i, calendar),
        None => registry.push(calendar),
    }
}

/// The registry that the first `n` entries describe, each put in behind those
/// before it: `None` where one of them describes no calendar.
pub open spec fn registry_from(members: Seq<Member>, n: int) -> Option<Seq<CalendarView>>
    decreases n,
{
    if n <= 0 {
        Some(Seq::empty())
    } else {
        match (
            registry_from(members, n - 1),
            calendar_of(members[n - 1].key@, members[n - 1].value),
        ) {
            (Some(registry), Some(calendar)) => Some(put(registry, calendar)),
            _ => None,
        }
    }
}

/// The entries of the registry file `document`: the members of the object
/// under `calendars`.
pub open spec fn entries_of(document: Json) -> Option<Seq<Member>> {
    match member_of(document, CALENDARS_KEY@) {
        Some(Json::Object(members)) => Some(members@),
        _ => None,
    }
}

/// What finds no calendar under a path finds none at any index.
pub proof fn lemma_path_index(registry: Seq<CalendarView>, path: Seq<char>, from: int)
    requires
        0 <= from,
    ensures
        match path_index(registry, path, from) {
            Some(i) => from <= i < registry.len() && registry[i].path == path,
            None => forall|k: int| from <= k < registry.len() ==> registry[k].path != path,
        },
    decreases registry.len() - from,
{
    if from < registry.len() && registry[from].path != path {
        lemma_path_index(registry, path, from + 1);
    }
}

/// Puts `calendar` into `registry`.
pub fn put_calendar(registry: &mut Vec<Calendar>, calendar: Calendar)
    requires
        unique_paths(views(old(registry)@)),
    ensures
        views(final(registry)@) == put(views(old(registry)@), calendar@),
        unique_paths(views(final(registry)@)),
{
    let wanted = chars_of(calendar.path.as_str());
    let ghost before = views(registry@);
    let mut i: usize = 0;
    while i < registry.len()
        invariant
            i <= registry.len(),
            wanted@ == calendar.path@,
            registry@ == old(registry)@,
            before == views(registry@),
            unique_paths(before),
            path_index(before, calendar.path@, 0) == path_index(before, calendar.path@, i as int),
        decreases registry.len() - i,
    {
        if chars_equal(&chars_of(registry[i].path.as_str()), &wanted) {
            assert(before[i as int].path == calendar.path@);
            registry.set(i, calendar);
            proof {
                let after = views(registry@);
                assert(after =~= before.update(i as int, calendar@));
                assert forall|a: int, b: int| 0 <= a < b < after.len() implies (#[trigger] after[a]).path
                    != (#[trigger] after[b]).path by {
                    assert(before[a].path != before[b].path);
                }
            }
            return ;
        }
        i = i + 1;
    }
    proof {
        lemma_path_index(before, calendar.path@, 0);
    }
    registry.push(calendar);
    proof {
        let after = views(registry@);
        assert(after =~= before.push(calendar@));
        assert forall|a: int, b: int| 0 <= a < b < after.len() implies (#[trigger] after[a]).path
            != (#[trigger] after[b]).path by {
            if b < before.len() {
                assert(before[a].path != before[b].path);
            }
        }
    }
}

/// Makes the calendar that the entry `value` under the key `url` describes.
pub fn calendar_from(url: &str, value: &Json) -> (calendar: Option<Calendar>)
    ensures
        match calendar {
            Some(c) => calendar_of(url@, *value) == Some(c@),
            None => calendar_of(url@, *value) is None,
        },
{
    let name = match member(value, NAME_KEY) {
        Some(Json::Text(name)) => name.clone(),
        _ => String::from_str(DEFAULT_NAME),
    };
    let color = match member(value, COLOR_KEY) {
        None => None,
        Some(Json::Text(color)) => Some(color.clone()),
        Some(_) => { return None; },
    };
    let path = string_of(&final_segment_chars(&chars_of(url)));
    Some(Calendar { name, url: String::from_str(url), path, color })
}

/// Makes the registry that the JSON document `document` describes: under
/// `calendars` it holds one entry for each upstream URL, with the calendar's
/// name and, if it has one, its colour. The calendars come in the order of
/// the document's entries; of two that would be exposed under one path
/// segment, the later takes the place of the earlier.
pub fn registry_of(document: &Json) -> (made: Result<Vec<Calendar>, RegistryError>)
    ensures
        match made {
            Ok(registry) => entries_of(*document) matches Some(entries) && registry_from(
                entries,
                entries.len() as int,
            ) == Some(views(registry@)) && unique_paths(views(registry@)),
            Err(RegistryError::NoCalendars) => entries_of(*document) is None,
            Err(RegistryError::ColorNotText(url)) => entries_of(*document) matches Some(entries)
                && registry_from(entries, entries.len() as int) is None && exists|k: int|
                0 <= k < entries.len() && entries[k].key == url && calendar_of(
                    entries[k].key@,
                    entries[k].value,
                ) is None,
            Err(RegistryError::NotJson(_)) => false,
        },
{
    let entries = match member(document, CALENDARS_KEY) {
        Some(Json::Object(entries)) => entries,
        _ => { return Err(RegistryError::NoCalendars); },
    };
    let mut registry: Vec<Calendar> = Vec::new();
    let mut i: usize = 0;
    assert(views(registry@) =~= Seq::<CalendarView>::empty());
    while i < entries.len()
        invariant
            i <= entries.len(),
            entries_of(*document) == Some(entries@),
            registry_from(entries@, i as int) == Some(views(registry@)),
            unique_paths(views(registry@)),
        decreases entries.len() - i,
    {
        match calendar_from(entries[i].key.as_str(), &entries[i].value) {
            Some(calendar) => {
                put_calendar(&mut registry, calendar);
            },
            None => {
                proof {
                    assert(registry_from(entries@, i + 1) is None);
                    lemma_registry_fails(entries@, i + 1, entries@.len() as int);
                }
                return Err(RegistryError::ColorNotText(entries[i].key.clone()));
            },
        }
        i = i + 1;
    }
    Ok(registry)
}

/// Reads the registry from the text of its file, a JSON document.
pub fn parse_calendar_json(json_data: &str) -> (parsed: Result<Vec<Calendar>, RegistryError>)
    ensures
        match parsed {
            Ok(registry) => json_parsed(json_data@) matches Some(document) && entries_of(document)
                matches Some(entries) && registry_from(entries, entries.len() as int) == Some(
                views(registry@),
            ) && unique_paths(views(registry@)),
            Err(RegistryError::NotJson(_)) => json_parsed(json_data@) is None,
            Err(RegistryError::NoCalendars) => json_parsed(json_data@) matches Some(document)
                && entries_of(document) is None,
            Err(RegistryError::ColorNotText(url)) => json_parsed(json_data@) matches Some(document)
                && entries_of(document) matches Some(entries) && registry_from(
                entries,
                entries.len() as int,
            ) is None && exists|k: int|
                0 <= k < entries.len() && entries[k].key == url && calendar_of(
                    entries[k].key@,
                    entries[k].value,
                ) is None,
        },
{
    match read_json(json_data) {
        Ok(document) => registry_of(&document),
        Err(e) => Err(RegistryError::NotJson(json_error_text(&e))),
    }
}

/// Where the first `n` entries describe no registry, more of them describe
/// none either.
pub proof fn lemma_registry_fails(members: Seq<Member>, n: int, m: int)
    requires
        n <= m,
        registry_from(members, n) is None,
    ensures
        registry_from(members, m) is None,
    decreases m - n,
{
    if n < m {
        lemma_registry_fails(members, n, m - 1);
    }
}

} // verus!
