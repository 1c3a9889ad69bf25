//! Where a request goes: by its method and its path, to the answer that the
//! gateway gives for itself, to one calendar, or to the collection of all.

use crate::text::{chars_equal, chars_of, matches_at, occurs_at, push_range, string_of};
use crate::utils::without_trailing_slash;
use vstd::prelude::*;

verus! {

pub const OPTIONS: &'static str = "OPTIONS";

pub const GET: &'static str = "GET";

pub const PROPFIND: &'static str = "PROPFIND";

pub const REPORT: &'static str = "REPORT";

pub const PROPPATCH: &'static str = "PROPPATCH";

/// The path of the collection of calendars.
pub const COLLECTION_PATH: &'static str = "/cals";

/// The path under which the principals stand.
pub const PRINCIPALS_PATH: &'static str = "/principals";

/// The well-known address of a CalDAV server.
pub const WELL_KNOWN_PATH: &'static str = "/.well-known/caldav";

/// Where a request goes.
#[derive(Debug)]
pub enum Route {
    /// The capabilities of the gateway, with or without calendar access.
    Options { calendar_access: bool },
    /// The fixed description of the root.
    Root,
    /// The requested properties of the root.
    RootProperties,
    /// The requested properties of the principal of the name that it holds.
    Principal(String),
    /// The collection of all calendars.
    Collection,
    /// The calendar that is exposed under the path segment that it holds.
    Resource(String),
    /// The redirect to the root.
    WellKnown,
    /// The gateway has nothing at the path for the method.
    NotFound,
    /// The gateway does not take the method.
    MethodNotAllowed,
}

/// A route as plain values.
pub enum RouteView {
    Options { calendar_access: bool },
    Root,
    RootProperties,
    Principal(Seq<char>),
    Collection,
    Resource(Seq<char>),
    WellKnown,
    NotFound,
    MethodNotAllowed,
}

impl Route {
    pub open spec fn view(&self) -> RouteView {
        match self {
            Route::Options { calendar_access } => RouteView::Options {
                calendar_access: *calendar_access,
            },
            Route::Root => RouteView::Root,
            Route::RootProperties => RouteView::RootProperties,
            Route::Principal(name) => RouteView::Principal(name@),
            Route::Collection => RouteView::Collection,
            Route::Resource(segment) => RouteView::Resource(segment@),
            Route::WellKnown => RouteView::WellKnown,
            Route::NotFound => RouteView::NotFound,
            Route::MethodNotAllowed => RouteView::MethodNotAllowed,
        }
    }
}

/// The methods that ask for properties or reports.
pub open spec fn is_allowed(method: Seq<char>) -> bool {
    method == OPTIONS@ || method == PROPFIND@ || method == REPORT@
}

/// Whether `method` is OPTIONS, PROPFIND or REPORT.
pub fn allowed_method(method: &str) -> (allowed: bool)
    ensures
        allowed == is_allowed(method@),
{
    let m = chars_of(method);
    chars_equal(&m, &chars_of(OPTIONS)) || chars_equal(&m, &chars_of(PROPFIND)) || chars_equal(
        &m,
        &chars_of(REPORT),
    )
}

/// `s` is one path segment: not empty, and without a `/`.
pub open spec fn single_segment(s: Seq<char>) -> bool {
    s.len() > 0 && forall|k: int| 0 <= k < s.len() ==> s[k] != '/'
}

/// The segment `s` for which `path` is `parent`, a `/`, and `s`; `None` where
/// `path` is no such child of `parent`.
pub open spec fn child_of(path: Seq<char>, parent: Seq<char>) -> Option<Seq<char>> {
    if occurs_at(path, parent, 0) && path.len() > parent.len() && path[parent.len() as int] == '/'
        && single_segment(path.subrange(parent.len() as int + 1, path.len() as int)) {
        Some(path.subrange(parent.len() as int + 1, path.len() as int))
    } else {
        None
    }
}

/// `path` is `parent` or lies below it.
pub open spec fn at_or_below(path: Seq<char>, parent: Seq<char>) -> bool {
    occurs_at(path, parent, 0) && (path.len() == parent.len() || path[parent.len() as int] == '/')
}

/// Where the request with `method` for `path` goes. A `/` at the end of the
/// path counts for nothing. OPTIONS is answered for every path, with calendar
/// access at and below the collection. GET reaches the root and the
/// well-known address; PROPFIND the root; PROPFIND and REPORT a principal, the
/// collection and each calendar; PROPPATCH the collection.
pub open spec fn routed(method: Seq<char>, path: Seq<char>) -> RouteView {
    let p = without_trailing_slash(path);
    if method == OPTIONS@ {
        RouteView::Options { calendar_access: at_or_below(p, COLLECTION_PATH@) }
    } else if method == GET@ {
        if p.len() == 0 {
            RouteView::Root
        } else if p == WELL_KNOWN_PATH@ {
            RouteView::WellKnown
        } else {
            RouteView::NotFound
        }
    } else if method == PROPFIND@ || method == REPORT@ {
        if p.len() == 0 {
            if method == PROPFIND@ {
                RouteView::RootProperties
            } else {
                RouteView::NotFound
            }
        } else if p == COLLECTION_PATH@ {
            RouteView::Collection
        } else if child_of(p, COLLECTION_PATH@) is Some {
            RouteView::Resource(child_of(p, COLLECTION_PATH@)->0)
        } else if child_of(p, PRINCIPALS_PATH@) is Some {
            RouteView::Principal(child_of(p, PRINCIPALS_PATH@)->0)
        } else {
            RouteView::NotFound
        }
    } else if method == PROPPATCH@ {
        if p == COLLECTION_PATH@ {
            RouteView::Collection
        } else {
            RouteView::NotFound
        }
    } else {
        RouteView::MethodNotAllowed
    }
}

fn starts_with(path: &Vec<char>, parent: &Vec<char>) -> (found: bool)
    ensures
        found == occurs_at(path@, parent@, 0),
{
    if parent.len() > path.len() {
        return false;
    }
    matches_at(path, parent, 0)
}

fn child(path: &Vec<char>, parent: &Vec<char>) -> (found: Option<Vec<char>>)
    ensures
        match found {
            Some(segment) => child_of(path@, parent@) == Some(segment@),
            None => child_of(path@, parent@) is None,
        },
{
    if !starts_with(path, parent) || path.len() == parent.len() || path[parent.len()] != '/' {
        return None;
    }
    let start: usize = parent.len() + 1;
    let ghost rest = path@.subrange(start as int, path@.len() as int);
    if start == path.len() {
        return None;
    }
    let mut i: usize = start;
    while i < path.len()
        invariant
            start <= i <= path.len(),
            start == parent.len() + 1,
            start < path.len(),
            rest == path@.subrange(start as int, path@.len() as int),
            occurs_at(path@, parent@, 0),
            path@[parent.len() as int] == '/',
            forall|k: int| start <= k < i ==> path@[k] != '/',
        decreases path.len() - i,
    {
        if path[i] == '/' {
            assert(rest[i - start] == '/');
            return None;
        }
        i = i + 1;
    }
    let mut segment: Vec<char> = Vec::new();
    push_range(&mut segment, path, start, path.len());
    assert(segment@ =~= rest);
    Some(segment)
}

/// Says where the request with `method` for `path` goes.
pub fn route(method: &str, path: &str) -> (to: Route)
    ensures
        to@ == routed(method@, path@),
{
    let m = chars_of(method);
    let full = chars_of(path);
    let mut end: usize = full.len();
    if end > 0 && full[end - 1] == '/' {
        end = end - 1;
    }
    let mut p: Vec<char> = Vec::new();
    push_range(&mut p, &full, 0, end);
    assert(p@ =~= without_trailing_slash(path@));
    let collection = chars_of(COLLECTION_PATH);
    if chars_equal(&m, &chars_of(OPTIONS)) {
        let below = starts_with(&p, &collection) && (p.len() == collection.len()
            || p[collection.len()] == '/');
        Route::Options { calendar_access: below }
    } else if chars_equal(&m, &chars_of(GET)) {
        if p.len() == 0 {
            Route::Root
        } else if chars_equal(&p, &chars_of(WELL_KNOWN_PATH)) {
            Route::WellKnown
        } else {
            Route::NotFound
        }
    } else if chars_equal(&m, &chars_of(PROPFIND)) || chars_equal(&m, &chars_of(REPORT)) {
        if p.len() == 0 {
            if chars_equal(&m, &chars_of(PROPFIND)) {
                Route::RootProperties
            } else {
                Route::NotFound
            }
        } else if chars_equal(&p, &collection) {
            Route::Collection
        } else {
            match child(&p, &collection) {
                Some(segment) => Route::Resource(string_of(&segment)),
                None => match child(&p, &chars_of(PRINCIPALS_PATH)) {
                    Some(name) => Route::Principal(string_of(&name)),
                    None => Route::NotFound,
                },
            }
        }
    } else if chars_equal(&m, &chars_of(PROPPATCH)) {
        if chars_equal(&p, &collection) {
            Route::Collection
        } else {
            Route::NotFound
        }
    } else {
        Route::MethodNotAllowed
    }
}

} // verus!
