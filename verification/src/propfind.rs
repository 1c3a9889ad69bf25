//! The rewriting of upstream responses into the gateway's own namespace, and
//! the answers that the gateway gives for itself.

use crate::catalog::{
    catalog_fragment, catalog_has, contains_key, lemma_catalog_injective, lookup,
};
use crate::elements::{
    bracket_free, detached, lemma_detached_element, lemma_detached_nested,
    lemma_rewrite_keeps_settled, lemma_rewrite_settles, rest, rewrite_elements,
    rewrite_elements_chars, settled, tag_shaped,
};
use crate::text::{
    chars_of, find, first_occurrence, joined, lemma_escaped_has_no_brackets,
    lemma_first_occurrence, lemma_replace_by_itself, push_range, replace_all, replace_all_chars,
    string_of, texts, xml_escape, xml_escaped,
};
use crate::utils::{upstream_suffix, upstream_suffix_chars, Calendar};
use crate::utils::LinkalError;
use crate::xml::{
    element_names, error_text, is_parser_safe, parser_safe, prop_children,
    read_prop_children, ElementName,
};
use vstd::prelude::*;

verus! {

/// The href of the one principal that owns every calendar.
pub const PRINCIPAL_HREF: &'static str = "/principals/linkal/";

pub const OWNER_OPEN: &'static str = "<d:owner>";

pub const OWNER_CLOSE: &'static str = "</d:owner>";

pub const OWNER_PRINCIPAL_OPEN: &'static str = "<oc:owner-principal>";

pub const OWNER_PRINCIPAL_CLOSE: &'static str = "</oc:owner-principal>";

pub const CURRENT_PRINCIPAL_OPEN: &'static str = "<d:current-user-principal>";

pub const CURRENT_PRINCIPAL_CLOSE: &'static str = "</d:current-user-principal>";

/// The content of a current-user-principal element: the principal's href.
pub const CURRENT_PRINCIPAL_BODY: &'static str = "<d:href>/principals/linkal/</d:href>";

pub const NAME_OPEN: &'static str = "<d:displayname>";

pub const NAME_CLOSE: &'static str = "</d:displayname>";

pub const COLOR_OPEN: &'static str = "<x1:calendar-color xmlns:x1=\"http://apple.com/ns/ical/\">";

pub const COLOR_CLOSE: &'static str = "</x1:calendar-color>";

pub const PUBLISH_OPEN: &'static str = "<cs:publish-url>";

pub const PUBLISH_CLOSE: &'static str = "</cs:publish-url>";

/// The content of a publish-url element: a href inside the gateway.
pub const PUBLISH_BODY: &'static str = "<d:href>/cals/</d:href>";

/// The root of the gateway's calendar namespace, as a request body names it.
pub const VIRTUAL_ROOT: &'static str = "/cals";

/// The root of the public calendars on an upstream server.
pub const UPSTREAM_ROOT: &'static str = "/remote.php/dav/public-calendars";

/// The path under which the gateway exposes the calendar with path segment
/// `path`, as it replaces the upstream path: the segment is written as
/// character data.
pub open spec fn virtual_path(path: Seq<char>) -> Seq<char> {
    "cals/"@ + xml_escaped(path)
}

/// Whether `ch` may stand inside a path segment: a letter, a digit, one of
/// `-`, `_`, `.`, `~` and `%`, or a character that is not ASCII.
pub open spec fn is_segment_char(ch: char) -> bool {
    ('a' <= ch && ch <= 'z') || ('A' <= ch && ch <= 'Z') || ('0' <= ch && ch <= '9') || ch == '-'
        || ch == '_' || ch == '.' || ch == '~' || ch == '%' || ch > '\u{7f}'
}

/// A path segment ends at index `at` of `text`: the text ends there, or a
/// character follows that cannot stand inside a segment.
pub open spec fn segment_ends(text: Seq<char>, at: int) -> bool {
    at >= text.len() || !is_segment_char(text[at])
}

/// `body` from index `pos` on, as it is sent upstream. A marker of the
/// gateway's namespace is its root, `/cals`, where the segment ends behind
/// it; each marker stands for the upstream root. All else is sent as it is:
/// so is `/calsx`, and so is `cals` without its `/`.
pub open spec fn forwarded_from(body: Seq<char>, pos: int) -> Seq<char>
    decreases body.len() - pos,
{
    match first_occurrence(body, VIRTUAL_ROOT@, pos) {
        Some(at) if VIRTUAL_ROOT@.len() > 0 && pos <= at && at + VIRTUAL_ROOT@.len()
            <= body.len() => body.subrange(pos, at) + (if segment_ends(
            body,
            at + VIRTUAL_ROOT@.len(),
        ) {
            UPSTREAM_ROOT@
        } else {
            VIRTUAL_ROOT@
        }) + forwarded_from(body, at + VIRTUAL_ROOT@.len()),
        _ => rest(body, pos),
    }
}

/// A request body as it is sent upstream: unchanged but for the markers of
/// the gateway's namespace.
pub open spec fn forwarded_body(body: Seq<char>) -> Seq<char> {
    forwarded_from(body, 0)
}

fn is_segment(ch: char) -> (inside: bool)
    ensures
        inside == is_segment_char(ch),
{
    ('a' <= ch && ch <= 'z') || ('A' <= ch && ch <= 'Z') || ('0' <= ch && ch <= '9') || ch == '-'
        || ch == '_' || ch == '.' || ch == '~' || ch == '%' || ch > '\u{7f}'
}

/// Turns a request body into the one that is sent upstream.
pub fn prepare_forwarded_body(body: &str) -> (out: String)
    ensures
        out@ == forwarded_body(body@),
{
    let text = chars_of(body);
    let from = chars_of(VIRTUAL_ROOT);
    let to = chars_of(UPSTREAM_ROOT);
    proof {
        reveal_strlit("/cals");
    }
    let mut out: Vec<char> = Vec::new();
    let mut pos: usize = 0;
    loop
        invariant
            pos <= text.len(),
            from@ == VIRTUAL_ROOT@,
            to@ == UPSTREAM_ROOT@,
            from@.len() > 0,
            out@ + forwarded_from(text@, pos as int) == forwarded_body(text@),
            text@ == body@,
        decreases text.len() - pos,
    {
        proof {
            lemma_first_occurrence(text@, from@, pos as int);
        }
        match find(&text, &from, pos) {
            Some(at) => {
                let ghost before = out@;
                let end: usize = at + from.len();
                push_range(&mut out, &text, pos, at);
                if end >= text.len() || !is_segment(text[end]) {
                    push_range(&mut out, &to, 0, to.len());
                    assert(to@.subrange(0, to@.len() as int) =~= to@);
                } else {
                    push_range(&mut out, &from, 0, from.len());
                    assert(from@.subrange(0, from@.len() as int) =~= from@);
                }
                assert(out@ + forwarded_from(text@, end as int) =~= before + forwarded_from(
                    text@,
                    pos as int,
                ));
                pos = end;
            },
            None => {
                push_range(&mut out, &text, pos, text.len());
                return string_of(&out);
            },
        }
    }
}

/// A body that does not name the gateway's root is sent as it is.
pub proof fn lemma_forwarded_without_marker(body: Seq<char>)
    requires
        first_occurrence(body, VIRTUAL_ROOT@, 0) is None,
    ensures
        forwarded_body(body) == body,
{
    assert(body.subrange(0, body.len() as int) =~= body);
}

/// `response` with each occurrence of the upstream path of the calendar at
/// `url` replaced by the virtual path of `path`.
pub open spec fn relocated(url: Seq<char>, path: Seq<char>, response: Seq<char>) -> Seq<char> {
    replace_all(response, upstream_suffix(url), virtual_path(path))
}

/// Moves the hrefs of an upstream response into the gateway's namespace.
pub fn replace_relative_urls(calendar: &Calendar, response: &str) -> (out: String)
    ensures
        out@ == relocated(calendar.url@, calendar.path@, response@),
{
    let text = chars_of(response);
    let url = chars_of(calendar.url.as_str());
    let suffix = upstream_suffix_chars(&url);
    let mut target = chars_of("cals/");
    let path = xml_escape(&chars_of(calendar.path.as_str()));
    push_range(&mut target, &path, 0, path.len());
    assert(path@.subrange(0, path@.len() as int) =~= path@);
    string_of(&replace_all_chars(&text, &suffix, &target))
}

/// `text` in which every owner is the gateway's principal: the elements
/// current-user-principal, owner and owner-principal, in this order.
pub open spec fn owners_rewritten(text: Seq<char>) -> Seq<char> {
    rewrite_elements(
        rewrite_elements(
            rewrite_elements(
                text,
                CURRENT_PRINCIPAL_OPEN@,
                CURRENT_PRINCIPAL_CLOSE@,
                CURRENT_PRINCIPAL_BODY@,
            ),
            OWNER_OPEN@,
            OWNER_CLOSE@,
            PRINCIPAL_HREF@,
        ),
        OWNER_PRINCIPAL_OPEN@,
        OWNER_PRINCIPAL_CLOSE@,
        PRINCIPAL_HREF@,
    )
}

fn owners_rewritten_chars(text: &Vec<char>) -> (out: Vec<char>)
    ensures
        out@ == owners_rewritten(text@),
{
    let href = chars_of(PRINCIPAL_HREF);
    let first = rewrite_elements_chars(
        text,
        &chars_of(CURRENT_PRINCIPAL_OPEN),
        &chars_of(CURRENT_PRINCIPAL_CLOSE),
        &chars_of(CURRENT_PRINCIPAL_BODY),
    );
    let second = rewrite_elements_chars(
        &first,
        &chars_of(OWNER_OPEN),
        &chars_of(OWNER_CLOSE),
        &href,
    );
    rewrite_elements_chars(
        &second,
        &chars_of(OWNER_PRINCIPAL_OPEN),
        &chars_of(OWNER_PRINCIPAL_CLOSE),
        &href,
    )
}

/// Makes the gateway's principal the owner in `response`.
pub fn replace_owners(response: &str) -> (out: String)
    ensures
        out@ == owners_rewritten(response@),
{
    string_of(&owners_rewritten_chars(&chars_of(response)))
}

/// `text` in which every display name is `name`, written as character data.
pub open spec fn renamed(text: Seq<char>, name: Seq<char>) -> Seq<char> {
    rewrite_elements(text, NAME_OPEN@, NAME_CLOSE@, xml_escaped(name))
}

fn renamed_chars(text: &Vec<char>, name: &str) -> (out: Vec<char>)
    ensures
        out@ == renamed(text@, name@),
{
    let body = xml_escape(&chars_of(name));
    rewrite_elements_chars(text, &chars_of(NAME_OPEN), &chars_of(NAME_CLOSE), &body)
}

/// Gives every display name in `response` the configured `name`.
pub fn replace_name(response: &str, name: &str) -> (out: String)
    ensures
        out@ == renamed(response@, name@),
{
    string_of(&renamed_chars(&chars_of(response), name))
}

/// `text` in which every calendar colour is `color`, written as character
/// data.
pub open spec fn recolored(text: Seq<char>, color: Seq<char>) -> Seq<char> {
    rewrite_elements(text, COLOR_OPEN@, COLOR_CLOSE@, xml_escaped(color))
}

fn recolored_chars(text: &Vec<char>, color: &str) -> (out: Vec<char>)
    ensures
        out@ == recolored(text@, color@),
{
    let body = xml_escape(&chars_of(color));
    rewrite_elements_chars(text, &chars_of(COLOR_OPEN), &chars_of(COLOR_CLOSE), &body)
}

/// Gives every calendar colour in `response` the configured `color`.
pub fn replace_color(response: &str, color: &str) -> (out: String)
    ensures
        out@ == recolored(response@, color@),
{
    string_of(&recolored_chars(&chars_of(response), color))
}

/// `text` in which every publish-url points into the gateway.
pub open spec fn republished(text: Seq<char>) -> Seq<char> {
    rewrite_elements(text, PUBLISH_OPEN@, PUBLISH_CLOSE@, PUBLISH_BODY@)
}

fn republished_chars(text: &Vec<char>) -> (out: Vec<char>)
    ensures
        out@ == republished(text@),
{
    rewrite_elements_chars(
        text,
        &chars_of(PUBLISH_OPEN),
        &chars_of(PUBLISH_CLOSE),
        &chars_of(PUBLISH_BODY),
    )
}

/// Lets every publish-url in `response` point into the gateway.
pub fn replace_publish_url(response: &str) -> (out: String)
    ensures
        out@ == republished(response@),
{
    string_of(&republished_chars(&chars_of(response)))
}

/// `text` with the colour step applied: recoloured where a colour is
/// configured, unchanged where none is.
pub open spec fn color_applied(text: Seq<char>, color: Option<Seq<char>>) -> Seq<char> {
    match color {
        Some(c) => recolored(text, c),
        None => text,
    }
}

/// The view of an optional string.
pub open spec fn option_view(s: Option<String>) -> Option<Seq<char>> {
    match s {
        Some(t) => Some(t@),
        None => None,
    }
}

/// An upstream response as the gateway hands it on for the calendar with the
/// given URL, path segment, name and colour: relocated, owned by the gateway's
/// principal, renamed, recoloured, republished, in this order.
pub open spec fn rewritten(
    url: Seq<char>,
    path: Seq<char>,
    name: Seq<char>,
    color: Option<Seq<char>>,
    response: Seq<char>,
) -> Seq<char> {
    republished(
        color_applied(renamed(owners_rewritten(relocated(url, path, response)), name), color),
    )
}

/// Rewrites one upstream response for `calendar`.
pub fn rewrite_response(calendar: &Calendar, response: &str) -> (out: String)
    ensures
        out@ == rewritten(
            calendar.url@,
            calendar.path@,
            calendar.name@,
            option_view(calendar.color),
            response@,
        ),
{
    let moved = replace_relative_urls(calendar, response);
    let owned = owners_rewritten_chars(&chars_of(moved.as_str()));
    let named = renamed_chars(&owned, calendar.name.as_str());
    let colored = match &calendar.color {
        Some(c) => recolored_chars(&named, c.as_str()),
        None => named,
    };
    string_of(&republished_chars(&colored))
}

/// The name under which one requested element is answered: its local name
/// where the catalog holds that, its full name otherwise.
pub open spec fn requested_name(element: (Seq<char>, Seq<char>)) -> Seq<char> {
    if catalog_has(element.0) {
        element.0
    } else {
        element.1
    }
}

/// The names under which the requested elements are answered, in their order.
pub open spec fn requested_names(elements: Seq<(Seq<char>, Seq<char>)>) -> Seq<Seq<char>> {
    elements.map_values(|e: (Seq<char>, Seq<char>)| requested_name(e))
}

/// The property names that the elements `children` of a request ask for.
pub fn property_names(children: &Vec<ElementName>) -> (names: Vec<String>)
    ensures
        texts(names@) == requested_names(element_names(children@)),
{
    let mut names: Vec<String> = Vec::new();
    let mut i: usize = 0;
    while i < children.len()
        invariant
            i <= children.len(),
            names@.len() == i,
            forall|k: int|
                0 <= k < i ==> (#[trigger] names@[k])@ == requested_name(children@[k]@),
        decreases children.len() - i,
    {
        let local = chars_of(children[i].name.as_str());
        if contains_key(&local) {
            names.push(children[i].name.clone());
        } else {
            names.push(children[i].fullname.clone());
        }
        i = i + 1;
    }
    assert(texts(names@) =~= requested_names(element_names(children@)));
    names
}

/// The property names that the request body `text` asks for: `None` where the
/// body cannot be given to the parser, is no well-formed XML, or has no element
/// as the first node of its root.
pub open spec fn propfind_names(text: Seq<char>) -> Option<Seq<Seq<char>>> {
    if !parser_safe(text) {
        None
    } else {
        match prop_children(text) {
            Some(Some(children)) => Some(requested_names(children)),
            _ => None,
        }
    }
}

/// What the body of a malformed request lacks.
pub const MISSING_PROP: &'static str = "the request names no properties";

/// What is wrong with a request that the parser cannot be given.
pub const UNSAFE_DOCUMENT: &'static str = "the request is no document that the parser takes";

/// Reads the property names that a PROPFIND request asks for. A request that
/// names no properties at all asks for an empty list, which is no error. A
/// request that is no well-formed XML is malformed, and the error holds the
/// parser's words.
pub fn parse_propfind(request: &str) -> (parsed: Result<Vec<String>, LinkalError>)
    ensures
        match parsed {
            Ok(names) => propfind_names(request@) == Some(texts(names@)),
            Err(e) => e matches LinkalError::MalformedRequest(detail) && propfind_names(request@)
                is None && (!parser_safe(request@) ==> detail@ == UNSAFE_DOCUMENT@) && (
            parser_safe(request@) && prop_children(request@) is Some ==> detail@
                == MISSING_PROP@),
        },
{
    if !is_parser_safe(&chars_of(request)) {
        return Err(LinkalError::MalformedRequest(String::from_str(UNSAFE_DOCUMENT)));
    }
    match read_prop_children(request) {
        Ok(Some(children)) => Ok(property_names(&children)),
        Ok(None) => Err(LinkalError::MalformedRequest(String::from_str(MISSING_PROP))),
        Err(e) => Err(LinkalError::MalformedRequest(error_text(&e))),
    }
}

/// What opens a multistatus document with one response, up to its href.
pub const DOCUMENT_HEAD: &'static str = "<?xml version=\"1.0\"?>\n               <d:multistatus xmlns:d=\"DAV:\" xmlns:s=\"http://sabredav.org/ns\" xmlns:oc=\"http://owncloud.org/ns\" xmlns:nc=\"http://nextcloud.org/ns\" xmlns:cal=\"urn:ietf:params:xml:ns:caldav\">\n               <d:response>\n                  <d:href>";

/// What stands between the href and the properties.
pub const DOCUMENT_MIDDLE: &'static str = "</d:href>\n                  <d:propstat>\n                     <d:prop>\n                     ";

/// What closes the properties, with their status, and the document.
pub const DOCUMENT_TAIL: &'static str = "\n                     </d:prop>\n                  <d:status>HTTP/1.1 200 OK</d:status>\n                  </d:propstat>\n               </d:response>\n               </d:multistatus>";

/// The resource type of a principal.
pub const PRINCIPAL_RESOURCETYPE: &'static str = "<d:resourcetype><d:collection/><d:principal/></d:resourcetype>";

/// What the catalog answers for `name`; nothing for a property it does not
/// hold.
pub open spec fn fragment_or_empty(name: Seq<char>) -> Seq<char> {
    match catalog_fragment(name) {
        Some(fragment) => fragment,
        None => Seq::empty(),
    }
}

/// What the catalog answers for each of `names`, in their order.
pub open spec fn answers(names: Seq<Seq<char>>) -> Seq<Seq<char>> {
    names.map_values(|name: Seq<char>| fragment_or_empty(name))
}

/// The catalog's answers for `names`, one behind the other in the order of
/// `names`.
pub open spec fn fragments(names: Seq<Seq<char>>) -> Seq<char> {
    joined(answers(names))
}

/// The properties of a response: the catalog's answers for `names`, and for a
/// principal its resource type behind them.
pub open spec fn prop_block(names: Seq<Seq<char>>, principal: bool) -> Seq<char> {
    if principal {
        fragments(names) + PRINCIPAL_RESOURCETYPE@
    } else {
        fragments(names)
    }
}

/// The multistatus document that answers for `href` with the properties
/// `block`, all of them under one status, 200 OK.
pub open spec fn multistatus(href: Seq<char>, block: Seq<char>) -> Seq<char> {
    DOCUMENT_HEAD@ + href + DOCUMENT_MIDDLE@ + block + DOCUMENT_TAIL@
}

/// Answers a request for the properties `props` of the gateway's own resource
/// at `path`. A property that the catalog does not hold is left out.
pub fn generate_response(props: Vec<String>, path: &str, principal: bool) -> (out: String)
    ensures
        out@ == multistatus(path@, prop_block(texts(props@), principal)),
{
    let mut out = String::new();
    out.append(DOCUMENT_HEAD);
    out.append(path);
    out.append(DOCUMENT_MIDDLE);
    let ghost before = out@;
    let ghost names = texts(props@);
    let mut i: usize = 0;
    assert(answers(names.subrange(0, 0)) =~= Seq::<Seq<char>>::empty());
    while i < props.len()
        invariant
            i <= props.len(),
            names == texts(props@),
            out@ == before + fragments(names.subrange(0, i as int)),
        decreases props.len() - i,
    {
        let name = chars_of(props[i].as_str());
        match lookup(&name) {
            Some(fragment) => {
                out.append(fragment);
            },
            None => {},
        }
        i = i + 1;
        proof {
            let upto = names.subrange(0, i as int);
            assert(answers(upto).drop_last() =~= answers(names.subrange(0, i - 1)));
            assert(answers(upto).last() == fragment_or_empty(name@));
            assert(out@ =~= before + fragments(upto));
        }
    }
    assert(names.subrange(0, props@.len() as int) =~= names);
    if principal {
        out.append(PRINCIPAL_RESOURCETYPE);
    }
    out.append(DOCUMENT_TAIL);
    assert(out@ =~= multistatus(path@, prop_block(names, principal)));
    out
}

/// The tags that the rewriting looks for are tags, each unlike the others, and
/// the principal's href holds no bracket.
pub proof fn lemma_tags()
    ensures
        tag_shaped(OWNER_OPEN@),
        tag_shaped(OWNER_CLOSE@),
        tag_shaped(OWNER_PRINCIPAL_OPEN@),
        tag_shaped(OWNER_PRINCIPAL_CLOSE@),
        tag_shaped(NAME_OPEN@),
        tag_shaped(NAME_CLOSE@),
        tag_shaped(COLOR_OPEN@),
        tag_shaped(COLOR_CLOSE@),
        tag_shaped(PUBLISH_OPEN@),
        tag_shaped(PUBLISH_CLOSE@),
        tag_shaped("<d:href>"@),
        tag_shaped("</d:href>"@),
        bracket_free(PRINCIPAL_HREF@),
        bracket_free("/cals/"@),
        PUBLISH_BODY@ == "<d:href>"@ + "/cals/"@ + "</d:href>"@,
        OWNER_OPEN@.len() == 9,
        OWNER_CLOSE@.len() == 10,
        OWNER_PRINCIPAL_OPEN@.len() == 20,
        OWNER_PRINCIPAL_CLOSE@.len() == 21,
        NAME_OPEN@.len() == 15,
        NAME_CLOSE@.len() == 16,
        COLOR_OPEN@.len() == 56,
        COLOR_CLOSE@.len() == 20,
        PUBLISH_OPEN@.len() == 16,
        PUBLISH_CLOSE@.len() == 17,
        "<d:href>"@.len() == 8,
        "</d:href>"@.len() == 9,
        OWNER_OPEN@[1] == 'd',
        OWNER_PRINCIPAL_OPEN@[1] == 'o',
        NAME_OPEN@[1] == 'd',
        COLOR_OPEN@[1] == 'x',
        PUBLISH_OPEN@[1] == 'c',
        "<d:href>"@[1] == 'd',
        OWNER_CLOSE@[1] == '/',
        OWNER_PRINCIPAL_CLOSE@[1] == '/',
        NAME_CLOSE@[1] == '/',
        COLOR_CLOSE@[1] == '/',
        PUBLISH_CLOSE@[1] == '/',
        "</d:href>"@[1] == '/',
{
    reveal_strlit("<d:owner>");
    reveal_strlit("</d:owner>");
    reveal_strlit("<oc:owner-principal>");
    reveal_strlit("</oc:owner-principal>");
    reveal_strlit("<d:displayname>");
    reveal_strlit("</d:displayname>");
    reveal_strlit("<x1:calendar-color xmlns:x1=\"http://apple.com/ns/ical/\">");
    reveal_strlit("</x1:calendar-color>");
    reveal_strlit("<cs:publish-url>");
    reveal_strlit("</cs:publish-url>");
    reveal_strlit("<d:href>");
    reveal_strlit("</d:href>");
    reveal_strlit("/principals/linkal/");
    reveal_strlit("/cals/");
    reveal_strlit("<d:href>/cals/</d:href>");
    assert(PUBLISH_BODY@ =~= "<d:href>"@ + "/cals/"@ + "</d:href>"@);
}

/// After the owner rewrite every owner is the gateway's principal: each owner
/// element and each owner-principal element of the result holds the
/// principal's href and nothing else, whatever the text held before.
pub proof fn lemma_owners_are_local(text: Seq<char>)
    ensures
        settled(owners_rewritten(text), OWNER_OPEN@, OWNER_CLOSE@, PRINCIPAL_HREF@),
        settled(
            owners_rewritten(text),
            OWNER_PRINCIPAL_OPEN@,
            OWNER_PRINCIPAL_CLOSE@,
            PRINCIPAL_HREF@,
        ),
{
    lemma_tags();
    let first = rewrite_elements(
        text,
        CURRENT_PRINCIPAL_OPEN@,
        CURRENT_PRINCIPAL_CLOSE@,
        CURRENT_PRINCIPAL_BODY@,
    );
    let second = rewrite_elements(first, OWNER_OPEN@, OWNER_CLOSE@, PRINCIPAL_HREF@);
    lemma_rewrite_settles(first, OWNER_OPEN@, OWNER_CLOSE@, PRINCIPAL_HREF@, 0);
    lemma_rewrite_settles(second, OWNER_PRINCIPAL_OPEN@, OWNER_PRINCIPAL_CLOSE@, PRINCIPAL_HREF@, 0);
    lemma_detached_element(
        OWNER_PRINCIPAL_OPEN@,
        PRINCIPAL_HREF@,
        OWNER_PRINCIPAL_CLOSE@,
        OWNER_OPEN@,
    );
    lemma_detached_element(
        OWNER_PRINCIPAL_OPEN@,
        PRINCIPAL_HREF@,
        OWNER_PRINCIPAL_CLOSE@,
        OWNER_CLOSE@,
    );
    lemma_rewrite_keeps_settled(
        second,
        OWNER_PRINCIPAL_OPEN@,
        OWNER_PRINCIPAL_CLOSE@,
        PRINCIPAL_HREF@,
        0,
        OWNER_OPEN@,
        OWNER_CLOSE@,
        PRINCIPAL_HREF@,
    );
}

/// Renaming, recolouring and republishing keep what was settled for other
/// elements with bracket-free content.
proof fn lemma_later_steps_keep(
    text: Seq<char>,
    name: Seq<char>,
    color: Option<Seq<char>>,
    open: Seq<char>,
    close: Seq<char>,
    body: Seq<char>,
)
    requires
        tag_shaped(open),
        tag_shaped(close),
        bracket_free(body),
        settled(text, open, close, body),
        open == OWNER_OPEN@ || open == OWNER_PRINCIPAL_OPEN@,
        close == OWNER_CLOSE@ || close == OWNER_PRINCIPAL_CLOSE@,
    ensures
        settled(republished(color_applied(renamed(text, name), color)), open, close, body),
{
    lemma_tags();
    lemma_escaped_has_no_brackets(name);
    lemma_detached_element(NAME_OPEN@, xml_escaped(name), NAME_CLOSE@, open);
    lemma_detached_element(NAME_OPEN@, xml_escaped(name), NAME_CLOSE@, close);
    lemma_rewrite_keeps_settled(
        text,
        NAME_OPEN@,
        NAME_CLOSE@,
        xml_escaped(name),
        0,
        open,
        close,
        body,
    );
    let named = renamed(text, name);
    let colored = color_applied(named, color);
    match color {
        Some(c) => {
            lemma_escaped_has_no_brackets(c);
            lemma_detached_element(COLOR_OPEN@, xml_escaped(c), COLOR_CLOSE@, open);
            lemma_detached_element(COLOR_OPEN@, xml_escaped(c), COLOR_CLOSE@, close);
            lemma_rewrite_keeps_settled(
                named,
                COLOR_OPEN@,
                COLOR_CLOSE@,
                xml_escaped(c),
                0,
                open,
                close,
                body,
            );
        },
        None => {},
    }
    lemma_publish_detached(open);
    lemma_publish_detached(close);
    lemma_rewrite_keeps_settled(
        colored,
        PUBLISH_OPEN@,
        PUBLISH_CLOSE@,
        PUBLISH_BODY@,
        0,
        open,
        close,
        body,
    );
}

/// A tag of another element touches no publish-url element that the gateway
/// writes.
proof fn lemma_publish_detached(t: Seq<char>)
    requires
        t == OWNER_OPEN@ || t == OWNER_CLOSE@ || t == OWNER_PRINCIPAL_OPEN@ || t
            == OWNER_PRINCIPAL_CLOSE@ || t == COLOR_OPEN@ || t == COLOR_CLOSE@,
    ensures
        detached(t, PUBLISH_OPEN@ + PUBLISH_BODY@ + PUBLISH_CLOSE@),
{
    lemma_tags();
    lemma_detached_nested(
        PUBLISH_OPEN@,
        "<d:href>"@,
        "/cals/"@,
        "</d:href>"@,
        PUBLISH_CLOSE@,
        t,
    );
}

/// In every response that the gateway hands on for a calendar, every owner is
/// the gateway's principal.
pub proof fn lemma_rewritten_owners_are_local(
    url: Seq<char>,
    path: Seq<char>,
    name: Seq<char>,
    color: Option<Seq<char>>,
    response: Seq<char>,
)
    ensures
        settled(
            rewritten(url, path, name, color, response),
            OWNER_OPEN@,
            OWNER_CLOSE@,
            PRINCIPAL_HREF@,
        ),
        settled(
            rewritten(url, path, name, color, response),
            OWNER_PRINCIPAL_OPEN@,
            OWNER_PRINCIPAL_CLOSE@,
            PRINCIPAL_HREF@,
        ),
{
    lemma_tags();
    let owned = owners_rewritten(relocated(url, path, response));
    lemma_owners_are_local(relocated(url, path, response));
    lemma_later_steps_keep(owned, name, color, OWNER_OPEN@, OWNER_CLOSE@, PRINCIPAL_HREF@);
    lemma_later_steps_keep(
        owned,
        name,
        color,
        OWNER_PRINCIPAL_OPEN@,
        OWNER_PRINCIPAL_CLOSE@,
        PRINCIPAL_HREF@,
    );
}

/// Where a colour is configured, the response that the gateway hands on shows
/// it in every calendar-colour element, whatever the upstream response held.
pub proof fn lemma_configured_color_shows(
    url: Seq<char>,
    path: Seq<char>,
    name: Seq<char>,
    color: Seq<char>,
    response: Seq<char>,
)
    ensures
        settled(
            rewritten(url, path, name, Some(color), response),
            COLOR_OPEN@,
            COLOR_CLOSE@,
            xml_escaped(color),
        ),
{
    lemma_tags();
    lemma_escaped_has_no_brackets(color);
    let named = renamed(owners_rewritten(relocated(url, path, response)), name);
    lemma_rewrite_settles(named, COLOR_OPEN@, COLOR_CLOSE@, xml_escaped(color), 0);
    lemma_publish_detached(COLOR_OPEN@);
    lemma_publish_detached(COLOR_CLOSE@);
    lemma_rewrite_keeps_settled(
        recolored(named, color),
        PUBLISH_OPEN@,
        PUBLISH_CLOSE@,
        PUBLISH_BODY@,
        0,
        COLOR_OPEN@,
        COLOR_CLOSE@,
        xml_escaped(color),
    );
}

/// Where no colour is configured, the colour step changes nothing: the
/// response is the upstream one, relocated, owned, renamed and republished.
pub proof fn lemma_unconfigured_color_passes(
    url: Seq<char>,
    path: Seq<char>,
    name: Seq<char>,
    response: Seq<char>,
)
    ensures
        color_applied(response, None) == response,
        rewritten(url, path, name, None, response) == republished(
            renamed(owners_rewritten(relocated(url, path, response)), name),
        ),
{
}

/// A response in which the upstream path does not occur is relocated to
/// itself.
pub proof fn lemma_relocated_unchanged(url: Seq<char>, path: Seq<char>, response: Seq<char>)
    requires
        first_occurrence(response, upstream_suffix(url), 0) is None,
    ensures
        relocated(url, path, response) == response,
{
    assert(response.subrange(0, response.len() as int) =~= response);
}

/// Relocating a relocated response changes nothing more, as long as
/// relocating has not itself written the upstream path: that is, where the
/// once relocated response holds no occurrence of it, or the upstream path is
/// empty or is the virtual path itself, so that relocating changes nothing at
/// all.
pub proof fn lemma_relocation_idempotent(url: Seq<char>, path: Seq<char>, response: Seq<char>)
    requires
        upstream_suffix(url).len() == 0 || upstream_suffix(url) == virtual_path(path)
            || first_occurrence(relocated(url, path, response), upstream_suffix(url), 0) is None,
    ensures
        relocated(url, path, relocated(url, path, response)) == relocated(url, path, response),
{
    let once = relocated(url, path, response);
    if upstream_suffix(url).len() == 0 {
        assert(once.subrange(0, once.len() as int) =~= once);
    } else if upstream_suffix(url) == virtual_path(path) {
        lemma_replace_by_itself(once, upstream_suffix(url), 0);
        assert(once.subrange(0, once.len() as int) =~= once);
    } else {
        lemma_relocated_unchanged(url, path, once);
    }
}

/// Whatever the order of a request: where it names properties of the catalog,
/// and none twice, the answer holds one part for each of them, which is the
/// catalog's answer for it, and no two parts are the same.
pub proof fn lemma_each_fragment_once(names: Seq<Seq<char>>)
    requires
        names.no_duplicates(),
        forall|k: int| 0 <= k < names.len() ==> catalog_has(#[trigger] names[k]),
    ensures
        answers(names).len() == names.len(),
        forall|k: int|
            0 <= k < names.len() ==> catalog_fragment(names[k]) == Some(
                #[trigger] answers(names)[k],
            ),
        answers(names).no_duplicates(),
{
    let parts = answers(names);
    assert forall|i: int, j: int| 0 <= i < parts.len() && 0 <= j < parts.len() && i != j implies parts[i]
        != parts[j] by {
        if parts[i] == parts[j] {
            lemma_catalog_injective(names[i], names[j]);
        }
    }
}

/// Parts that hold nothing add nothing.
pub proof fn lemma_joined_without_empty(parts: Seq<Seq<char>>, k: int)
    requires
        0 <= k < parts.len(),
        parts[k].len() == 0,
    ensures
        joined(parts) == joined(parts.remove(k)),
    decreases parts.len(),
{
    if k == parts.len() - 1 {
        assert(parts.remove(k) =~= parts.drop_last());
        assert(joined(parts.drop_last()) + parts.last() =~= joined(parts.drop_last()));
    } else {
        lemma_joined_without_empty(parts.drop_last(), k);
        assert(parts.remove(k).drop_last() =~= parts.drop_last().remove(k));
        assert(parts.remove(k).last() == parts.last());
    }
}

/// A property that the catalog does not hold is left out and changes nothing
/// else: the answer is the one to the request without it.
pub proof fn lemma_unknown_property_omitted(
    names: Seq<Seq<char>>,
    k: int,
    href: Seq<char>,
    principal: bool,
)
    requires
        0 <= k < names.len(),
        !catalog_has(names[k]),
    ensures
        multistatus(href, prop_block(names, principal)) == multistatus(
            href,
            prop_block(names.remove(k), principal),
        ),
{
    lemma_joined_without_empty(answers(names), k);
    assert(answers(names).remove(k) =~= answers(names.remove(k)));
}

} // verus!
