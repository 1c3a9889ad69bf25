//! What the gateway reads from an XML document. The documents are parsed and
//! written by the `exile` crate; this module states what is taken from it.

use crate::text::{find, first_occurrence, lemma_first_occurrence};
use vstd::prelude::*;

verus! {

/// The error of the XML parser.
#[verifier::external_type_specification]
#[verifier::external_body]
pub struct ExXmlError(exile::error::Error);

/// The name of one element: without its namespace prefix, and with it.
pub struct ElementName {
    pub name: String,
    pub fullname: String,
}

impl ElementName {
    /// The two names as character sequences.
    pub open spec fn view(&self) -> (Seq<char>, Seq<char>) {
        (self.name@, self.fullname@)
    }
}

/// The names that a vector of element names holds.
pub open spec fn element_names(elements: Seq<ElementName>) -> Seq<(Seq<char>, Seq<char>)> {
    elements.map_values(|e: ElementName| e@)
}

/// Blank characters that may stand before a document.
pub open spec fn is_blank(ch: char) -> bool {
    ch == ' ' || ch == '\t' || ch == '\n' || ch == '\r' || ch == '\x0C'
}

/// The index of the first character at or after `pos` that is not blank.
pub open spec fn blank_end(text: Seq<char>, pos: int) -> int
    decreases text.len() - pos,
{
    if 0 <= pos < text.len() && is_blank(text[pos]) {
        blank_end(text, pos + 1)
    } else {
        pos
    }
}

/// Every character of `text` from `from` up to `to` is ASCII.
pub open spec fn all_ascii(text: Seq<char>, from: int, to: int) -> bool {
    forall|i: int| from <= i < to && 0 <= i < text.len() ==> #[trigger] text[i] <= '\u{7f}'
}

/// How deep the elements of a document may be nested for the parser to be
/// given it. The parser descends once for each nested element, and so does
/// what copies, writes and frees its result; this bound keeps all of them
/// well inside the stack of an ordinary thread.
pub const MAX_NESTING: usize = 32;

/// Where the scan of a document stands: between tags, inside an opening tag,
/// inside an attribute value in single or in double quotes, or inside a
/// closing tag.
#[derive(Clone, Copy, Debug)]
pub enum Scan {
    Content,
    Tag,
    Single,
    Double,
    Closing,
}

/// One step of the scan, over the character at `pos`: where the scan stands
/// behind it, and how many elements are open there. A `<` opens an element,
/// or begins a closing tag where `/` follows it; the `>` of an opening tag
/// closes the element at once where `/` stands before it. Inside an attribute
/// value only its quote counts.
pub open spec fn scan_step(text: Seq<char>, pos: int, mode: Scan, depth: nat) -> (Scan, nat) {
    let ch = text[pos];
    match mode {
        Scan::Content => if ch != '<' {
            (Scan::Content, depth)
        } else if pos + 1 < text.len() && text[pos + 1] == '/' {
            (Scan::Closing, if depth > 0 { (depth - 1) as nat } else { depth })
        } else {
            (Scan::Tag, depth + 1)
        },
        Scan::Tag => if ch == '"' {
            (Scan::Double, depth)
        } else if ch == '\'' {
            (Scan::Single, depth)
        } else if ch != '>' {
            (Scan::Tag, depth)
        } else if pos > 0 && text[pos - 1] == '/' && depth > 0 {
            (Scan::Content, (depth - 1) as nat)
        } else {
            (Scan::Content, depth)
        },
        Scan::Single => if ch == '\'' {
            (Scan::Tag, depth)
        } else {
            (Scan::Single, depth)
        },
        Scan::Double => if ch == '"' {
            (Scan::Tag, depth)
        } else {
            (Scan::Double, depth)
        },
        Scan::Closing => if ch == '>' {
            (Scan::Content, depth)
        } else {
            (Scan::Closing, depth)
        },
    }
}

/// From `pos` on, with the scan standing at `mode` and `depth` elements open,
/// never more than `limit` elements are open.
pub open spec fn nesting_within(text: Seq<char>, pos: int, mode: Scan, depth: nat, limit: nat) -> bool
    decreases text.len() - pos,
{
    if pos < 0 || pos >= text.len() {
        true
    } else {
        let next = scan_step(text, pos, mode, depth);
        next.1 <= limit && nesting_within(text, pos + 1, next.0, next.1, limit)
    }
}

/// Whether the one processing instruction that `text` may hold is an XML
/// declaration that the parser takes: it stands at the start, blanks aside,
/// no other follows it, and up to its end it holds ASCII characters only. The
/// parser cuts the declaration's values by bytes.
pub open spec fn declaration_safe(text: Seq<char>) -> bool {
    match first_occurrence(text, "<?"@, 0) {
        None => true,
        Some(at) => at == blank_end(text, 0) && first_occurrence(text, "<?"@, at + 1) is None
            && match first_occurrence(text, "?>"@, at + 2) {
            Some(end) => all_ascii(text, at, end),
            None => true,
        },
    }
}

/// Where the elements of `text` begin: behind the declaration, where there
/// is one.
pub open spec fn scan_start(text: Seq<char>) -> int {
    match first_occurrence(text, "<?"@, 0) {
        None => 0,
        Some(at) => match first_occurrence(text, "?>"@, at + 2) {
            Some(end) => end + 2,
            None => 0,
        },
    }
}

/// Whether the parser can be given `text`. It can where `text` holds
/// - no `<!`: no comment, no CDATA section and no document type;
/// - no `>>`: nothing that lets a `>` follow the end of an element at once;
/// - no processing instruction but a declaration that the parser takes;
/// - elements that are nested no deeper than `MAX_NESTING`.
/// On any other text the parser may stop the program, so such a text is
/// refused before it is parsed.
///
/// Without `<!` and with no instruction behind the declaration, every `<`
/// that the parser meets between tags begins an opening or a closing tag. A
/// tag that the parser takes ends at its first `>` outside an attribute
/// value, and holds a `/` outside a value only right before that `>`. So the
/// scan meets the same tags as the parser for as long as the parser goes on,
/// and counts no fewer open elements than the parser has entered.
pub open spec fn parser_safe(text: Seq<char>) -> bool {
    &&& first_occurrence(text, "<!"@, 0) is None
    &&& first_occurrence(text, ">>"@, 0) is None
    &&& declaration_safe(text)
    &&& nesting_within(text, scan_start(text), Scan::Content, 0, MAX_NESTING as nat)
}

/// Whether the one processing instruction that `text` may hold is a
/// declaration that the parser takes; with it, where the elements begin.
fn check_declaration(text: &Vec<char>) -> (start: Option<usize>)
    ensures
        match start {
            Some(s) => declaration_safe(text@) && s == scan_start(text@) && s <= text.len(),
            None => !declaration_safe(text@),
        },
{
    let open = crate::text::chars_of("<?");
    let close = crate::text::chars_of("?>");
    proof {
        reveal_strlit("<?");
        reveal_strlit("?>");
        lemma_first_occurrence(text@, open@, 0);
    }
    let at = match find(text, &open, 0) {
        None => { return Some(0); },
        Some(at) => at,
    };
    let mut blanks: usize = 0;
    while blanks < text.len() && (text[blanks] == ' ' || text[blanks] == '\t' || text[blanks]
        == '\n' || text[blanks] == '\r' || text[blanks] == '\x0C')
        invariant
            blanks <= text.len(),
            blank_end(text@, 0) == blank_end(text@, blanks as int),
        decreases text.len() - blanks,
    {
        blanks = blanks + 1;
    }
    if at != blanks {
        return None;
    }
    if find(text, &open, at + 1).is_some() {
        return None;
    }
    proof {
        lemma_first_occurrence(text@, close@, at + 2);
    }
    match find(text, &close, at + 2) {
        None => Some(0),
        Some(end) => {
            let mut i: usize = at;
            while i < end
                invariant
                    at <= i <= end <= text.len(),
                    end + 2 <= text.len(),
                    first_occurrence(text@, "<?"@, 0) == Some(at as int),
                    at == blank_end(text@, 0),
                    first_occurrence(text@, "<?"@, at + 1) is None,
                    first_occurrence(text@, "?>"@, at + 2) == Some(end as int),
                    all_ascii(text@, at as int, i as int),
                decreases end - i,
            {
                if text[i] > '\u{7f}' {
                    return None;
                }
                i = i + 1;
            }
            Some(end + 2)
        },
    }
}

/// Whether the parser can be given `text`.
pub fn is_parser_safe(text: &Vec<char>) -> (safe: bool)
    ensures
        safe == parser_safe(text@),
{
    if find(text, &crate::text::chars_of("<!"), 0).is_some() {
        return false;
    }
    if find(text, &crate::text::chars_of(">>"), 0).is_some() {
        return false;
    }
    let start = match check_declaration(text) {
        Some(start) => start,
        None => { return false; },
    };
    let mut pos: usize = start;
    let mut mode = Scan::Content;
    let mut depth: usize = 0;
    while pos < text.len()
        invariant
            pos <= text.len(),
            depth <= MAX_NESTING,
            first_occurrence(text@, "<!"@, 0) is None,
            first_occurrence(text@, ">>"@, 0) is None,
            declaration_safe(text@),
            start == scan_start(text@),
            nesting_within(text@, start as int, Scan::Content, 0, MAX_NESTING as nat)
                == nesting_within(text@, pos as int, mode, depth as nat, MAX_NESTING as nat),
        decreases text.len() - pos,
    {
        let ch = text[pos];
        let (next, open): (Scan, usize) = match mode {
            Scan::Content => if ch != '<' {
                (Scan::Content, depth)
            } else if pos + 1 < text.len() && text[pos + 1] == '/' {
                (Scan::Closing, if depth > 0 { depth - 1 } else { depth })
            } else {
                (Scan::Tag, depth + 1)
            },
            Scan::Tag => if ch == '"' {
                (Scan::Double, depth)
            } else if ch == '\'' {
                (Scan::Single, depth)
            } else if ch != '>' {
                (Scan::Tag, depth)
            } else if pos > 0 && text[pos - 1] == '/' && depth > 0 {
                (Scan::Content, depth - 1)
            } else {
                (Scan::Content, depth)
            },
            Scan::Single => if ch == '\'' {
                (Scan::Tag, depth)
            } else {
                (Scan::Single, depth)
            },
            Scan::Double => if ch == '"' {
                (Scan::Tag, depth)
            } else {
                (Scan::Double, depth)
            },
            Scan::Closing => if ch == '>' {
                (Scan::Content, depth)
            } else {
                (Scan::Closing, depth)
            },
        };
        assert((next, open as nat) == scan_step(text@, pos as int, mode, depth as nat));
        if open > MAX_NESTING {
            return false;
        }
        mode = next;
        depth = open;
        pos = pos + 1;
    }
    true
}

/// What the parser reads from a request: `None` where `text` is no well-formed
/// XML document; `Some(None)` where the first node inside the document's root
/// is no element; else the names of the elements that are children of that
/// first node, in document order.
pub uninterp spec fn prop_children(text: Seq<char>) -> Option<Option<Seq<(Seq<char>, Seq<char>)>>>;

/// Parses `request` with `exile::parse` and reads the child elements of the
/// first node of the root, each by `Element::name` and `Element::fullname`.
/// The result is what `prop_children` names; the parser's error is handed on.
/// The request has to be `parser_safe`: on another text `exile::parse` may
/// panic or use up the stack.
#[verifier::external_body]
pub(crate) fn read_prop_children(request: &str) -> (read: Result<
    Option<Vec<ElementName>>,
    exile::error::Error,
>)
    requires
        parser_safe(request@),
    ensures
        match read {
            Ok(Some(children)) => prop_children(request@) == Some(Some(element_names(children@))),
            Ok(None) => prop_children(request@) == Some(None::<Seq<(Seq<char>, Seq<char>)>>),
            Err(_) => prop_children(request@) is None,
        },
{
    let document = exile::parse(request)?;
    Ok(match document.root().first_node() {
        Some(exile::Node::Element(prop)) => Some(
            prop.children().map(|child| ElementName {
                name: child.name().to_string(),
                fullname: child.fullname().to_string(),
            }).collect(),
        ),
        _ => None,
    })
}

/// What the parser makes of the first child of a document: `None` where
/// `text` is no well-formed XML document; `Some(None)` where the first node
/// inside the root is no element; else that element written out as a document
/// of its own.
pub uninterp spec fn first_child_document(text: Seq<char>) -> Option<Option<Seq<char>>>;

/// Parses `text` with `exile::parse`, takes the first node of the root, and
/// writes it with `Document::from_root` and `to_string`. The result is what
/// `first_child_document` names; the parser's error is handed on. The text
/// has to be `parser_safe`: on another text `exile::parse` may panic or use up
/// the stack.
#[verifier::external_body]
pub(crate) fn read_first_child(text: &str) -> (read: Result<Option<String>, exile::error::Error>)
    requires
        parser_safe(text@),
    ensures
        match read {
            Ok(Some(child)) => first_child_document(text@) == Some(Some(child@)),
            Ok(None) => first_child_document(text@) == Some(None::<Seq<char>>),
            Err(_) => first_child_document(text@) is None,
        },
{
    let document = exile::parse(text)?;
    Ok(match document.root().first_node() {
        Some(exile::Node::Element(child)) => Some(
            exile::Document::from_root(child.clone()).to_string(),
        ),
        _ => None,
    })
}

/// The parser's error in words, as its `to_string` gives them.
#[verifier::external_body]
pub(crate) fn error_text(error: &exile::error::Error) -> String {
    error.to_string()
}

} // verus!
