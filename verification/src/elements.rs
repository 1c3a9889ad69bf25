//! Rewriting the content of XML elements that are found by their literal
//! opening and closing tags.
//!
//! An element reaches from its opening tag to the first closing tag behind
//! it, over as many lines as lie between them, and its new content is put in
//! as it is given. For tags of the usual shape this makes every element of
//! the result hold the new content, which the lemmas of this module prove.

use crate::text::{find, first_occurrence, lemma_first_occurrence, occurs_at, push_range};
use vstd::prelude::*;

verus! {

/// `text` from index `pos` to its end.
pub open spec fn rest(text: Seq<char>, pos: int) -> Seq<char> {
    if 0 <= pos <= text.len() {
        text.subrange(pos, text.len() as int)
    } else {
        Seq::empty()
    }
}

/// `text` from index `pos` on, in which each element is given the content
/// `body`. An element is an occurrence of `open` together with the first
/// occurrence of `close` behind it; elements are taken from left to right, and
/// the search goes on behind the closing tag. An opening tag that nothing
/// closes, and all text outside the elements, is kept as it is.
pub open spec fn rewrite_from(
    text: Seq<char>,
    open: Seq<char>,
    close: Seq<char>,
    body: Seq<char>,
    pos: int,
) -> Seq<char>
    decreases text.len() - pos,
{
    match first_occurrence(text, open, pos) {
        Some(i) if pos <= i && i + open.len() <= text.len() => match first_occurrence(
            text,
            close,
            i + open.len(),
        ) {
            Some(j) if i + open.len() <= j && j + close.len() <= text.len() && open.len()
                + close.len() > 0 => text.subrange(pos, i) + open + body + close + rewrite_from(
                text,
                open,
                close,
                body,
                j + close.len(),
            ),
            _ => rest(text, pos),
        },
        _ => rest(text, pos),
    }
}

/// `text` in which each element between `open` and `close` has the content
/// `body`.
pub open spec fn rewrite_elements(
    text: Seq<char>,
    open: Seq<char>,
    close: Seq<char>,
    body: Seq<char>,
) -> Seq<char> {
    rewrite_from(text, open, close, body, 0)
}

/// Gives each element between `open` and `close` the content `body`.
pub fn rewrite_elements_chars(
    text: &Vec<char>,
    open: &Vec<char>,
    close: &Vec<char>,
    body: &Vec<char>,
) -> (out: Vec<char>)
    ensures
        out@ == rewrite_elements(text@, open@, close@, body@),
{
    let mut out: Vec<char> = Vec::new();
    let mut pos: usize = 0;
    loop
        invariant
            pos <= text.len(),
            out@ + rewrite_from(text@, open@, close@, body@, pos as int) == rewrite_elements(
                text@,
                open@,
                close@,
                body@,
            ),
        decreases text.len() - pos,
    {
        proof {
            lemma_first_occurrence(text@, open@, pos as int);
        }
        let opened = find(text, open, pos);
        let closed = match opened {
            Some(i) => {
                proof {
                    lemma_first_occurrence(text@, close@, i + open@.len());
                }
                if open.len() > 0 || close.len() > 0 {
                    find(text, close, i + open.len())
                } else {
                    None
                }
            },
            None => None,
        };
        match (opened, closed) {
            (Some(i), Some(j)) => {
                let ghost before = out@;
                push_range(&mut out, text, pos, i);
                push_range(&mut out, open, 0, open.len());
                push_range(&mut out, body, 0, body.len());
                push_range(&mut out, close, 0, close.len());
                proof {
                    assert(open@.subrange(0, open@.len() as int) =~= open@);
                    assert(body@.subrange(0, body@.len() as int) =~= body@);
                    assert(close@.subrange(0, close@.len() as int) =~= close@);
                    assert(out@ + rewrite_from(text@, open@, close@, body@, j + close@.len())
                        =~= before + rewrite_from(text@, open@, close@, body@, pos as int));
                }
                pos = j + close.len();
            },
            _ => {
                push_range(&mut out, text, pos, text.len());
                return out;
            },
        }
    }
}

/// `t` has the shape of a tag: it begins with `<`, ends with `>`, and holds
/// neither anywhere else.
pub open spec fn tag_shaped(t: Seq<char>) -> bool {
    &&& t.len() >= 2
    &&& t[0] == '<'
    &&& t[t.len() - 1] == '>'
    &&& forall|k: int| 0 < k < t.len() ==> t[k] != '<'
    &&& forall|k: int| 0 <= k < t.len() - 1 ==> t[k] != '>'
}

/// `b` holds neither `<` nor `>`.
pub open spec fn bracket_free(b: Seq<char>) -> bool {
    forall|k: int| 0 <= k < b.len() ==> b[k] != '<' && b[k] != '>'
}

/// In `text`, each element between `open` and `close` has the content
/// `body`: behind every opening tag that a closing tag follows anywhere, `body`
/// and the closing tag come at once.
pub open spec fn settled(text: Seq<char>, open: Seq<char>, close: Seq<char>, body: Seq<char>) -> bool {
    forall|i: int, j: int|
        #![trigger occurs_at(text, open, i), occurs_at(text, close, j)]
        occurs_at(text, open, i) && i + open.len() <= j && occurs_at(text, close, j) ==> occurs_at(
            text,
            body + close,
            i + open.len(),
        )
}

/// No occurrence of `t` touches `block`, whatever stands around it.
pub open spec fn detached(t: Seq<char>, block: Seq<char>) -> bool {
    forall|a: Seq<char>, r: Seq<char>, k: int|
        #[trigger] occurs_at(a + block + r, t, k) ==> k + t.len() <= a.len() || k >= a.len()
            + block.len()
}

/// An occurrence holds the characters of the pattern.
pub proof fn lemma_occurrence_chars(text: Seq<char>, t: Seq<char>, k: int)
    requires
        occurs_at(text, t, k),
    ensures
        forall|m: int| 0 <= m < t.len() ==> text[k + m] == t[m],
{
    assert forall|m: int| 0 <= m < t.len() implies text[k + m] == t[m] by {
        assert(text.subrange(k, k + t.len())[m] == text[k + m]);
    }
}

/// Where the characters of the pattern stand, it occurs.
pub proof fn lemma_chars_occur(text: Seq<char>, t: Seq<char>, k: int)
    requires
        0 <= k,
        k + t.len() <= text.len(),
        forall|m: int| 0 <= m < t.len() ==> text[k + m] == t[m],
    ensures
        occurs_at(text, t, k),
{
    assert(text.subrange(k, k + t.len()) =~= t);
}

/// An occurrence in a part of `text` is one in `text`, and back.
pub proof fn lemma_occurs_in_part(text: Seq<char>, lo: int, hi: int, t: Seq<char>, k: int)
    requires
        0 <= lo <= hi <= text.len(),
    ensures
        occurs_at(text.subrange(lo, hi), t, k) <==> 0 <= k && k + t.len() <= hi - lo && occurs_at(
            text,
            t,
            lo + k,
        ),
{
    let part = text.subrange(lo, hi);
    if 0 <= k && k + t.len() <= hi - lo {
        assert(part.subrange(k, k + t.len()) =~= text.subrange(lo + k, lo + k + t.len()));
    }
}

/// An occurrence before the end of `a` is one in `a`, and back.
pub proof fn lemma_occurs_in_front(a: Seq<char>, r: Seq<char>, t: Seq<char>, k: int)
    requires
        k + t.len() <= a.len(),
    ensures
        occurs_at(a + r, t, k) <==> occurs_at(a, t, k),
{
    if 0 <= k {
        assert((a + r).subrange(k, k + t.len()) =~= a.subrange(k, k + t.len()));
    }
}

/// An occurrence behind `a` is one in what follows `a`, and back.
pub proof fn lemma_occurs_behind(a: Seq<char>, r: Seq<char>, t: Seq<char>, k: int)
    requires
        k >= a.len(),
    ensures
        occurs_at(a + r, t, k) <==> occurs_at(r, t, k - a.len()),
{
    if k + t.len() <= a.len() + r.len() {
        assert((a + r).subrange(k, k + t.len()) =~= r.subrange(k - a.len(), k - a.len() + t.len()));
    }
}

/// Two tags that occur at one index are one tag.
pub proof fn lemma_tags_at_one_index(text: Seq<char>, t: Seq<char>, u: Seq<char>, k: int)
    requires
        tag_shaped(t),
        tag_shaped(u),
        occurs_at(text, t, k),
        occurs_at(text, u, k),
    ensures
        t == u,
{
    lemma_occurrence_chars(text, t, k);
    lemma_occurrence_chars(text, u, k);
    if t.len() < u.len() {
        assert(u[t.len() - 1] == text[k + t.len() - 1]);
        assert(false);
    }
    if u.len() < t.len() {
        assert(t[u.len() - 1] == text[k + u.len() - 1]);
        assert(false);
    }
    assert(t =~= u);
}

/// Where a tag `t` occurs around a tag `tag` that bracket-free text `x`
/// follows, it stands before them, behind them, or is `tag` itself.
pub proof fn lemma_tag_at_piece(
    a: Seq<char>,
    tag: Seq<char>,
    x: Seq<char>,
    r: Seq<char>,
    t: Seq<char>,
    k: int,
)
    requires
        tag_shaped(t),
        tag_shaped(tag),
        bracket_free(x),
        occurs_at(a + (tag + x) + r, t, k),
    ensures
        k + t.len() <= a.len() || k >= a.len() + tag.len() + x.len() || (k == a.len() && t == tag),
{
    let whole = a + (tag + x) + r;
    lemma_occurrence_chars(whole, t, k);
    if k + t.len() > a.len() && k < a.len() + tag.len() + x.len() {
        if k < a.len() {
            assert(whole[a.len() as int] == tag[0]);
            assert(whole[k + (a.len() - k)] == t[a.len() - k]);
            assert(false);
        }
        let p = k - a.len();
        assert(whole[k + 0] == t[0]);
        assert(whole[k] == (tag + x)[p]);
        if p >= tag.len() {
            assert((tag + x)[p] == x[p - tag.len()]);
            assert(false);
        }
        if p > 0 {
            assert((tag + x)[p] == tag[p]);
            assert(false);
        }
        assert(p == 0);
        assert(whole.subrange(k, k + tag.len()) =~= tag);
        lemma_tags_at_one_index(whole, t, tag, k);
    }
}

/// A tag that is not `tag` touches no occurrence of `tag` with bracket-free
/// text behind it.
pub proof fn lemma_detached_piece(tag: Seq<char>, x: Seq<char>, t: Seq<char>)
    requires
        tag_shaped(t),
        tag_shaped(tag),
        bracket_free(x),
        t != tag,
    ensures
        detached(t, tag + x),
{
    assert forall|a: Seq<char>, r: Seq<char>, k: int|
        #[trigger] occurs_at(a + (tag + x) + r, t, k) implies k + t.len() <= a.len() || k
        >= a.len() + (tag + x).len() by {
        lemma_tag_at_piece(a, tag, x, r, t, k);
    }
}

/// What touches neither of two blocks touches not the two of them in a row.
pub proof fn lemma_detached_concat(first: Seq<char>, second: Seq<char>, t: Seq<char>)
    requires
        t.len() >= 1,
        detached(t, first),
        detached(t, second),
    ensures
        detached(t, first + second),
{
    assert forall|a: Seq<char>, r: Seq<char>, k: int|
        #[trigger] occurs_at(a + (first + second) + r, t, k) implies k + t.len() <= a.len() || k
        >= a.len() + (first + second).len() by {
        let whole = a + (first + second) + r;
        assert(whole =~= a + first + (second + r));
        assert(occurs_at(a + first + (second + r), t, k));
        assert(whole =~= (a + first) + second + r);
        assert(occurs_at((a + first) + second + r, t, k));
    }
}

/// A tag touches no element of other tags with bracket-free content.
pub proof fn lemma_detached_element(open: Seq<char>, body: Seq<char>, close: Seq<char>, t: Seq<char>)
    requires
        tag_shaped(t),
        tag_shaped(open),
        tag_shaped(close),
        bracket_free(body),
        t != open,
        t != close,
    ensures
        detached(t, open + body + close),
{
    lemma_detached_piece(open, body, t);
    lemma_detached_piece(close, Seq::empty(), t);
    assert(close + Seq::<char>::empty() =~= close);
    lemma_detached_concat(open + body, close, t);
}

/// A tag touches no element of other tags whose content is an element of yet
/// other tags with bracket-free content.
pub proof fn lemma_detached_nested(
    open: Seq<char>,
    inner_open: Seq<char>,
    inner_body: Seq<char>,
    inner_close: Seq<char>,
    close: Seq<char>,
    t: Seq<char>,
)
    requires
        tag_shaped(t),
        tag_shaped(open),
        tag_shaped(inner_open),
        tag_shaped(inner_close),
        tag_shaped(close),
        bracket_free(inner_body),
        t != open,
        t != inner_open,
        t != inner_close,
        t != close,
    ensures
        detached(t, open + (inner_open + inner_body + inner_close) + close),
{
    lemma_detached_piece(open, Seq::empty(), t);
    assert(open + Seq::<char>::empty() =~= open);
    lemma_detached_element(inner_open, inner_body, inner_close, t);
    lemma_detached_concat(open, inner_open + inner_body + inner_close, t);
    lemma_detached_piece(close, Seq::empty(), t);
    assert(close + Seq::<char>::empty() =~= close);
    lemma_detached_concat(open + (inner_open + inner_body + inner_close), close, t);
}

/// Text that holds no opening tag is rewritten to itself.
pub proof fn lemma_rewrite_without_element(
    text: Seq<char>,
    open: Seq<char>,
    close: Seq<char>,
    body: Seq<char>,
)
    requires
        first_occurrence(text, open, 0) is None,
    ensures
        rewrite_elements(text, open, close, body) == text,
{
    assert(text.subrange(0, text.len() as int) =~= text);
}

/// After the rewriting every element has the new content.
pub proof fn lemma_rewrite_settles(
    text: Seq<char>,
    open: Seq<char>,
    close: Seq<char>,
    body: Seq<char>,
    pos: int,
)
    requires
        0 <= pos <= text.len(),
        tag_shaped(open),
        tag_shaped(close),
        open != close,
        bracket_free(body),
    ensures
        settled(rewrite_from(text, open, close, body, pos), open, close, body),
    decreases text.len() - pos,
{
    let out = rewrite_from(text, open, close, body, pos);
    let end = text.len() as int;
    lemma_first_occurrence(text, open, pos);
    let opened = first_occurrence(text, open, pos);
    if opened is Some {
        lemma_first_occurrence(text, close, opened->0 + open.len());
    }
    if opened is Some && first_occurrence(text, close, opened->0 + open.len()) is Some {
        let i = opened->0;
        let j = first_occurrence(text, close, i + open.len())->0;
        let a = text.subrange(pos, i);
        let r = rewrite_from(text, open, close, body, j + close.len());
        lemma_rewrite_settles(text, open, close, body, j + close.len());
        let front = a + open + body + close;
        assert(out == front + r);
        assert forall|k: int, m: int|
            occurs_at(out, open, k) && k + open.len() <= m && occurs_at(out, close, m) implies occurs_at(
            out,
            body + close,
            k + open.len(),
        ) by {
            assert(out =~= a + (open + body) + (close + r));
            lemma_tag_at_piece(a, open, body, close + r, open, k);
            if k + open.len() <= a.len() {
                assert(out =~= a + ((open + body) + (close + r)));
                lemma_occurs_in_front(a, (open + body) + (close + r), open, k);
                lemma_occurs_in_part(text, pos, i, open, k);
                assert(occurs_at(text, open, pos + k));
                assert(false);
            } else if k == a.len() {
                assert forall|d: int| 0 <= d < (body + close).len() implies out[k + open.len() + d]
                    == (body + close)[d] by {}
                lemma_chars_occur(out, body + close, k + open.len());
            } else {
                assert(out =~= (a + (open + body)) + (close + Seq::<char>::empty()) + r);
                lemma_tag_at_piece(a + (open + body), close, Seq::empty(), r, open, k);
                lemma_occurs_behind(front, r, open, k);
                lemma_occurs_behind(front, r, close, m);
                assert(occurs_at(r, body + close, k - front.len() + open.len()));
                lemma_occurs_behind(front, r, body + close, k + open.len());
            }
        }
    } else {
        assert(out == text.subrange(pos, end));
        assert forall|k: int, m: int|
            occurs_at(out, open, k) && k + open.len() <= m && occurs_at(out, close, m) implies occurs_at(
            out,
            body + close,
            k + open.len(),
        ) by {
            lemma_occurs_in_part(text, pos, end, open, k);
            lemma_occurs_in_part(text, pos, end, close, m);
            assert(occurs_at(text, open, pos + k));
            assert(occurs_at(text, close, pos + m));
            assert(false);
        }
    }
}

/// The rewriting makes no occurrence of a tag that touches no rewritten
/// element: where such a tag stands in the result, it stood in `text`.
pub proof fn lemma_rewrite_makes_none(
    text: Seq<char>,
    open: Seq<char>,
    close: Seq<char>,
    body: Seq<char>,
    pos: int,
    t: Seq<char>,
    m: int,
) -> (n: int)
    requires
        0 <= pos <= text.len(),
        open.len() + close.len() > 0,
        detached(t, open + body + close),
        occurs_at(rewrite_from(text, open, close, body, pos), t, m),
    ensures
        pos <= n,
        occurs_at(text, t, n),
    decreases text.len() - pos,
{
    let out = rewrite_from(text, open, close, body, pos);
    let end = text.len() as int;
    lemma_first_occurrence(text, open, pos);
    let opened = first_occurrence(text, open, pos);
    if opened is Some {
        lemma_first_occurrence(text, close, opened->0 + open.len());
    }
    if opened is Some && first_occurrence(text, close, opened->0 + open.len()) is Some {
        let i = opened->0;
        let j = first_occurrence(text, close, i + open.len())->0;
        let a = text.subrange(pos, i);
        let block = open + body + close;
        let r = rewrite_from(text, open, close, body, j + close.len());
        assert(out =~= a + block + r);
        assert(occurs_at(a + block + r, t, m));
        if m + t.len() <= a.len() {
            assert(out =~= a + (block + r));
            lemma_occurs_in_front(a, block + r, t, m);
            lemma_occurs_in_part(text, pos, i, t, m);
            pos + m
        } else {
            lemma_occurs_behind(a + block, r, t, m);
            lemma_rewrite_makes_none(
                text,
                open,
                close,
                body,
                j + close.len(),
                t,
                m - a.len() - block.len(),
            )
        }
    } else {
        assert(out == text.subrange(pos, end));
        lemma_occurs_in_part(text, pos, end, t, m);
        pos + m
    }
}

/// The rewriting of other elements keeps what was settled: where each element
/// between `kept_open` and `kept_close` has the content `kept_body`, and these
/// tags touch no rewritten element, the same holds after the rewriting.
pub proof fn lemma_rewrite_keeps_settled(
    text: Seq<char>,
    open: Seq<char>,
    close: Seq<char>,
    body: Seq<char>,
    pos: int,
    kept_open: Seq<char>,
    kept_close: Seq<char>,
    kept_body: Seq<char>,
)
    requires
        0 <= pos <= text.len(),
        tag_shaped(open),
        tag_shaped(kept_open),
        tag_shaped(kept_close),
        bracket_free(kept_body),
        kept_close != open,
        detached(kept_open, open + body + close),
        detached(kept_close, open + body + close),
        settled(text, kept_open, kept_close, kept_body),
    ensures
        settled(rewrite_from(text, open, close, body, pos), kept_open, kept_close, kept_body),
    decreases text.len() - pos,
{
    let out = rewrite_from(text, open, close, body, pos);
    let end = text.len() as int;
    let found = kept_body + kept_close;
    lemma_first_occurrence(text, open, pos);
    let opened = first_occurrence(text, open, pos);
    if opened is Some {
        lemma_first_occurrence(text, close, opened->0 + open.len());
    }
    if opened is Some && first_occurrence(text, close, opened->0 + open.len()) is Some {
        let i = opened->0;
        let j = first_occurrence(text, close, i + open.len())->0;
        let a = text.subrange(pos, i);
        let block = open + body + close;
        let next = j + close.len();
        let r = rewrite_from(text, open, close, body, next);
        lemma_rewrite_keeps_settled(text, open, close, body, next, kept_open, kept_close, kept_body);
        assert(out =~= a + block + r);
        assert(out =~= a + (block + r));
        assert forall|k: int, m: int|
            occurs_at(out, kept_open, k) && k + kept_open.len() <= m && occurs_at(
                out,
                kept_close,
                m,
            ) implies occurs_at(out, found, k + kept_open.len()) by {
            assert(occurs_at(a + block + r, kept_open, k));
            assert(occurs_at(a + block + r, kept_close, m));
            if k >= a.len() + block.len() {
                lemma_occurs_behind(a + block, r, kept_open, k);
                lemma_occurs_behind(a + block, r, kept_close, m);
                let shift = a.len() + block.len();
                assert(occurs_at(r, found, k - shift + kept_open.len()));
                lemma_occurs_behind(a + block, r, found, k + kept_open.len());
            } else {
                lemma_occurs_in_front(a, block + r, kept_open, k);
                lemma_occurs_in_part(text, pos, i, kept_open, k);
                let n = if m + kept_close.len() <= a.len() {
                    lemma_occurs_in_front(a, block + r, kept_close, m);
                    lemma_occurs_in_part(text, pos, i, kept_close, m);
                    pos + m
                } else {
                    lemma_occurs_behind(a + block, r, kept_close, m);
                    lemma_rewrite_makes_none(
                        text,
                        open,
                        close,
                        body,
                        next,
                        kept_close,
                        m - a.len() - block.len(),
                    )
                };
                assert(occurs_at(text, kept_open, pos + k));
                assert(occurs_at(text, kept_close, n));
                let start = pos + k + kept_open.len();
                assert(occurs_at(text, found, start));
                lemma_occurrence_chars(text, found, start);
                let q = start + kept_body.len();
                if q + kept_close.len() > i {
                    lemma_occurrence_chars(text, open, i);
                    assert(text[i + 0] == open[0]);
                    if i < q {
                        assert(text[start + (i - start)] == found[i - start]);
                        assert(false);
                    }
                    assert(text[start + (i - start)] == found[i - start]);
                    assert(found[i - start] == kept_close[i - q]);
                    assert(i == q);
                    assert forall|d: int| 0 <= d < kept_close.len() implies text[q + d]
                        == kept_close[d] by {
                        assert(text[start + (kept_body.len() + d)] == found[kept_body.len() + d]);
                    }
                    lemma_chars_occur(text, kept_close, q);
                    lemma_tags_at_one_index(text, kept_close, open, q);
                    assert(false);
                }
                lemma_occurs_in_part(text, pos, i, found, k + kept_open.len());
                lemma_occurs_in_front(a, block + r, found, k + kept_open.len());
            }
        }
    } else {
        assert(out == text.subrange(pos, end));
        assert forall|k: int, m: int|
            occurs_at(out, kept_open, k) && k + kept_open.len() <= m && occurs_at(
                out,
                kept_close,
                m,
            ) implies occurs_at(out, found, k + kept_open.len()) by {
            lemma_occurs_in_part(text, pos, end, kept_open, k);
            lemma_occurs_in_part(text, pos, end, kept_close, m);
            assert(occurs_at(text, kept_open, pos + k));
            assert(occurs_at(text, kept_close, pos + m));
            assert(occurs_at(text, found, pos + k + kept_open.len()));
            lemma_occurs_in_part(text, pos, end, found, k + kept_open.len());
        }
    }
}

} // verus!
