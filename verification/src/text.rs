//! Character sequences: conversion between strings and vectors of characters,
//! searching for a literal pattern, and literal substitution.
//!
//! A pattern is text and nothing else: no character of it stands for any
//! other, so that a path with a `.` in it is found where exactly that path
//! stands. What is put in its place is text as well, in which `$` is a
//! character like any other.

use vstd::prelude::*;
use vstd::std_specs::iter::IteratorSpec;

verus! {

/// `String::push` appends one character to the end of the string.
pub assume_specification[ String::push ](s: &mut String, ch: char)
    ensures
        final(s)@ == old(s)@.push(ch),
;

/// The error of `core::str::from_utf8`.
#[verifier::external_type_specification]
#[verifier::external_body]
pub struct ExUtf8Error(core::str::Utf8Error);

/// `core::str::from_utf8` succeeds on valid UTF-8, and on nothing else; the
/// string it gives is made of the bytes it was given.
pub assume_specification<'a>[ core::str::from_utf8 ](bytes: &'a [u8]) -> (outcome: Result<
    &'a str,
    core::str::Utf8Error,
>)
    ensures
        match outcome {
            Ok(s) => vstd::utf8::valid_utf8(bytes@) && vstd::utf8::encode_utf8(s@) == bytes@,
            Err(_) => !vstd::utf8::valid_utf8(bytes@),
        },
;

/// The text that `bytes` encode: `None` unless they are valid UTF-8.
pub open spec fn decoded(bytes: Seq<u8>) -> Option<Seq<char>> {
    if vstd::utf8::valid_utf8(bytes) {
        Some(vstd::utf8::decode_utf8(bytes))
    } else {
        None
    }
}

/// Reads `bytes` as UTF-8 text.
pub fn decode<'a>(bytes: &'a [u8]) -> (text: Option<&'a str>)
    ensures
        match text {
            Some(s) => decoded(bytes@) == Some(s@),
            None => decoded(bytes@) is None,
        },
{
    match core::str::from_utf8(bytes) {
        Ok(s) => {
            proof {
                vstd::utf8::encode_utf8_decode_utf8(s@);
            }
            Some(s)
        },
        Err(_) => None,
    }
}

/// The characters of `s`, in order.
pub fn chars_of(s: &str) -> (out: Vec<char>)
    ensures
        out@ == s@,
{
    let mut out: Vec<char> = Vec::new();
    let mut it = s.chars();
    proof {
        vstd::string::axiom_spec_iter(s);
    }
    loop
        invariant
            it.obeys_prophetic_iter_laws(),
            it.decrease() is Some,
            out@ + it.remaining() == s@,
        decreases it.decrease()->0,
    {
        let ghost before = it;
        let next = it.next();
        proof {
            vstd::string::next_postcondition(&before, &it, next);
        }
        match next {
            Some(ch) => {
                out.push(ch);
                assert(out@ + it.remaining() =~= s@);
            },
            None => {
                assert(out@ =~= s@);
                return out;
            },
        }
    }
}

/// The string whose characters are those of `chars`, in order.
pub fn string_of(chars: &Vec<char>) -> (out: String)
    ensures
        out@ == chars@,
{
    let mut out = String::new();
    let mut i: usize = 0;
    while i < chars.len()
        invariant
            i <= chars.len(),
            out@ == chars@.subrange(0, i as int),
        decreases chars.len() - i,
    {
        out.push(chars[i]);
        i = i + 1;
        assert(out@ =~= chars@.subrange(0, i as int));
    }
    assert(chars@.subrange(0, chars.len() as int) =~= chars@);
    out
}

/// The texts that a vector of strings holds.
pub open spec fn texts(strings: Seq<String>) -> Seq<Seq<char>> {
    strings.map_values(|s: String| s@)
}

/// `parts` one behind the other.
pub open spec fn joined(parts: Seq<Seq<char>>) -> Seq<char>
    decreases parts.len(),
{
    if parts.len() == 0 {
        Seq::empty()
    } else {
        joined(parts.drop_last()) + parts.last()
    }
}

/// `pat` stands in `text` at index `at`.
pub open spec fn occurs_at(text: Seq<char>, pat: Seq<char>, at: int) -> bool {
    &&& 0 <= at
    &&& at + pat.len() <= text.len()
    &&& text.subrange(at, at + pat.len()) == pat
}

/// The least index at or after `from` at which `pat` stands in `text`.
pub open spec fn first_occurrence(text: Seq<char>, pat: Seq<char>, from: int) -> Option<int>
    decreases text.len() + 1 - from,
{
    if from < 0 || from + pat.len() > text.len() {
        None
    } else if occurs_at(text, pat, from) {
        Some(from)
    } else {
        first_occurrence(text, pat, from + 1)
    }
}

/// What `first_occurrence` finds is an occurrence, and nothing stands between
/// `from` and it; where it finds nothing, there is no occurrence from `from` on.
pub proof fn lemma_first_occurrence(text: Seq<char>, pat: Seq<char>, from: int)
    requires
        0 <= from,
    ensures
        match first_occurrence(text, pat, from) {
            Some(i) => from <= i && occurs_at(text, pat, i) && forall|j: int|
                from <= j < i ==> !occurs_at(text, pat, j),
            None => forall|j: int| from <= j ==> !occurs_at(text, pat, j),
        },
    decreases text.len() + 1 - from,
{
    if from + pat.len() > text.len() {
    } else if occurs_at(text, pat, from) {
    } else {
        lemma_first_occurrence(text, pat, from + 1);
    }
}

/// Whether `pat` stands in `text` at `at`.
pub fn matches_at(text: &Vec<char>, pat: &Vec<char>, at: usize) -> (found: bool)
    requires
        at + pat.len() <= text.len(),
    ensures
        found == occurs_at(text@, pat@, at as int),
{
    let mut k: usize = 0;
    while k < pat.len()
        invariant
            k <= pat.len(),
            at + pat.len() <= text.len(),
            forall|m: int| 0 <= m < k ==> text@[at + m] == pat@[m],
        decreases pat.len() - k,
    {
        if text[at + k] != pat[k] {
            assert(text@.subrange(at as int, at + pat@.len())[k as int] == text@[at + k]);
            return false;
        }
        k = k + 1;
    }
    assert(text@.subrange(at as int, at + pat@.len()) =~= pat@);
    true
}

/// Whether `a` and `b` hold the same characters.
pub fn chars_equal(a: &Vec<char>, b: &Vec<char>) -> (same: bool)
    ensures
        same == (a@ == b@),
{
    if a.len() != b.len() {
        return false;
    }
    let same = matches_at(a, b, 0);
    assert(a@.subrange(0, a@.len() as int) =~= a@);
    same
}

/// The first index at or after `from` at which `pat` stands in `text`.
pub fn find(text: &Vec<char>, pat: &Vec<char>, from: usize) -> (found: Option<usize>)
    ensures
        match found {
            Some(i) => first_occurrence(text@, pat@, from as int) == Some(i as int),
            None => first_occurrence(text@, pat@, from as int) is None,
        },
{
    if pat.len() > text.len() {
        return None;
    }
    let last: usize = text.len() - pat.len();
    let mut i: usize = from;
    while i <= last
        invariant
            from <= i,
            last == text.len() - pat.len(),
            first_occurrence(text@, pat@, from as int) == first_occurrence(text@, pat@, i as int),
        decreases last - i,
    {
        if matches_at(text, pat, i) {
            return Some(i);
        }
        if i == last {
            assert(first_occurrence(text@, pat@, last + 1) is None);
            return None;
        }
        i = i + 1;
    }
    None
}

/// The number of indices from `pos` on at which `pat` stands in `text`.
pub open spec fn count_from(text: Seq<char>, pat: Seq<char>, pos: int) -> nat
    decreases text.len() + 1 - pos,
{
    if pos < 0 || pos + pat.len() > text.len() {
        0
    } else if occurs_at(text, pat, pos) {
        1 + count_from(text, pat, pos + 1)
    } else {
        count_from(text, pat, pos + 1)
    }
}

/// The number of indices at which `pat` stands in `text`.
pub open spec fn count_occurrences(text: Seq<char>, pat: Seq<char>) -> nat {
    count_from(text, pat, 0)
}

/// Counts the indices at which `pat` stands in `text`.
pub fn count_chars(text: &Vec<char>, pat: &Vec<char>) -> (count: usize)
    requires
        pat.len() > 0,
    ensures
        count == count_occurrences(text@, pat@),
{
    if pat.len() > text.len() {
        return 0;
    }
    let last: usize = text.len() - pat.len();
    let mut count: usize = 0;
    let mut i: usize = 0;
    while i <= last
        invariant
            i <= last + 1,
            count <= i,
            pat.len() > 0,
            last == text.len() - pat.len(),
            count + count_from(text@, pat@, i as int) == count_occurrences(text@, pat@),
        decreases last + 1 - i,
    {
        if matches_at(text, pat, i) {
            count = count + 1;
        }
        i = i + 1;
    }
    count
}

/// Appends `src[from..to]` to `out`.
pub fn push_range(out: &mut Vec<char>, src: &Vec<char>, from: usize, to: usize)
    requires
        from <= to <= src.len(),
    ensures
        final(out)@ == old(out)@ + src@.subrange(from as int, to as int),
{
    let mut i: usize = from;
    while i < to
        invariant
            from <= i <= to <= src.len(),
            out@ == old(out)@ + src@.subrange(from as int, i as int),
        decreases to - i,
    {
        out.push(src[i]);
        i = i + 1;
        assert(out@ =~= old(out)@ + src@.subrange(from as int, i as int));
    }
}

/// `text` from index `pos` on, with every occurrence of `from` replaced by `to`,
/// taken from left to right without overlap. An empty `from` replaces nothing.
pub open spec fn replace_from(text: Seq<char>, from: Seq<char>, to: Seq<char>, pos: int) -> Seq<char>
    decreases text.len() - pos,
{
    match first_occurrence(text, from, pos) {
        Some(i) if from.len() > 0 && pos <= i && i + from.len() <= text.len() =>
            text.subrange(pos, i) + to + replace_from(text, from, to, i + from.len()),
        _ => if 0 <= pos <= text.len() { text.subrange(pos, text.len() as int) } else { Seq::empty() },
    }
}

/// `text` with every occurrence of `from` replaced by `to`.
pub open spec fn replace_all(text: Seq<char>, from: Seq<char>, to: Seq<char>) -> Seq<char> {
    replace_from(text, from, to, 0)
}

/// Replacing a pattern by itself changes nothing.
pub proof fn lemma_replace_by_itself(text: Seq<char>, pat: Seq<char>, pos: int)
    requires
        0 <= pos <= text.len(),
    ensures
        replace_from(text, pat, pat, pos) == text.subrange(pos, text.len() as int),
    decreases text.len() - pos,
{
    lemma_first_occurrence(text, pat, pos);
    match first_occurrence(text, pat, pos) {
        Some(at) => {
            if pat.len() > 0 {
                lemma_replace_by_itself(text, pat, at + pat.len());
                assert(text.subrange(pos, at) + pat + text.subrange(
                    at + pat.len(),
                    text.len() as int,
                ) =~= text.subrange(pos, text.len() as int));
            }
        },
        None => {},
    }
}

/// Replaces every occurrence of `from` in `text` by `to`.
pub fn replace_all_chars(text: &Vec<char>, from: &Vec<char>, to: &Vec<char>) -> (out: Vec<char>)
    ensures
        out@ == replace_all(text@, from@, to@),
{
    let mut out: Vec<char> = Vec::new();
    let mut pos: usize = 0;
    loop
        invariant
            pos <= text.len(),
            out@ + replace_from(text@, from@, to@, pos as int) == replace_all(text@, from@, to@),
        decreases text.len() - pos,
    {
        let found = if from.len() > 0 { find(text, from, pos) } else { None };
        proof {
            lemma_first_occurrence(text@, from@, pos as int);
        }
        match found {
            Some(i) => {
                let ghost before = out@;
                push_range(&mut out, text, pos, i);
                push_range(&mut out, to, 0, to.len());
                proof {
                    assert(to@.subrange(0, to@.len() as int) =~= to@);
                    assert(out@ + replace_from(text@, from@, to@, i + from@.len()) =~= before
                        + replace_from(text@, from@, to@, pos as int));
                }
                pos = i + from.len();
            },
            None => {
                push_range(&mut out, text, pos, text.len());
                return out;
            },
        }
    }
}

/// What stands for `ch` in XML character data.
pub open spec fn escaped_char(ch: char) -> Seq<char> {
    if ch == '&' {
        "&amp;"@
    } else if ch == '<' {
        "&lt;"@
    } else if ch == '>' {
        "&gt;"@
    } else {
        seq![ch]
    }
}

/// `s` as XML character data: `&`, `<` and `>` are written as entities.
pub open spec fn xml_escaped(s: Seq<char>) -> Seq<char>
    decreases s.len(),
{
    if s.len() == 0 {
        Seq::empty()
    } else {
        xml_escaped(s.drop_last()) + escaped_char(s.last())
    }
}

/// Character data holds neither `<` nor `>`.
pub proof fn lemma_escaped_has_no_brackets(s: Seq<char>)
    ensures
        forall|k: int|
            0 <= k < xml_escaped(s).len() ==> xml_escaped(s)[k] != '<' && xml_escaped(s)[k] != '>',
    decreases s.len(),
{
    reveal_strlit("&amp;");
    reveal_strlit("&lt;");
    reveal_strlit("&gt;");
    if s.len() > 0 {
        lemma_escaped_has_no_brackets(s.drop_last());
        let head = xml_escaped(s.drop_last());
        let tail = escaped_char(s.last());
        assert forall|k: int| 0 <= k < tail.len() implies tail[k] != '<' && tail[k] != '>' by {}
        assert forall|k: int| 0 <= k < xml_escaped(s).len() implies xml_escaped(s)[k] != '<'
            && xml_escaped(s)[k] != '>' by {
            if k < head.len() {
                assert(xml_escaped(s)[k] == head[k]);
            } else {
                assert(xml_escaped(s)[k] == tail[k - head.len()]);
            }
        }
    }
}

/// Writes `s` as XML character data.
pub fn xml_escape(s: &Vec<char>) -> (out: Vec<char>)
    ensures
        out@ == xml_escaped(s@),
{
    let amp = chars_of("&amp;");
    let lt = chars_of("&lt;");
    let gt = chars_of("&gt;");
    let mut out: Vec<char> = Vec::new();
    let mut i: usize = 0;
    while i < s.len()
        invariant
            i <= s.len(),
            amp@ == "&amp;"@,
            lt@ == "&lt;"@,
            gt@ == "&gt;"@,
            out@ == xml_escaped(s@.subrange(0, i as int)),
        decreases s.len() - i,
    {
        let ghost before = out@;
        let ch = s[i];
        if ch == '&' {
            push_range(&mut out, &amp, 0, amp.len());
            assert(amp@.subrange(0, amp@.len() as int) =~= amp@);
        } else if ch == '<' {
            push_range(&mut out, &lt, 0, lt.len());
            assert(lt@.subrange(0, lt@.len() as int) =~= lt@);
        } else if ch == '>' {
            push_range(&mut out, &gt, 0, gt.len());
            assert(gt@.subrange(0, gt@.len() as int) =~= gt@);
        } else {
            out.push(ch);
            assert(out@ =~= before + seq![ch]);
        }
        i = i + 1;
        proof {
            let upto = s@.subrange(0, i as int);
            assert(upto.drop_last() =~= s@.subrange(0, i - 1));
            assert(upto.last() == ch);
        }
    }
    assert(s@.subrange(0, s@.len() as int) =~= s@);
    out
}

/// The decimal digit for `d`.
pub open spec fn digit_char(d: nat) -> char {
    if d == 0 {
        '0'
    } else if d == 1 {
        '1'
    } else if d == 2 {
        '2'
    } else if d == 3 {
        '3'
    } else if d == 4 {
        '4'
    } else if d == 5 {
        '5'
    } else if d == 6 {
        '6'
    } else if d == 7 {
        '7'
    } else if d == 8 {
        '8'
    } else {
        '9'
    }
}

/// `n` in decimal digits, without leading zeros.
pub open spec fn decimal(n: nat) -> Seq<char>
    decreases n,
{
    if n < 10 {
        seq![digit_char(n)]
    } else {
        decimal(n / 10).push(digit_char(n % 10))
    }
}

fn digit(d: u32) -> (ch: char)
    requires
        d < 10,
    ensures
        ch == digit_char(d as nat),
{
    if d == 0 {
        '0'
    } else if d == 1 {
        '1'
    } else if d == 2 {
        '2'
    } else if d == 3 {
        '3'
    } else if d == 4 {
        '4'
    } else if d == 5 {
        '5'
    } else if d == 6 {
        '6'
    } else if d == 7 {
        '7'
    } else if d == 8 {
        '8'
    } else {
        '9'
    }
}

/// Writes `n` in decimal digits.
pub fn decimal_chars(n: u32) -> (out: Vec<char>)
    ensures
        out@ == decimal(n as nat),
    decreases n,
{
    if n < 10 {
        let mut out: Vec<char> = Vec::new();
        out.push(digit(n));
        assert(out@ =~= seq![digit_char(n as nat)]);
        out
    } else {
        let mut out = decimal_chars(n / 10);
        out.push(digit(n % 10));
        out
    }
}

} // verus!
