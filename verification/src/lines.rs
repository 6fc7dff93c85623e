//! Lines and words of a text.
use crate::text::{is_whitespace, is_whitespace_char, slice_chars, texts, to_chars};
use vstd::prelude::*;

verus! {

/// A text that is cut while it is read: what is finished, and what is open.
pub struct Cut {
    pub done: Seq<Seq<char>>,
    pub open: Seq<char>,
}

/// A line without the carriage return before its end.
pub open spec fn without_return(line: Seq<char>) -> Seq<char> {
    if line.len() > 0 && line.last() == '\r' {
        line.drop_last()
    } else {
        line
    }
}

/// The first `n` characters of a text, cut at line feeds.
pub open spec fn lines_cut(s: Seq<char>, n: int) -> Cut
    decreases n,
{
    if n <= 0 {
        Cut { done: Seq::empty(), open: Seq::empty() }
    } else {
        let before = lines_cut(s, n - 1);
        if s[n - 1] == '\n' {
            Cut { done: before.done.push(without_return(before.open)), open: Seq::empty() }
        } else {
            Cut { done: before.done, open: before.open.push(s[n - 1]) }
        }
    }
}

/// The lines of a text: each ends with a line feed, or a carriage return and a
/// line feed, that may be missing at the end of the text.
pub open spec fn lines_of(s: Seq<char>) -> Seq<Seq<char>> {
    let cut = lines_cut(s, s.len() as int);
    if cut.open.len() == 0 {
        cut.done
    } else {
        cut.done.push(cut.open)
    }
}

/// The first `n` characters of a text, cut at whitespace.
pub open spec fn words_cut(s: Seq<char>, n: int) -> Cut
    decreases n,
{
    if n <= 0 {
        Cut { done: Seq::empty(), open: Seq::empty() }
    } else {
        let before = words_cut(s, n - 1);
        if !is_whitespace(s[n - 1]) {
            Cut { done: before.done, open: before.open.push(s[n - 1]) }
        } else if before.open.len() == 0 {
            before
        } else {
            Cut { done: before.done.push(before.open), open: Seq::empty() }
        }
    }
}

/// The words of a text, between its whitespace.
pub open spec fn words_of(s: Seq<char>) -> Seq<Seq<char>> {
    let cut = words_cut(s, s.len() as int);
    if cut.open.len() == 0 {
        cut.done
    } else {
        cut.done.push(cut.open)
    }
}

/// The rows of characters.
pub open spec fn rows(v: Seq<Vec<char>>) -> Seq<Seq<char>> {
    v.map_values(|r: Vec<char>| r@)
}

pub fn split_lines(v: &Vec<char>) -> (r: Vec<Vec<char>>)
    ensures
        rows(r@) == lines_of(v@),
{
    let mut out: Vec<Vec<char>> = Vec::new();
    let mut start: usize = 0;
    let mut i: usize = 0;
    assert(rows(out@) =~= Seq::<Seq<char>>::empty());
    assert(v@.subrange(0, 0) =~= Seq::<char>::empty());
    while i < v.len()
        invariant
            start <= i <= v@.len(),
            lines_cut(v@, i as int).done == rows(out@),
            lines_cut(v@, i as int).open == v@.subrange(start as int, i as int),
        decreases v@.len() - i,
    {
        let ghost before = rows(out@);
        let ghost open = v@.subrange(start as int, i as int);
        if v[i] == '\n' {
            if start < i && v[i - 1] == '\r' {
                assert(open.last() == '\r');
                assert(open.drop_last() =~= v@.subrange(start as int, i - 1));
                out.push(slice_chars(v, start, i - 1));
            } else {
                assert(open.len() > 0 ==> open.last() == v@[i - 1]);
                out.push(slice_chars(v, start, i));
            }
            assert(rows(out@) =~= before.push(without_return(open)));
            start = i + 1;
            assert(v@.subrange(start as int, i + 1) =~= Seq::<char>::empty());
        } else {
            assert(v@.subrange(start as int, i + 1) =~= open.push(v@[i as int]));
        }
        i = i + 1;
    }
    if start < v.len() {
        let ghost before = rows(out@);
        out.push(slice_chars(v, start, i));
        assert(rows(out@) =~= before.push(v@.subrange(start as int, i as int)));
    }
    out
}

pub fn split_words(v: &Vec<char>) -> (r: Vec<Vec<char>>)
    ensures
        rows(r@) == words_of(v@),
{
    let mut out: Vec<Vec<char>> = Vec::new();
    let mut start: usize = 0;
    let mut i: usize = 0;
    assert(rows(out@) =~= Seq::<Seq<char>>::empty());
    assert(v@.subrange(0, 0) =~= Seq::<char>::empty());
    while i < v.len()
        invariant
            start <= i <= v@.len(),
            words_cut(v@, i as int).done == rows(out@),
            words_cut(v@, i as int).open == v@.subrange(start as int, i as int),
        decreases v@.len() - i,
    {
        let ghost before = rows(out@);
        let ghost open = v@.subrange(start as int, i as int);
        if is_whitespace_char(v[i]) {
            if start < i {
                out.push(slice_chars(v, start, i));
                assert(rows(out@) =~= before.push(open));
            }
            start = i + 1;
            assert(v@.subrange(start as int, i + 1) =~= Seq::<char>::empty());
        } else {
            assert(v@.subrange(start as int, i + 1) =~= open.push(v@[i as int]));
        }
        i = i + 1;
    }
    if start < v.len() {
        let ghost before = rows(out@);
        out.push(slice_chars(v, start, i));
        assert(rows(out@) =~= before.push(v@.subrange(start as int, i as int)));
    }
    out
}

/// The first `n` characters of a text with every line end written as a line
/// feed.
pub open spec fn with_line_feeds(s: Seq<char>, n: int) -> Seq<char>
    decreases n,
{
    if n <= 0 {
        Seq::empty()
    } else {
        let before = with_line_feeds(s, n - 1);
        if s[n - 1] == '\r' {
            before.push('\n')
        } else if s[n - 1] == '\n' && n >= 2 && s[n - 2] == '\r' {
            before
        } else {
            before.push(s[n - 1])
        }
    }
}

pub fn unify_line_ends(v: &Vec<char>) -> (r: Vec<char>)
    ensures
        r@ == with_line_feeds(v@, v@.len() as int),
{
    let mut out: Vec<char> = Vec::new();
    let mut i: usize = 0;
    while i < v.len()
        invariant
            i <= v@.len(),
            out@ == with_line_feeds(v@, i as int),
        decreases v@.len() - i,
    {
        let c = v[i];
        if c == '\r' {
            out.push('\n');
        } else if c == '\n' && i > 0 && v[i - 1] == '\r' {
        } else {
            out.push(c);
        }
        i = i + 1;
    }
    out
}

/// The first `n` texts with a separator between them.
pub open spec fn joined(parts: Seq<Seq<char>>, separator: Seq<char>, n: int) -> Seq<char>
    decreases n,
{
    if n <= 0 {
        Seq::empty()
    } else if n == 1 {
        parts[0]
    } else {
        joined(parts, separator, n - 1) + separator + parts[n - 1]
    }
}

/// The texts with a separator between them.
pub open spec fn join_of(parts: Seq<Seq<char>>, separator: Seq<char>) -> Seq<char> {
    joined(parts, separator, parts.len() as int)
}

pub fn join_texts(parts: &Vec<String>, separator: &str) -> (r: String)
    ensures
        r@ == join_of(texts(parts@), separator@),
{
    let ghost all = texts(parts@);
    if parts.len() == 0 {
        return String::new();
    }
    let mut out: String = parts[0].clone();
    let mut i: usize = 1;
    assert(out@ == all[0]);
    while i < parts.len()
        invariant
            1 <= i <= parts@.len(),
            all == texts(parts@),
            out@ == joined(all, separator@, i as int),
        decreases parts@.len() - i,
    {
        assert(all[i as int] == parts@[i as int]@);
        out = out.concat(separator).concat(parts[i].as_str());
        i = i + 1;
    }
    out
}

pub open spec fn begins_with(s: Seq<char>, prefix: Seq<char>) -> bool {
    s.len() >= prefix.len() && s.take(prefix.len() as int) == prefix
}

/// Whether a text stands at a place of another.
pub open spec fn stands_at(s: Seq<char>, part: Seq<char>, k: int) -> bool {
    0 <= k && k + part.len() <= s.len() && s.subrange(k, k + part.len()) == part
}

/// Whether a text stands somewhere in another.
pub open spec fn includes(s: Seq<char>, part: Seq<char>) -> bool {
    exists|k: int| #[trigger] stands_at(s, part, k)
}

fn chars_stand_at(v: &Vec<char>, part: &Vec<char>, k: usize) -> (r: bool)
    ensures
        r == stands_at(v@, part@, k as int),
{
    let all: usize = v.len();
    if k > all || part.len() > all - k {
        return false;
    }
    let mut i: usize = 0;
    while i < part.len()
        invariant
            i <= part@.len(),
            all == v@.len(),
            k + part@.len() <= all,
            forall|j: int| 0 <= j < i ==> v@[k + j] == #[trigger] part@[j],
        decreases part@.len() - i,
    {
        if v[k + i] != part[i] {
            assert(v@.subrange(k as int, k + part@.len())[i as int] == v@[k + i]);
            return false;
        }
        i = i + 1;
    }
    assert(v@.subrange(k as int, k + part@.len()) =~= part@);
    true
}

pub fn chars_begin_with(v: &Vec<char>, prefix: &str) -> (r: bool)
    ensures
        r == begins_with(v@, prefix@),
{
    let p = to_chars(prefix);
    let r = chars_stand_at(v, &p, 0);
    assert(v@.len() >= p@.len() ==> v@.subrange(0, p@.len() as int) =~= v@.take(p@.len() as int));
    r
}

/// The first place of a text in another, if it stands there.
pub open spec fn place_of(s: Seq<char>, part: Seq<char>, k: int) -> bool {
    &&& stands_at(s, part, k)
    &&& forall|j: int| 0 <= j < k ==> !#[trigger] stands_at(s, part, j)
}

pub fn find_in_chars(v: &Vec<char>, part: &str) -> (r: Option<usize>)
    ensures
        match r {
            Some(k) => place_of(v@, part@, k as int),
            None => !includes(v@, part@),
        },
{
    let p = to_chars(part);
    let mut k: usize = 0;
    while k < v.len()
        invariant
            k <= v@.len(),
            p@ == part@,
            forall|j: int| 0 <= j < k ==> !#[trigger] stands_at(v@, part@, j),
        decreases v@.len() - k,
    {
        if chars_stand_at(v, &p, k) {
            return Some(k);
        }
        k = k + 1;
    }
    if chars_stand_at(v, &p, k) {
        return Some(k);
    }
    None
}

pub fn chars_include(v: &Vec<char>, part: &str) -> (r: bool)
    ensures
        r == includes(v@, part@),
{
    find_in_chars(v, part).is_some()
}

/// Whether a line holds no line feed.
pub open spec fn is_line(s: Seq<char>) -> bool {
    forall|j: int| 0 <= j < s.len() ==> #[trigger] s[j] != '\n'
}

/// Whether a word has characters, and no whitespace among them.
pub open spec fn is_word(s: Seq<char>) -> bool {
    s.len() > 0 && forall|j: int| 0 <= j < s.len() ==> !is_whitespace(#[trigger] s[j])
}

proof fn lemma_lines_cut(s: Seq<char>, n: int)
    requires
        0 <= n <= s.len(),
    ensures
        forall|i: int|
            0 <= i < lines_cut(s, n).done.len() ==> is_line(#[trigger] lines_cut(s, n).done[i]),
        is_line(lines_cut(s, n).open),
    decreases n,
{
    if n > 0 {
        lemma_lines_cut(s, n - 1);
        let before = lines_cut(s, n - 1);
        assert(is_line(without_return(before.open)));
        let now = lines_cut(s, n);
        assert forall|i: int| 0 <= i < now.done.len() implies is_line(#[trigger] now.done[i]) by {
            if i < before.done.len() {
                assert(now.done[i] == before.done[i]);
            }
        }
    }
}

/// No line holds a line feed.
pub proof fn lines_hold_no_line_feed(s: Seq<char>, i: int)
    requires
        0 <= i < lines_of(s).len(),
    ensures
        is_line(lines_of(s)[i]),
{
    lemma_lines_cut(s, s.len() as int);
}

proof fn lemma_words_cut(s: Seq<char>, n: int)
    requires
        0 <= n <= s.len(),
    ensures
        forall|i: int|
            0 <= i < words_cut(s, n).done.len() ==> is_word(#[trigger] words_cut(s, n).done[i]),
        words_cut(s, n).open.len() > 0 ==> is_word(words_cut(s, n).open),
    decreases n,
{
    if n > 0 {
        lemma_words_cut(s, n - 1);
        let before = words_cut(s, n - 1);
        let now = words_cut(s, n);
        assert forall|i: int| 0 <= i < now.done.len() implies is_word(#[trigger] now.done[i]) by {
            if i < before.done.len() {
                assert(now.done[i] == before.done[i]);
            }
        }
    }
}

/// A word has characters, and no whitespace among them.
pub proof fn words_hold_no_whitespace(s: Seq<char>, i: int)
    requires
        0 <= i < words_of(s).len(),
    ensures
        is_word(words_of(s)[i]),
{
    lemma_words_cut(s, s.len() as int);
}

/// Lists of one to five texts.
pub fn text_list1(a: &str) -> (r: Vec<String>)
    ensures
        texts(r@) == seq![a@],
{
    let mut v: Vec<String> = Vec::new();
    v.push(a.to_owned());
    assert(texts(v@) =~= seq![a@]);
    v
}

pub fn text_list2(a: &str, b: &str) -> (r: Vec<String>)
    ensures
        texts(r@) == seq![a@, b@],
{
    let mut v = text_list1(a);
    let ghost before = texts(v@);
    v.push(b.to_owned());
    assert(texts(v@) =~= before.push(b@));
    assert(texts(v@) =~= seq![a@, b@]);
    v
}

pub fn text_list3(a: &str, b: &str, c: &str) -> (r: Vec<String>)
    ensures
        texts(r@) == seq![a@, b@, c@],
{
    let mut v = text_list2(a, b);
    let ghost before = texts(v@);
    v.push(c.to_owned());
    assert(texts(v@) =~= before.push(c@));
    assert(texts(v@) =~= seq![a@, b@, c@]);
    v
}

pub fn text_list4(a: &str, b: &str, c: &str, d: &str) -> (r: Vec<String>)
    ensures
        texts(r@) == seq![a@, b@, c@, d@],
{
    let mut v = text_list3(a, b, c);
    let ghost before = texts(v@);
    v.push(d.to_owned());
    assert(texts(v@) =~= before.push(d@));
    assert(texts(v@) =~= seq![a@, b@, c@, d@]);
    v
}

pub fn text_list5(a: &str, b: &str, c: &str, d: &str, e: &str) -> (r: Vec<String>)
    ensures
        texts(r@) == seq![a@, b@, c@, d@, e@],
{
    let mut v = text_list4(a, b, c, d);
    let ghost before = texts(v@);
    v.push(e.to_owned());
    assert(texts(v@) =~= before.push(e@));
    assert(texts(v@) =~= seq![a@, b@, c@, d@, e@]);
    v
}

/// The first `n` characters of a text, cut at each `c`.
pub open spec fn pieces_cut(s: Seq<char>, c: char, n: int) -> Cut
    decreases n,
{
    if n <= 0 {
        Cut { done: Seq::empty(), open: Seq::empty() }
    } else {
        let before = pieces_cut(s, c, n - 1);
        if s[n - 1] != c {
            Cut { done: before.done, open: before.open.push(s[n - 1]) }
        } else {
            Cut { done: before.done.push(before.open), open: Seq::empty() }
        }
    }
}

/// The pieces of a text between the `c` in it, empty ones among them.
pub open spec fn pieces_of(s: Seq<char>, c: char) -> Seq<Seq<char>> {
    let cut = pieces_cut(s, c, s.len() as int);
    cut.done.push(cut.open)
}

pub fn split_pieces(v: &Vec<char>, c: char) -> (r: Vec<Vec<char>>)
    ensures
        rows(r@) == pieces_of(v@, c),
{
    let mut out: Vec<Vec<char>> = Vec::new();
    let mut start: usize = 0;
    let mut i: usize = 0;
    assert(rows(out@) =~= Seq::<Seq<char>>::empty());
    assert(v@.subrange(0, 0) =~= Seq::<char>::empty());
    while i < v.len()
        invariant
            start <= i <= v@.len(),
            pieces_cut(v@, c, i as int).done == rows(out@),
            pieces_cut(v@, c, i as int).open == v@.subrange(start as int, i as int),
        decreases v@.len() - i,
    {
        let ghost before = rows(out@);
        let ghost open = v@.subrange(start as int, i as int);
        if v[i] == c {
            out.push(slice_chars(v, start, i));
            assert(rows(out@) =~= before.push(open));
            start = i + 1;
            assert(v@.subrange(start as int, i + 1) =~= Seq::<char>::empty());
        } else {
            assert(v@.subrange(start as int, i + 1) =~= open.push(v@[i as int]));
        }
        i = i + 1;
    }
    let ghost before = rows(out@);
    out.push(slice_chars(v, start, i));
    assert(rows(out@) =~= before.push(v@.subrange(start as int, i as int)));
    out
}

/// What stands behind the first place of a text in another, if it stands there.
pub open spec fn behind(s: Seq<char>, part: Seq<char>) -> Option<Seq<char>> {
    if includes(s, part) {
        Some(s.skip(first_place(s, part) + part.len()))
    } else {
        None
    }
}

/// The first place of a text in another.
pub open spec fn first_place(s: Seq<char>, part: Seq<char>) -> int {
    choose|k: int| place_of(s, part, k)
}

proof fn lemma_first_place(s: Seq<char>, part: Seq<char>, k: int)
    requires
        place_of(s, part, k),
    ensures
        first_place(s, part) == k,
{
    let found = first_place(s, part);
    assert(place_of(s, part, found));
    if found < k {
        assert(!stands_at(s, part, found));
    }
    if k < found {
        assert(!stands_at(s, part, k));
    }
}

pub fn chars_behind(v: &Vec<char>, part: &str) -> (r: Option<Vec<char>>)
    ensures
        match (r, behind(v@, part@)) {
            (Some(t), Some(s)) => t@ == s,
            (None, None) => true,
            _ => false,
        },
{
    let p = to_chars(part);
    match find_in_chars(v, part) {
        None => None,
        Some(k) => {
            proof {
                assert(stands_at(v@, part@, k as int));
                lemma_first_place(v@, part@, k as int);
            }
            let all: usize = v.len();
            let rest = slice_chars(v, k + p.len(), all);
            assert(rest@ =~= v@.skip(k + part@.len()));
            Some(rest)
        },
    }
}

} // verus!
