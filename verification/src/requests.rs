//! The matcher/extractor pipeline: evaluating a template's matchers against
//! one HTTP response and extracting candidate hostnames from its body.

use vstd::prelude::*;
use vstd::assert_by_contradiction;
use vstd::string::*;
use crate::document::{
    doc_view, doc_view_entries, doc_view_list, lemma_doc_view_entries_index,
    lemma_doc_view_entries_len, lemma_doc_view_list_index, lemma_doc_view_list_len, DocSpec,
    DocValue,
};
use crate::parse::{json_doc_of, parse_json_doc};
use crate::template::{lookup_entry, spec_lookup, Matcher, MatcherV, Template};
use crate::text::{
    first_line, normalize_hostname, spec_first_line, spec_normalize_hostname, str_eq,
};

verus! {

broadcast use vstd::std_specs::vec::group_vec_axioms, vstd::seq::axiom_seq_index_decreases;

/// Whether the regex crate accepts the pattern: a pure function of it.
pub uninterp spec fn regex_valid(pat: Seq<char>) -> bool;

/// For every match of the pattern in the text, in order, the text of capture
/// group 1; matches without that group are skipped. A pure function of the
/// pattern and the text.
pub uninterp spec fn regex_group1_of(pat: Seq<char>, body: Seq<char>) -> Seq<Seq<char>>;

/// Relies on regex::Regex::new and Regex::captures_iter: compiling and
/// matching are deterministic in the pattern and the text.
#[verifier::external_body]
fn regex_captures_group1(pat: &str, body: &str) -> (r: Option<Vec<String>>)
    ensures
        match r {
            Some(v) => regex_valid(pat@) && v.deep_view() == regex_group1_of(pat@, body@),
            None => !regex_valid(pat@),
        },
{
    match regex::Regex::new(pat) {
        Ok(re) => Some(
            re.captures_iter(body).filter_map(
                |cap: regex::Captures| cap.get(1).map(|m: regex::Match| m.as_str().to_owned()),
            ).collect(),
        ),
        Err(_) => None,
    }
}

/// Appends to `acc` each item, in order, that `acc` does not yet hold.
pub open spec fn spec_merge_unseen(acc: Seq<Seq<char>>, items: Seq<Seq<char>>) -> Seq<Seq<char>>
    decreases items.len(),
{
    if items.len() == 0 {
        acc
    } else if acc.contains(items[0]) {
        spec_merge_unseen(acc, items.drop_first())
    } else {
        spec_merge_unseen(acc.push(items[0]), items.drop_first())
    }
}

/// The items with every later duplicate dropped, first occurrences in order,
/// ignoring anything already in `seen`.
pub open spec fn spec_dedup_skipping(items: Seq<Seq<char>>, seen: Seq<Seq<char>>) -> Seq<Seq<char>>
    decreases items.len(),
{
    if items.len() == 0 {
        Seq::empty()
    } else if seen.contains(items[0]) {
        spec_dedup_skipping(items.drop_first(), seen)
    } else {
        seq![items[0]] + spec_dedup_skipping(items.drop_first(), seen.push(items[0]))
    }
}

/// The items with duplicates dropped, first occurrences in order.
pub open spec fn spec_dedup(items: Seq<Seq<char>>) -> Seq<Seq<char>> {
    spec_dedup_skipping(items, Seq::empty())
}

/// True when the vector holds the string.
pub fn vec_contains_string(v: &Vec<String>, x: &str) -> (r: bool)
    ensures
        r == v.deep_view().contains(x@),
{
    let mut i: usize = 0;
    while i < v.len()
        invariant
            i <= v@.len(),
            forall|j: int| 0 <= j < i ==> v.deep_view()[j] != x@,
        decreases v@.len() - i,
    {
        proof {
            assert(v.deep_view()[i as int] == v@[i as int]@);
        }
        if str_eq(v[i].as_str(), x) {
            return true;
        }
        i += 1;
    }
    false
}

/// A deep copy of a document node.
#[verifier::loop_isolation(false)]
pub fn clone_doc(d: &DocValue) -> (r: DocValue)
    ensures
        r@ == d@,
    decreases *d,
{
    match d {
        DocValue::Text(s) => DocValue::Text(s.clone()),
        DocValue::Int(i) => DocValue::Int(*i),
        DocValue::Bool(b) => DocValue::Bool(*b),
        DocValue::List(items) => {
            let mut out: Vec<DocValue> = Vec::new();
            let mut i: usize = 0;
            while i < items.len()
                invariant
                    i <= items@.len(),
                    out@.len() == i,
                    forall|j: int|
                        #![trigger out@[j]]
                        0 <= j < i ==> doc_view(out@[j]) == doc_view(items@[j]),
                decreases items@.len() - i,
            {
                let c = clone_doc(&items[i]);
                out.push(c);
                i += 1;
            }
            proof {
                lemma_doc_view_list_len(items@);
                lemma_doc_view_list_len(out@);
                assert forall|j: int| 0 <= j < out@.len() implies doc_view_list(out@)[j]
                    == doc_view_list(items@)[j] by {
                    lemma_doc_view_list_index(out@, j);
                    lemma_doc_view_list_index(items@, j);
                }
                assert(doc_view_list(out@) =~= doc_view_list(items@));
            }
            DocValue::List(out)
        },
        DocValue::Entries(entries) => {
            let mut out: Vec<(Option<String>, DocValue)> = Vec::new();
            let mut i: usize = 0;
            while i < entries.len()
                invariant
                    i <= entries@.len(),
                    out@.len() == i,
                    forall|j: int|
                        #![trigger out@[j]]
                        0 <= j < i ==> doc_view(out@[j].1) == doc_view(entries@[j].1) && out@[j].0
                            == entries@[j].0,
                decreases entries@.len() - i,
            {
                let key: Option<String> = match &entries[i].0 {
                    Some(k) => Some(k.clone()),
                    None => None,
                };
                let c = clone_doc(&entries[i].1);
                out.push((key, c));
                i += 1;
            }
            proof {
                lemma_doc_view_entries_len(entries@);
                lemma_doc_view_entries_len(out@);
                assert forall|j: int| 0 <= j < out@.len() implies doc_view_entries(out@)[j]
                    == doc_view_entries(entries@)[j] by {
                    lemma_doc_view_entries_index(out@, j);
                    lemma_doc_view_entries_index(entries@, j);
                }
                assert(doc_view_entries(out@) =~= doc_view_entries(entries@));
            }
            DocValue::Entries(out)
        },
        DocValue::Other => DocValue::Other,
    }
}

/// A node with a string truncated to its first line; other nodes unchanged.
pub open spec fn spec_truncate_node(d: DocSpec) -> DocSpec {
    if d is Text {
        DocSpec::Text(spec_first_line(d->Text_0))
    } else {
        d
    }
}

/// One descent step by a key: a mapping yields the value stored under the
/// key (an empty mapping when absent); a list applies the step to every
/// element and flattens one level, truncating string leaves to their first
/// line; any other node collapses to an empty mapping.
pub open spec fn spec_json_step(d: DocSpec, w: Seq<char>) -> DocSpec
    decreases d, 0int,
{
    match d {
        DocSpec::Entries(e) => match spec_lookup(e, w) {
            Some(v) => v,
            None => DocSpec::Entries(Seq::empty()),
        },
        DocSpec::List(items) => DocSpec::List(spec_flatten_from(items, w, 0)),
        _ => DocSpec::Entries(Seq::empty()),
    }
}

/// The flattened step results of the list elements from index `i` on.
pub open spec fn spec_flatten_from(items: Seq<DocSpec>, w: Seq<char>, i: int) -> Seq<DocSpec>
    decreases items, items.len() - i,
{
    if !(0 <= i < items.len()) {
        Seq::empty()
    } else {
        spec_expand(spec_json_step(items[i], w)) + spec_flatten_from(items, w, i + 1)
    }
}

/// A stepped element flattened one level: a list contributes its elements
/// (strings truncated); anything else contributes itself (truncated).
pub open spec fn spec_expand(stepped: DocSpec) -> Seq<DocSpec> {
    if stepped is List {
        Seq::new(stepped->List_0.len(), |j: int| spec_truncate_node(stepped->List_0[j]))
    } else {
        seq![spec_truncate_node(stepped)]
    }
}

/// The document after descending through the whole key path.
pub open spec fn spec_descend(d: DocSpec, words: Seq<Seq<char>>) -> DocSpec
    decreases words.len(),
{
    if words.len() == 0 {
        d
    } else {
        spec_descend(spec_json_step(d, words[0]), words.drop_first())
    }
}

/// The string elements of the final node, truncated to their first line, in
/// order; a node that is not a list yields nothing.
pub open spec fn spec_string_leaves(d: DocSpec) -> Seq<Seq<char>> {
    if d is List {
        spec_texts_filter_from(d->List_0, 0)
    } else {
        Seq::empty()
    }
}

/// The truncated strings among the elements from index `i` on.
pub open spec fn spec_texts_filter_from(items: Seq<DocSpec>, i: int) -> Seq<Seq<char>>
    decreases items.len() - i,
{
    if !(0 <= i < items.len()) {
        Seq::empty()
    } else if items[i] is Text {
        seq![spec_first_line(items[i]->Text_0)] + spec_texts_filter_from(items, i + 1)
    } else {
        spec_texts_filter_from(items, i + 1)
    }
}

/// Truncates a string node to its first line.
pub fn truncate_node(d: DocValue) -> (r: DocValue)
    ensures
        r@ == spec_truncate_node(d@),
{
    match d {
        DocValue::Text(s) => DocValue::Text(first_line(s.as_str())),
        other => other,
    }
}

/// One descent step by a key over an owned-result tree walk.
#[verifier::loop_isolation(false)]
pub fn json_step(d: &DocValue, w: &str) -> (r: DocValue)
    ensures
        r@ == spec_json_step(d@, w@),
    decreases *d,
{
    match d {
        DocValue::Entries(entries) => match lookup_entry(entries, w) {
            Some(i) => clone_doc(&entries[i].1),
            None => DocValue::Entries(Vec::new()),
        },
        DocValue::List(items) => {
            let ghost items_v = doc_view_list(items@);
            proof {
                lemma_doc_view_list_len(items@);
            }
            let mut out: Vec<DocValue> = Vec::new();
            let mut i: usize = 0;
            while i < items.len()
                invariant
                    i <= items@.len(),
                    spec_flatten_from(items_v, w@, 0) == doc_view_list(out@) + spec_flatten_from(
                        items_v,
                        w@,
                        i as int,
                    ),
                decreases items@.len() - i,
            {
                proof {
                    lemma_doc_view_list_index(items@, i as int);
                }
                let ghost out0 = out@;
                let stepped = json_step(&items[i], w);
                let ghost stepped_v = stepped@;
                match stepped {
                    DocValue::List(arr) => {
                        let ghost arr_v = doc_view_list(arr@);
                        proof {
                            lemma_doc_view_list_len(arr@);
                            assert forall|j: int| 0 <= j < arr@.len() implies doc_view(arr@[j])
                                == arr_v[j] by {
                                lemma_doc_view_list_index(arr@, j);
                            }
                        }
                        let mut arr_rest = arr;
                        let ghost n0 = out@.len();
                        while arr_rest.len() > 0
                            invariant
                                out@.len() + arr_rest@.len() == n0 + arr_v.len(),
                                out@.len() >= n0,
                                out@.subrange(0, n0 as int) == out0,
                                forall|j: int|
                                    #![trigger arr_rest@[j]]
                                    0 <= j < arr_rest@.len() ==> doc_view(arr_rest@[j]) == arr_v[
                                        out@.len() - n0 + j
                                    ],
                                forall|j: int|
                                    #![trigger out@[n0 + j]]
                                    0 <= j < out@.len() - n0 ==> doc_view(out@[n0 + j])
                                        == spec_truncate_node(arr_v[j]),
                            decreases arr_rest@.len(),
                        {
                            let ghost rest0 = arr_rest@;
                            let x = arr_rest.remove(0);
                            let t = truncate_node(x);
                            out.push(t);
                            proof {
                                assert(out@.subrange(0, n0 as int) =~= out0);
                                assert forall|j: int| 0 <= j < arr_rest@.len() implies doc_view(
                                    arr_rest@[j],
                                ) == arr_v[out@.len() - n0 + j] by {
                                    assert(arr_rest@[j] == rest0[j + 1]);
                                }
                            }
                        }
                        proof {
                            lemma_doc_view_list_len(out@);
                            lemma_doc_view_list_len(out0);
                            assert forall|j: int| 0 <= j < out@.len() implies doc_view_list(
                                out@,
                            )[j] == (doc_view_list(out0) + spec_expand(stepped_v))[j] by {
                                lemma_doc_view_list_index(out@, j);
                                if j < n0 {
                                    lemma_doc_view_list_index(out0, j);
                                    assert(out@[j] == out0[j]);
                                } else {
                                    assert(doc_view(out@[n0 + (j - n0)]) == spec_truncate_node(
                                        arr_v[j - n0],
                                    ));
                                }
                            }
                            assert(doc_view_list(out@) =~= doc_view_list(out0) + spec_expand(
                                stepped_v,
                            ));
                        }
                    },
                    other => {
                        let t = truncate_node(other);
                        out.push(t);
                        proof {
                            lemma_doc_view_list_len(out@);
                            lemma_doc_view_list_len(out0);
                            assert forall|j: int| 0 <= j < out@.len() implies doc_view_list(
                                out@,
                            )[j] == (doc_view_list(out0) + spec_expand(stepped_v))[j] by {
                                lemma_doc_view_list_index(out@, j);
                                if j < out0.len() {
                                    lemma_doc_view_list_index(out0, j);
                                    assert(out@[j] == out0[j]);
                                }
                            }
                            assert(doc_view_list(out@) =~= doc_view_list(out0) + spec_expand(
                                stepped_v,
                            ));
                        }
                    },
                }
                i += 1;
                proof {
                    assert(spec_flatten_from(items_v, w@, i - 1) == spec_expand(stepped_v)
                        + spec_flatten_from(items_v, w@, i as int));
                    assert((doc_view_list(out0) + spec_expand(stepped_v)) + spec_flatten_from(
                        items_v,
                        w@,
                        i as int,
                    ) =~= doc_view_list(out0) + (spec_expand(stepped_v) + spec_flatten_from(
                        items_v,
                        w@,
                        i as int,
                    )));
                }
            }
            proof {
                assert(doc_view_list(out@) + spec_flatten_from(items_v, w@, items_v.len() as int)
                    =~= doc_view_list(out@));
            }
            DocValue::List(out)
        },
        _ => DocValue::Entries(Vec::new()),
    }
}

/// Descends through the whole key path.
pub fn json_descend(d: DocValue, words: &Vec<String>) -> (r: DocValue)
    ensures
        r@ == spec_descend(d@, words.deep_view()),
{
    let ghost d0 = d@;
    let ghost words_v = words.deep_view();
    let mut cur = d;
    let mut i: usize = 0;
    proof {
        assert(words_v.skip(0) =~= words_v);
    }
    while i < words.len()
        invariant
            i <= words@.len(),
            words_v == words.deep_view(),
            words_v.len() == words@.len(),
            spec_descend(d0, words_v) == spec_descend(cur@, words_v.skip(i as int)),
        decreases words@.len() - i,
    {
        proof {
            let rest = words_v.skip(i as int);
            assert(rest[0] == words_v[i as int]);
            assert(rest.drop_first() =~= words_v.skip(i + 1));
        }
        cur = json_step(&cur, words[i].as_str());
        i += 1;
    }
    proof {
        assert(spec_descend(cur@, words_v.skip(words_v.len() as int)) == cur@);
    }
    cur
}

/// Collects the string elements of the final node, truncated to their first
/// line; a node that is not a list yields nothing.
#[verifier::loop_isolation(false)]
pub fn string_leaves(d: &DocValue) -> (r: Vec<String>)
    ensures
        r.deep_view() == spec_string_leaves(d@),
{
    let items = match d {
        DocValue::List(items) => items,
        _ => {
            let r: Vec<String> = Vec::new();
            proof {
                assert(r.deep_view() =~= Seq::<Seq<char>>::empty());
            }
            return r;
        },
    };
    let ghost lv = doc_view_list(items@);
    proof {
        lemma_doc_view_list_len(items@);
    }
    let mut out: Vec<String> = Vec::new();
    let mut i: usize = 0;
    proof {
        assert(Seq::<Seq<char>>::empty() + spec_texts_filter_from(lv, 0) =~= spec_texts_filter_from(
            lv,
            0,
        ));
    }
    while i < items.len()
        invariant
            i <= items@.len(),
            spec_texts_filter_from(lv, 0) == out.deep_view() + spec_texts_filter_from(
                lv,
                i as int,
            ),
        decreases items@.len() - i,
    {
        let ghost out0 = out.deep_view();
        proof {
            lemma_doc_view_list_index(items@, i as int);
        }
        match &items[i] {
            DocValue::Text(s) => {
                let line = first_line(s.as_str());
                out.push(line);
                proof {
                    assert(out.deep_view() =~= out0.push(spec_first_line(s@)));
                    assert(out0 + (seq![spec_first_line(s@)] + spec_texts_filter_from(lv, i + 1))
                        =~= out.deep_view() + spec_texts_filter_from(lv, i + 1));
                }
            },
            _ => {},
        }
        i += 1;
    }
    proof {
        assert(out.deep_view() + spec_texts_filter_from(lv, lv.len() as int) =~= out.deep_view());
    }
    out
}

/// Appends to `acc` each item of `items`, in order, that `acc` does not yet
/// hold.
pub fn merge_unseen_into(acc: &mut Vec<String>, items: &Vec<String>)
    ensures
        final (acc).deep_view() == spec_merge_unseen(old(acc).deep_view(), items.deep_view()),
{
    let ghost full = items.deep_view();
    let ghost acc0 = old(acc).deep_view();
    let mut i: usize = 0;
    proof {
        assert(full.skip(0) =~= full);
    }
    while i < items.len()
        invariant
            i <= items@.len(),
            full == items.deep_view(),
            full.len() == items@.len(),
            spec_merge_unseen(acc0, full) == spec_merge_unseen(acc.deep_view(), full.skip(i as int)),
        decreases items@.len() - i,
    {
        proof {
            let rest = full.skip(i as int);
            assert(rest[0] == full[i as int]);
            assert(rest.drop_first() =~= full.skip(i + 1));
        }
        let ghost before = acc.deep_view();
        if !vec_contains_string(acc, items[i].as_str()) {
            acc.push(items[i].clone());
            proof {
                assert(acc.deep_view() =~= before.push(full[i as int]));
            }
        }
        i += 1;
    }
    proof {
        assert(spec_merge_unseen(acc.deep_view(), full.skip(full.len() as int)) == acc.deep_view());
    }
}

/// The items with duplicates dropped, first occurrences kept in order.
pub fn dedup_strings(items: &Vec<String>) -> (r: Vec<String>)
    ensures
        r.deep_view() == spec_dedup(items.deep_view()),
{
    let ghost full = items.deep_view();
    let mut out: Vec<String> = Vec::new();
    let mut seen: Vec<String> = Vec::new();
    let mut i: usize = 0;
    proof {
        assert(full.skip(0) =~= full);
        assert(out.deep_view() =~= Seq::<Seq<char>>::empty());
        assert(seen.deep_view() =~= Seq::<Seq<char>>::empty());
        assert(out.deep_view() + spec_dedup_skipping(full, seen.deep_view())
            =~= spec_dedup_skipping(full, Seq::empty()));
    }
    while i < items.len()
        invariant
            i <= items@.len(),
            full == items.deep_view(),
            full.len() == items@.len(),
            spec_dedup(full) == out.deep_view() + spec_dedup_skipping(
                full.skip(i as int),
                seen.deep_view(),
            ),
        decreases items@.len() - i,
    {
        proof {
            let rest = full.skip(i as int);
            assert(rest[0] == full[i as int]);
            assert(rest.drop_first() =~= full.skip(i + 1));
        }
        let ghost out0 = out.deep_view();
        let ghost seen0 = seen.deep_view();
        if !vec_contains_string(&seen, items[i].as_str()) {
            out.push(items[i].clone());
            seen.push(items[i].clone());
            proof {
                assert(out.deep_view() =~= out0.push(full[i as int]));
                assert(seen.deep_view() =~= seen0.push(full[i as int]));
                assert(out0 + (seq![full[i as int]] + spec_dedup_skipping(
                    full.skip(i + 1),
                    seen.deep_view(),
                )) =~= out.deep_view() + spec_dedup_skipping(full.skip(i + 1), seen.deep_view()));
            }
        }
        i += 1;
    }
    proof {
        assert(out.deep_view() + spec_dedup_skipping(full.skip(full.len() as int), seen.deep_view())
            =~= out.deep_view());
    }
    out
}

/// The HTTP methods the probe executor dispatches.
#[derive(PartialEq, Eq, Structural, Clone, Copy, Debug)]
pub enum HttpMethod {
    Get,
    Post,
}

/// Why one request could not be built: no wire call is made for it.
#[derive(PartialEq, Eq, Structural, Clone, Copy, Debug)]
pub enum RequestBuildError {
    /// The declared method is neither `GET` nor `POST`.
    UnsupportedMethod,
    /// A header name or value is not wire-legal.
    Header,
}

/// Parses the request's declared method: only `GET` and `POST` are
/// dispatched; anything else fails immediately, with no retry.
pub fn parse_method(m: &str) -> (r: Result<HttpMethod, RequestBuildError>)
    ensures
        match r {
            Ok(HttpMethod::Get) => m@ == "GET"@,
            Ok(HttpMethod::Post) => m@ == "POST"@,
            Err(e) => e == RequestBuildError::UnsupportedMethod && m@ != "GET"@ && m@ != "POST"@,
        },
{
    if str_eq(m, "GET") {
        Ok(HttpMethod::Get)
    } else if str_eq(m, "POST") {
        Ok(HttpMethod::Post)
    } else {
        Err(RequestBuildError::UnsupportedMethod)
    }
}

/// A character legal in a header name: an HTTP token character.
pub open spec fn is_token_char(c: char) -> bool {
    ||| 'a' <= c <= 'z'
    ||| 'A' <= c <= 'Z'
    ||| '0' <= c <= '9'
    ||| c == '!'
    ||| c == '#'
    ||| c == '$'
    ||| c == '%'
    ||| c == '&'
    ||| c == '\''
    ||| c == '*'
    ||| c == '+'
    ||| c == '-'
    ||| c == '.'
    ||| c == '^'
    ||| c == '_'
    ||| c == '`'
    ||| c == '|'
    ||| c == '~'
}

/// A wire-legal header name: non-empty, token characters only.
pub open spec fn header_name_legal(s: Seq<char>) -> bool {
    s.len() > 0 && forall|i: int| 0 <= i < s.len() ==> is_token_char(#[trigger] s[i])
}

/// A character legal in a header value: a tab, or anything that is neither
/// a control character nor delete.
pub open spec fn is_value_char(c: char) -> bool {
    c == '\t' || (c as u32 >= 32 && c as u32 != 127)
}

/// A wire-legal header value.
pub open spec fn header_value_legal(s: Seq<char>) -> bool {
    forall|i: int| 0 <= i < s.len() ==> is_value_char(#[trigger] s[i])
}

/// A wire-legal header table.
pub open spec fn headers_legal(hs: Seq<(Seq<char>, Seq<char>)>) -> bool {
    forall|i: int|
        0 <= i < hs.len() ==> header_name_legal(#[trigger] hs[i].0) && header_value_legal(hs[i].1)
}

/// True when every character of the name is a token character and the name
/// is non-empty.
fn check_header_name(s: &str) -> (r: bool)
    ensures
        r == header_name_legal(s@),
{
    let len = s.unicode_len();
    if len == 0 {
        return false;
    }
    let mut i: usize = 0;
    while i < len
        invariant
            len == s@.len(),
            i <= len,
            forall|j: int| 0 <= j < i ==> is_token_char(#[trigger] s@[j]),
        decreases len - i,
    {
        let c = s.get_char(i);
        let ok = ('a' <= c && c <= 'z') || ('A' <= c && c <= 'Z') || ('0' <= c && c <= '9') || c
            == '!' || c == '#' || c == '$' || c == '%' || c == '&' || c == '\'' || c == '*' || c
            == '+' || c == '-' || c == '.' || c == '^' || c == '_' || c == '`' || c == '|' || c
            == '~';
        if !ok {
            return false;
        }
        i += 1;
    }
    true
}

/// True when every character of the value is wire-legal.
fn check_header_value(s: &str) -> (r: bool)
    ensures
        r == header_value_legal(s@),
{
    let len = s.unicode_len();
    let mut i: usize = 0;
    while i < len
        invariant
            len == s@.len(),
            i <= len,
            forall|j: int| 0 <= j < i ==> is_value_char(#[trigger] s@[j]),
        decreases len - i,
    {
        let c = s.get_char(i);
        let n = c as u32;
        if !(c == '\t' || (n >= 32 && n != 127)) {
            return false;
        }
        i += 1;
    }
    true
}

/// Checks a request's header table for wire-legality: a single bad name or
/// value aborts that request only, before any wire call.
pub fn validate_headers(headers: &Vec<(String, String)>) -> (r: Result<(), RequestBuildError>)
    ensures
        match r {
            Ok(()) => headers_legal(headers.deep_view()),
            Err(e) => e == RequestBuildError::Header && !headers_legal(headers.deep_view()),
        },
{
    let ghost hs = headers.deep_view();
    let mut i: usize = 0;
    while i < headers.len()
        invariant
            i <= headers@.len(),
            hs == headers.deep_view(),
            hs.len() == headers@.len(),
            forall|j: int|
                #![trigger hs[j]]
                0 <= j < i ==> header_name_legal(hs[j].0) && header_value_legal(hs[j].1),
        decreases headers@.len() - i,
    {
        proof {
            assert(hs[i as int] == (headers@[i as int].0@, headers@[i as int].1@));
        }
        if !check_header_name(headers[i].0.as_str()) {
            proof {
                assert_by_contradiction!(!headers_legal(hs), {
                    assert(header_name_legal(hs[i as int].0));
                });
            }
            return Err(RequestBuildError::Header);
        }
        if !check_header_value(headers[i].1.as_str()) {
            proof {
                assert_by_contradiction!(!headers_legal(hs), {
                    assert(header_name_legal(hs[i as int].0));
                    assert(header_value_legal(hs[i as int].1));
                });
            }
            return Err(RequestBuildError::Header);
        }
        proof {
            assert(header_name_legal(hs[i as int].0));
            assert(header_value_legal(hs[i as int].1));
        }
        i += 1;
    }
    Ok(())
}

/// What the regex filter extracts: group-1 captures under a valid pattern,
/// nothing under an invalid one.
pub open spec fn spec_regex_results(pat: Seq<char>, body: Seq<char>) -> Seq<Seq<char>> {
    if regex_valid(pat) {
        regex_group1_of(pat, body)
    } else {
        Seq::empty()
    }
}

/// The regex filter's extraction for a matcher: nothing without a pattern.
pub open spec fn spec_regex_filter_result(m: MatcherV, body: Seq<char>) -> Seq<Seq<char>> {
    match m.value {
        Some(pat) => spec_regex_results(pat, body),
        None => Seq::empty(),
    }
}

/// The string leaves the JSON filter walks for a matcher: descend through
/// its key path (or stay at the root without one) and take the strings.
pub open spec fn spec_json_leaves_for(doc: DocSpec, m: MatcherV) -> Seq<Seq<char>> {
    spec_string_leaves(
        spec_descend(
            doc,
            match m.words {
                Some(ws) => ws,
                None => Seq::empty(),
            },
        ),
    )
}

/// The JSON filter's extraction: a single placeholder note when the body is
/// not valid JSON, otherwise the deduplicated string leaves.
pub open spec fn spec_json_filter_result(m: MatcherV, body: Seq<char>, name: Seq<char>) -> Seq<
    Seq<char>,
> {
    match json_doc_of(body) {
        None => seq![name + " | Invalid JSON response"@],
        Some(doc) => spec_dedup(spec_json_leaves_for(doc, m)),
    }
}

/// How the JSON filter grows the accumulated hostname record.
pub open spec fn spec_json_filter_acc(acc: Seq<Seq<char>>, m: MatcherV, body: Seq<char>) -> Seq<
    Seq<char>,
> {
    match json_doc_of(body) {
        None => acc,
        Some(doc) => spec_merge_unseen(acc, spec_json_leaves_for(doc, m)),
    }
}

/// A filter's extraction for one matcher: regex or JSON by its declared
/// kind; a missing or unknown kind extracts nothing (its diagnostic is
/// reported apart from the extracted data).
pub open spec fn spec_filter_result(m: MatcherV, body: Seq<char>, name: Seq<char>) -> Seq<
    Seq<char>,
> {
    match m.filter {
        Some(f) => if f == "regex"@ {
            spec_regex_filter_result(m, body)
        } else if f == "json"@ {
            spec_json_filter_result(m, body, name)
        } else {
            Seq::empty()
        },
        None => Seq::empty(),
    }
}

/// The diagnostic a filter evaluation asks the caller to log: only a
/// missing or unknown filter kind produces one.
pub open spec fn spec_filter_diagnostic(m: MatcherV, name: Seq<char>) -> Option<Seq<char>> {
    match m.filter {
        Some(f) => if f == "regex"@ || f == "json"@ {
            None
        } else {
            Some(name + " | Unsupported filter type"@)
        },
        None => Some(name + " | No filter provided"@),
    }
}

/// How a filter grows the accumulated hostname record.
pub open spec fn spec_filter_acc(acc: Seq<Seq<char>>, m: MatcherV, body: Seq<char>) -> Seq<
    Seq<char>,
> {
    match m.filter {
        Some(f) => if f == "regex"@ {
            spec_merge_unseen(acc, spec_regex_filter_result(m, body))
        } else if f == "json"@ {
            spec_json_filter_acc(acc, m, body)
        } else {
            acc
        },
        None => acc,
    }
}

/// First matcher of the given kind, scanning from `i` on.
pub open spec fn spec_find_matcher_from(ms: Seq<MatcherV>, ty: Seq<char>, i: int) -> Option<
    MatcherV,
>
    decreases ms.len() - i,
{
    if !(0 <= i < ms.len()) {
        None
    } else if ms[i].matcher_type == ty {
        Some(ms[i])
    } else {
        spec_find_matcher_from(ms, ty, i + 1)
    }
}

/// The status-kind matcher fires when the response status is in its list.
pub open spec fn spec_status_fires(m: MatcherV, st: u16) -> bool {
    m.status matches Some(codes) && codes.contains(st)
}

/// The extracted hostnames of one response before normalization: the
/// status-kind matcher's filter when it fires (the error path, still
/// merged), else the subdomains-kind matcher's filter.
pub open spec fn spec_process_raw(
    ms: Seq<MatcherV>,
    body: Seq<char>,
    st: u16,
    name: Seq<char>,
) -> Seq<Seq<char>> {
    let st_m = spec_find_matcher_from(ms, "status"@, 0);
    if st_m matches Some(m) && spec_status_fires(st_m.unwrap(), st) {
        spec_filter_result(st_m.unwrap(), body, name)
    } else {
        match spec_find_matcher_from(ms, "subdomains"@, 0) {
            Some(m) => spec_filter_result(m, body, name),
            None => Seq::empty(),
        }
    }
}

/// The extracted hostnames of one response, each normalized.
pub open spec fn spec_process_result(
    ms: Seq<MatcherV>,
    body: Seq<char>,
    st: u16,
    name: Seq<char>,
) -> Seq<Seq<char>> {
    let raw = spec_process_raw(ms, body, st, name);
    Seq::new(raw.len(), |j: int| spec_normalize_hostname(raw[j]))
}

/// How one response grows the accumulated hostname record.
pub open spec fn spec_process_acc(
    acc: Seq<Seq<char>>,
    ms: Seq<MatcherV>,
    body: Seq<char>,
    st: u16,
) -> Seq<Seq<char>> {
    let st_m = spec_find_matcher_from(ms, "status"@, 0);
    if st_m matches Some(m) && spec_status_fires(st_m.unwrap(), st) {
        spec_filter_acc(acc, st_m.unwrap(), body)
    } else {
        match spec_find_matcher_from(ms, "subdomains"@, 0) {
            Some(m) => spec_filter_acc(acc, m, body),
            None => acc,
        }
    }
}

/// The diagnostic one response's evaluation asks the caller to log: that of
/// whichever matcher's filter ran.
pub open spec fn spec_process_diagnostic(ms: Seq<MatcherV>, st: u16, name: Seq<char>) -> Option<
    Seq<char>,
> {
    let st_m = spec_find_matcher_from(ms, "status"@, 0);
    if st_m matches Some(m) && spec_status_fires(st_m.unwrap(), st) {
        spec_filter_diagnostic(st_m.unwrap(), name)
    } else {
        match spec_find_matcher_from(ms, "subdomains"@, 0) {
            Some(m) => spec_filter_diagnostic(m, name),
            None => None,
        }
    }
}

/// What evaluating a filter produced: the extracted hostnames and, for a
/// missing or unknown filter kind, a diagnostic for the caller to log.
pub struct FilterOutcome {
    pub hostnames: Vec<String>,
    pub diagnostic: Option<String>,
}

/// Finds the first matcher of the given kind.
pub fn find_matcher(matchers: &Vec<Matcher>, ty: &str) -> (r: Option<usize>)
    ensures
        match r {
            Some(i) => i < matchers@.len() && spec_find_matcher_from(matchers.deep_view(), ty@, 0)
                == Some(matchers.deep_view()[i as int]),
            None => spec_find_matcher_from(matchers.deep_view(), ty@, 0) == None::<MatcherV>,
        },
{
    let ghost ms = matchers.deep_view();
    let mut i: usize = 0;
    while i < matchers.len()
        invariant
            i <= matchers@.len(),
            ms == matchers.deep_view(),
            ms.len() == matchers@.len(),
            spec_find_matcher_from(ms, ty@, 0) == spec_find_matcher_from(ms, ty@, i as int),
        decreases matchers@.len() - i,
    {
        proof {
            assert(ms[i as int] == matchers@[i as int].deep_view());
        }
        if str_eq(matchers[i].matcher_type.as_str(), ty) {
            return Some(i);
        }
        i += 1;
    }
    None
}

/// True when the status list holds the code.
pub fn status_list_contains(codes: &Vec<u16>, st: u16) -> (r: bool)
    ensures
        r == codes.deep_view().contains(st),
{
    let mut i: usize = 0;
    while i < codes.len()
        invariant
            i <= codes@.len(),
            forall|j: int| 0 <= j < i ==> codes.deep_view()[j] != st,
        decreases codes@.len() - i,
    {
        proof {
            assert(codes.deep_view()[i as int] == codes@[i as int]);
        }
        if codes[i] == st {
            return true;
        }
        i += 1;
    }
    false
}

/// The extraction engine: accumulates every hostname it has seen across
/// calls, deduplicated, while handing each call's results back.
pub struct MakeRequest {
    subdomains: Vec<String>,
}

impl View for MakeRequest {
    type V = Seq<Seq<char>>;

    closed spec fn view(&self) -> Seq<Seq<char>> {
        self.subdomains.deep_view()
    }
}

impl MakeRequest {
    /// An engine that has seen nothing yet.
    pub fn new() -> (r: Self)
        ensures
            r@ =~= Seq::<Seq<char>>::empty(),
    {
        MakeRequest { subdomains: Vec::new() }
    }

    /// The hostnames recorded so far, in first-seen order.
    pub fn recorded(&self) -> (r: &Vec<String>)
        ensures
            r.deep_view() == self@,
    {
        &self.subdomains
    }

    /// A string truncated to its first line.
    pub fn remove_newline(s: &str) -> (r: String)
        ensures
            r@ == spec_first_line(s@),
    {
        first_line(s)
    }

    /// True when the body parses as JSON.
    pub fn is_json_valid(json_str: &str) -> (r: bool)
        ensures
            r == (json_doc_of(json_str@) is Some),
    {
        parse_json_doc(json_str).is_some()
    }

    /// Group-1 captures of the pattern over the response; an invalid
    /// pattern yields nothing.
    pub fn parse_response_wregex(response: &str, regex_value: &str) -> (r: Vec<String>)
        ensures
            r.deep_view() == spec_regex_results(regex_value@, response@),
    {
        match regex_captures_group1(regex_value, response) {
            Some(v) => v,
            None => {
                let r: Vec<String> = Vec::new();
                proof {
                    assert(r.deep_view() =~= Seq::<Seq<char>>::empty());
                }
                r
            },
        }
    }

    /// The regex filter: captures of the matcher's pattern, recorded into
    /// the engine.
    pub fn handle_regex_filter(&mut self, response: &str, matcher: &Matcher) -> (r: Vec<String>)
        ensures
            r.deep_view() == spec_regex_filter_result(matcher.deep_view(), response@),
            final (self)@ == spec_merge_unseen(old(self)@, r.deep_view()),
    {
        match &matcher.value {
            Some(pat) => {
                let subs = Self::parse_response_wregex(response, pat.as_str());
                merge_unseen_into(&mut self.subdomains, &subs);
                subs
            },
            None => {
                let r: Vec<String> = Vec::new();
                proof {
                    assert(r.deep_view() =~= Seq::<Seq<char>>::empty());
                }
                r
            },
        }
    }

    /// The JSON filter: descends by the matcher's key path, records the
    /// string leaves, and hands back their first occurrences; a body that
    /// is not JSON yields a single placeholder note.
    pub fn handle_json_filter(&mut self, response: &str, matcher: &Matcher, template: &Template)
        -> (r: Vec<String>)
        ensures
            r.deep_view() == spec_json_filter_result(
                matcher.deep_view(),
                response@,
                template.info.name@,
            ),
            final (self)@ == spec_json_filter_acc(old(self)@, matcher.deep_view(), response@),
    {
        match parse_json_doc(response) {
            None => {
                let msg = template.info.name.clone().concat(" | Invalid JSON response");
                let mut r: Vec<String> = Vec::new();
                r.push(msg);
                proof {
                    assert(r.deep_view() =~= seq![template.info.name@ + " | Invalid JSON response"@]);
                }
                r
            },
            Some(doc) => {
                let empty_words: Vec<String> = Vec::new();
                let words: &Vec<String> = match &matcher.words {
                    Some(ws) => ws,
                    None => &empty_words,
                };
                proof {
                    if !(matcher.words is Some) {
                        assert(words.deep_view() =~= Seq::<Seq<char>>::empty());
                    }
                }
                let descended = json_descend(doc, words);
                let leaves = string_leaves(&descended);
                merge_unseen_into(&mut self.subdomains, &leaves);
                dedup_strings(&leaves)
            },
        }
    }

    /// Applies the matcher's declared filter to the response body; a
    /// missing or unknown filter kind extracts nothing and hands back a
    /// diagnostic for the caller to log instead.
    pub fn filter_request(&mut self, response_text: &str, matcher: &Matcher, template: &Template)
        -> (r: FilterOutcome)
        ensures
            r.hostnames.deep_view() == spec_filter_result(
                matcher.deep_view(),
                response_text@,
                template.info.name@,
            ),
            r.diagnostic.deep_view() == spec_filter_diagnostic(
                matcher.deep_view(),
                template.info.name@,
            ),
            final (self)@ == spec_filter_acc(old(self)@, matcher.deep_view(), response_text@),
    {
        proof {
            reveal_strlit("regex");
            reveal_strlit("json");
        }
        match &matcher.filter {
            Some(f) => {
                if str_eq(f.as_str(), "regex") {
                    let hostnames = self.handle_regex_filter(response_text, matcher);
                    FilterOutcome { hostnames, diagnostic: None }
                } else if str_eq(f.as_str(), "json") {
                    let hostnames = self.handle_json_filter(response_text, matcher, template);
                    FilterOutcome { hostnames, diagnostic: None }
                } else {
                    let msg = template.info.name.clone().concat(" | Unsupported filter type");
                    let hostnames: Vec<String> = Vec::new();
                    proof {
                        assert(hostnames.deep_view() =~= Seq::<Seq<char>>::empty());
                    }
                    FilterOutcome { hostnames, diagnostic: Some(msg) }
                }
            },
            None => {
                let msg = template.info.name.clone().concat(" | No filter provided");
                let hostnames: Vec<String> = Vec::new();
                proof {
                    assert(hostnames.deep_view() =~= Seq::<Seq<char>>::empty());
                }
                FilterOutcome { hostnames, diagnostic: Some(msg) }
            },
        }
    }

    /// The status-kind check: when the response status is in the matcher's
    /// accepted list, its filter runs (the error path); else nothing.
    pub fn check_status_matcher(
        &mut self,
        response_text: &str,
        status_code: u16,
        matcher: &Matcher,
        template: &Template,
    ) -> (r: Option<FilterOutcome>)
        ensures
            match r {
                Some(v) => spec_status_fires(matcher.deep_view(), status_code)
                    && v.hostnames.deep_view() == spec_filter_result(
                    matcher.deep_view(),
                    response_text@,
                    template.info.name@,
                ) && v.diagnostic.deep_view() == spec_filter_diagnostic(
                    matcher.deep_view(),
                    template.info.name@,
                ) && final (self)@ == spec_filter_acc(
                    old(self)@,
                    matcher.deep_view(),
                    response_text@,
                ),
                None => !spec_status_fires(matcher.deep_view(), status_code) && final (self)@ == old(
                    self,
                )@,
            },
    {
        match &matcher.status {
            Some(codes) => {
                if status_list_contains(codes, status_code) {
                    Some(self.filter_request(response_text, matcher, template))
                } else {
                    None
                }
            },
            None => None,
        }
    }

    /// The subdomains-kind check: the matcher's filter runs unconditionally.
    pub fn check_subdomains_matcher(
        &mut self,
        response_text: &str,
        matcher: &Matcher,
        template: &Template,
    ) -> (r: Option<FilterOutcome>)
        ensures
            r matches Some(v) && v.hostnames.deep_view() == spec_filter_result(
                matcher.deep_view(),
                response_text@,
                template.info.name@,
            ) && v.diagnostic.deep_view() == spec_filter_diagnostic(
                matcher.deep_view(),
                template.info.name@,
            ),
            final (self)@ == spec_filter_acc(old(self)@, matcher.deep_view(), response_text@),
    {
        Some(self.filter_request(response_text, matcher, template))
    }

    /// Evaluates a request's matchers against one response: the status-kind
    /// matcher short-circuits when it fires, else the subdomains-kind
    /// matcher extracts; every returned hostname is normalized, with no
    /// leading `*.` and no trailing `.`. A missing or unknown filter kind
    /// extracts nothing and hands back its diagnostic for the caller to
    /// log.
    pub fn process_matchers(
        &mut self,
        response_text: &str,
        status_code: u16,
        matchers: &Vec<Matcher>,
        template: &Template,
    ) -> (r: FilterOutcome)
        ensures
            r.hostnames.deep_view() == spec_process_result(
                matchers.deep_view(),
                response_text@,
                status_code,
                template.info.name@,
            ),
            r.diagnostic.deep_view() == spec_process_diagnostic(
                matchers.deep_view(),
                status_code,
                template.info.name@,
            ),
            final (self)@ == spec_process_acc(
                old(self)@,
                matchers.deep_view(),
                response_text@,
                status_code,
            ),
            forall|j: int|
                0 <= j < r.hostnames.deep_view().len() ==> crate::text::hostname_clean(
                    #[trigger] r.hostnames.deep_view()[j],
                ),
    {
        proof {
            reveal_strlit("status");
            reveal_strlit("subdomains");
        }
        let ghost ms = matchers.deep_view();
        let staged: FilterOutcome = match find_matcher(matchers, "status") {
            Some(i) => match self.check_status_matcher(
                response_text,
                status_code,
                &matchers[i],
                template,
            ) {
                Some(res) => res,
                None => self.stage_two(response_text, matchers, template),
            },
            None => self.stage_two(response_text, matchers, template),
        };
        let raw = staged.hostnames;
        let ghost raw_v = raw.deep_view();
        let mut out: Vec<String> = Vec::new();
        let mut j: usize = 0;
        while j < raw.len()
            invariant
                j <= raw@.len(),
                raw_v == raw.deep_view(),
                raw_v.len() == raw@.len(),
                out@.len() == j,
                forall|k: int|
                    #![trigger out@[k]]
                    0 <= k < j ==> out@[k]@ == spec_normalize_hostname(raw_v[k])
                        && crate::text::hostname_clean(out@[k]@),
            decreases raw@.len() - j,
        {
            proof {
                assert(raw_v[j as int] == raw@[j as int]@);
            }
            let h = normalize_hostname(raw[j].as_str());
            out.push(h);
            j += 1;
        }
        proof {
            assert(out.deep_view() =~= spec_process_result(
                ms,
                response_text@,
                status_code,
                template.info.name@,
            ));
        }
        FilterOutcome { hostnames: out, diagnostic: staged.diagnostic }
    }

    /// The second stage of matcher evaluation: the subdomains-kind matcher,
    /// when present.
    fn stage_two(&mut self, response_text: &str, matchers: &Vec<Matcher>, template: &Template)
        -> (r: FilterOutcome)
        ensures
            r.hostnames.deep_view() == (match spec_find_matcher_from(
                matchers.deep_view(),
                "subdomains"@,
                0,
            ) {
                Some(m) => spec_filter_result(m, response_text@, template.info.name@),
                None => Seq::empty(),
            }),
            r.diagnostic.deep_view() == (match spec_find_matcher_from(
                matchers.deep_view(),
                "subdomains"@,
                0,
            ) {
                Some(m) => spec_filter_diagnostic(m, template.info.name@),
                None => None::<Seq<char>>,
            }),
            final (self)@ == (match spec_find_matcher_from(
                matchers.deep_view(),
                "subdomains"@,
                0,
            ) {
                Some(m) => spec_filter_acc(old(self)@, m, response_text@),
                None => old(self)@,
            }),
    {
        match find_matcher(matchers, "subdomains") {
            Some(k) => match self.check_subdomains_matcher(response_text, &matchers[k], template) {
                Some(res) => res,
                None => {
                    let hostnames: Vec<String> = Vec::new();
                    proof {
                        assert(hostnames.deep_view() =~= Seq::<Seq<char>>::empty());
                    }
                    FilterOutcome { hostnames, diagnostic: None }
                },
            },
            None => {
                let hostnames: Vec<String> = Vec::new();
                proof {
                    assert(hostnames.deep_view() =~= Seq::<Seq<char>>::empty());
                }
                FilterOutcome { hostnames, diagnostic: None }
            },
        }
    }
}

} // verus!
