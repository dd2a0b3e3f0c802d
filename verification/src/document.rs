//! The library's model of a structured template document: a tree of strings,
//! lists and keyed entry tables, as a parsed YAML or JSON body presents them.

use vstd::prelude::*;

verus! {

broadcast use vstd::std_specs::vec::group_vec_axioms, vstd::seq::axiom_seq_index_decreases;

/// One node of a parsed document. A mapping entry whose key is not a string
/// keeps `None` as its key; scalars that are neither strings, integers nor
/// booleans are `Other`.
pub enum DocValue {
    Text(String),
    Int(i64),
    Bool(bool),
    List(Vec<DocValue>),
    Entries(Vec<(Option<String>, DocValue)>),
    Other,
}

/// Mathematical shape of a `DocValue`.
pub enum DocSpec {
    Text(Seq<char>),
    Int(i64),
    Bool(bool),
    List(Seq<DocSpec>),
    Entries(Seq<(Option<Seq<char>>, DocSpec)>),
    Other,
}

/// The mathematical value of a document node.
pub open spec fn doc_view(d: DocValue) -> DocSpec
    decreases d,
{
    match d {
        DocValue::Text(s) => DocSpec::Text(s@),
        DocValue::Int(i) => DocSpec::Int(i),
        DocValue::Bool(b) => DocSpec::Bool(b),
        DocValue::List(items) => DocSpec::List(doc_view_list(items@)),
        DocValue::Entries(entries) => DocSpec::Entries(doc_view_entries(entries@)),
        DocValue::Other => DocSpec::Other,
    }
}

/// The mathematical values of a sequence of document nodes.
pub open spec fn doc_view_list(s: Seq<DocValue>) -> Seq<DocSpec>
    decreases s,
{
    if s.len() == 0 {
        Seq::empty()
    } else {
        seq![doc_view(s[0])] + doc_view_list(s.drop_first())
    }
}

/// The mathematical values of a sequence of keyed entries.
pub open spec fn doc_view_entries(s: Seq<(Option<String>, DocValue)>) -> Seq<
    (Option<Seq<char>>, DocSpec),
>
    decreases s,
{
    if s.len() == 0 {
        Seq::empty()
    } else {
        seq![
            (
                match s[0].0 {
                    Some(k) => Some(k@),
                    None => None,
                },
                doc_view(s[0].1),
            ),
        ] + doc_view_entries(s.drop_first())
    }
}

impl View for DocValue {
    type V = DocSpec;

    open spec fn view(&self) -> DocSpec {
        doc_view(*self)
    }
}

/// Lengths and elements of a viewed node list line up with the nodes.
pub proof fn lemma_doc_view_list_index(s: Seq<DocValue>, i: int)
    requires
        0 <= i < s.len(),
    ensures
        doc_view_list(s).len() == s.len(),
        doc_view_list(s)[i] == doc_view(s[i]),
    decreases s,
{
    lemma_doc_view_list_len(s);
    if i > 0 {
        lemma_doc_view_list_index(s.drop_first(), i - 1);
    }
}

/// A viewed node list has the length of the node list.
pub proof fn lemma_doc_view_list_len(s: Seq<DocValue>)
    ensures
        doc_view_list(s).len() == s.len(),
    decreases s,
{
    if s.len() > 0 {
        lemma_doc_view_list_len(s.drop_first());
    }
}

/// Lengths and elements of a viewed entry table line up with the entries.
pub proof fn lemma_doc_view_entries_index(s: Seq<(Option<String>, DocValue)>, i: int)
    requires
        0 <= i < s.len(),
    ensures
        doc_view_entries(s).len() == s.len(),
        doc_view_entries(s)[i] == (
            match s[i].0 {
                Some(k) => Some(k@),
                None => None,
            },
            doc_view(s[i].1),
        ),
    decreases s,
{
    lemma_doc_view_entries_len(s);
    if i > 0 {
        lemma_doc_view_entries_index(s.drop_first(), i - 1);
    }
}

/// A viewed entry table has the length of the entry table.
pub proof fn lemma_doc_view_entries_len(s: Seq<(Option<String>, DocValue)>)
    ensures
        doc_view_entries(s).len() == s.len(),
    decreases s,
{
    if s.len() > 0 {
        lemma_doc_view_entries_len(s.drop_first());
    }
}

} // verus!
