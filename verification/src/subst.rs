//! Placeholder substitution: resolving `{{domain}}`, `{{token}}` and the
//! base64 domain marker in every string of a template document.

use vstd::prelude::*;
use vstd::string::*;
use crate::document::{
    doc_view, doc_view_entries, doc_view_list, lemma_doc_view_entries_index,
    lemma_doc_view_entries_len, lemma_doc_view_list_index, lemma_doc_view_list_len, DocSpec,
    DocValue,
};
use crate::text::{
    contains_at, lemma_replace_freedom, lemma_superstring_free, occurs, replace_all,
    spec_replace_all,
};

verus! {

broadcast use vstd::std_specs::vec::group_vec_axioms, vstd::seq::axiom_seq_index_decreases;

/// The placeholder replaced by the target domain.
pub open spec fn domain_marker() -> Seq<char> {
    seq!['{', '{', 'd', 'o', 'm', 'a', 'i', 'n', '}', '}']
}

/// The placeholder replaced by the template's secret token.
pub open spec fn token_marker() -> Seq<char> {
    seq!['{', '{', 't', 'o', 'k', 'e', 'n', '}', '}']
}

/// The placeholder replaced by the base64 encoding of the target domain.
pub open spec fn b64_marker() -> Seq<char> {
    seq![
        's',
        'u',
        'b',
        't',
        'r',
        'a',
        'c',
        'e',
        '_',
        'B',
        '6',
        '4',
        '(',
        '{',
        '{',
        'd',
        'o',
        'm',
        'a',
        'i',
        'n',
        '}',
        '}',
        ')',
    ]
}

/// What base64's standard engine returns for the UTF-8 bytes of a string:
/// a pure function of the input.
pub uninterp spec fn b64_of(s: Seq<char>) -> Seq<char>;

/// Relies on base64's `engine::general_purpose::STANDARD` engine: RFC 4648
/// standard-alphabet encoding with padding, a pure function of the input
/// bytes.
#[verifier::external_body]
pub fn encode_base64(input: &str) -> (r: String)
    ensures
        r@ == b64_of(input@),
{
    base64::engine::Engine::encode(&base64::engine::general_purpose::STANDARD, input.as_bytes())
}

/// One full substitution pass over one string: the base64 marker first, then
/// every `{{domain}}`, then every `{{token}}`.
pub open spec fn spec_substitute(
    s: Seq<char>,
    domain: Seq<char>,
    token: Seq<char>,
    b64: Seq<char>,
) -> Seq<char> {
    spec_replace_all(
        spec_replace_all(spec_replace_all(s, b64_marker(), b64), domain_marker(), domain),
        token_marker(),
        token,
    )
}

/// Replacement strings for which substitution is guaranteed to leave no
/// marker behind: non-empty, free of braces, and not fragments of the
/// markers themselves.
pub open spec fn subst_args_ok(domain: Seq<char>, token: Seq<char>) -> bool {
    &&& domain.len() > 0
    &&& !domain.contains('{')
    &&& !domain.contains('}')
    &&& !occurs(domain_marker(), domain)
    &&& token.len() > 0
    &&& !token.contains('{')
    &&& !token.contains('}')
    &&& !occurs(domain_marker(), token)
    &&& !occurs(token_marker(), token)
}

/// A string carries none of the three placeholders.
pub open spec fn marker_free(s: Seq<char>) -> bool {
    &&& !occurs(s, domain_marker())
    &&& !occurs(s, token_marker())
    &&& !occurs(s, b64_marker())
}

/// After substitution no placeholder substring remains in the string,
/// whatever the original text was.
pub proof fn lemma_substitute_marker_free(
    s: Seq<char>,
    domain: Seq<char>,
    token: Seq<char>,
    b64: Seq<char>,
)
    requires
        subst_args_ok(domain, token),
    ensures
        marker_free(spec_substitute(s, domain, token, b64)),
{
    let s1 = spec_replace_all(s, b64_marker(), b64);
    let s2 = spec_replace_all(s1, domain_marker(), domain);
    let s3 = spec_replace_all(s2, token_marker(), token);
    lemma_replace_freedom(s1, domain_marker(), domain, domain_marker());
    lemma_replace_freedom(s2, token_marker(), token, domain_marker());
    lemma_replace_freedom(s2, token_marker(), token, token_marker());
    assert(b64_marker().subrange(13, 23) =~= domain_marker());
    lemma_superstring_free(s3, b64_marker(), domain_marker(), 13);
}

/// Substitutes the three placeholders in one string.
pub fn substitute_str(s: &str, domain: &str, token: &str) -> (r: String)
    ensures
        r@ == spec_substitute(s@, domain@, token@, b64_of(domain@)),
{
    proof {
        reveal_strlit("subtrace_B64({{domain}})");
        reveal_strlit("{{domain}}");
        reveal_strlit("{{token}}");
        assert("subtrace_B64({{domain}})"@ =~= b64_marker());
        assert("{{domain}}"@ =~= domain_marker());
        assert("{{token}}"@ =~= token_marker());
    }
    let b64 = encode_base64(domain);
    let s1 = replace_all(s, "subtrace_B64({{domain}})", b64.as_str());
    let s2 = replace_all(s1.as_str(), "{{domain}}", domain);
    let s3 = replace_all(s2.as_str(), "{{token}}", token);
    s3
}

/// Substitution applied to every string node of a document tree; keys and
/// non-string scalars pass through unchanged.
pub open spec fn spec_substitute_doc(
    d: DocSpec,
    domain: Seq<char>,
    token: Seq<char>,
    b64: Seq<char>,
) -> DocSpec
    decreases d,
{
    match d {
        DocSpec::Text(s) => DocSpec::Text(spec_substitute(s, domain, token, b64)),
        DocSpec::Int(i) => DocSpec::Int(i),
        DocSpec::Bool(b) => DocSpec::Bool(b),
        DocSpec::List(items) => DocSpec::List(spec_substitute_list(items, domain, token, b64)),
        DocSpec::Entries(entries) => DocSpec::Entries(
            spec_substitute_entries(entries, domain, token, b64),
        ),
        DocSpec::Other => DocSpec::Other,
    }
}

/// Substitution over a list of document nodes.
pub open spec fn spec_substitute_list(
    items: Seq<DocSpec>,
    domain: Seq<char>,
    token: Seq<char>,
    b64: Seq<char>,
) -> Seq<DocSpec>
    decreases items,
{
    if items.len() == 0 {
        Seq::empty()
    } else {
        seq![spec_substitute_doc(items[0], domain, token, b64)] + spec_substitute_list(
            items.drop_first(),
            domain,
            token,
            b64,
        )
    }
}

/// Substitution over the values of a table of keyed entries.
pub open spec fn spec_substitute_entries(
    entries: Seq<(Option<Seq<char>>, DocSpec)>,
    domain: Seq<char>,
    token: Seq<char>,
    b64: Seq<char>,
) -> Seq<(Option<Seq<char>>, DocSpec)>
    decreases entries,
{
    if entries.len() == 0 {
        Seq::empty()
    } else {
        seq![(entries[0].0, spec_substitute_doc(entries[0].1, domain, token, b64))]
            + spec_substitute_entries(entries.drop_first(), domain, token, b64)
    }
}

/// Length and elements of a substituted node list.
pub proof fn lemma_substitute_list_index(
    items: Seq<DocSpec>,
    domain: Seq<char>,
    token: Seq<char>,
    b64: Seq<char>,
    i: int,
)
    requires
        0 <= i < items.len(),
    ensures
        spec_substitute_list(items, domain, token, b64).len() == items.len(),
        spec_substitute_list(items, domain, token, b64)[i] == spec_substitute_doc(
            items[i],
            domain,
            token,
            b64,
        ),
    decreases items,
{
    lemma_substitute_list_len(items, domain, token, b64);
    if i > 0 {
        lemma_substitute_list_index(items.drop_first(), domain, token, b64, i - 1);
    }
}

/// A substituted node list keeps its length.
pub proof fn lemma_substitute_list_len(
    items: Seq<DocSpec>,
    domain: Seq<char>,
    token: Seq<char>,
    b64: Seq<char>,
)
    ensures
        spec_substitute_list(items, domain, token, b64).len() == items.len(),
    decreases items,
{
    if items.len() > 0 {
        lemma_substitute_list_len(items.drop_first(), domain, token, b64);
    }
}

/// Length and elements of a substituted entry table.
pub proof fn lemma_substitute_entries_index(
    entries: Seq<(Option<Seq<char>>, DocSpec)>,
    domain: Seq<char>,
    token: Seq<char>,
    b64: Seq<char>,
    i: int,
)
    requires
        0 <= i < entries.len(),
    ensures
        spec_substitute_entries(entries, domain, token, b64).len() == entries.len(),
        spec_substitute_entries(entries, domain, token, b64)[i] == (
            entries[i].0,
            spec_substitute_doc(entries[i].1, domain, token, b64),
        ),
    decreases entries,
{
    lemma_substitute_entries_len(entries, domain, token, b64);
    if i > 0 {
        lemma_substitute_entries_index(entries.drop_first(), domain, token, b64, i - 1);
    }
}

/// A substituted entry table keeps its length.
pub proof fn lemma_substitute_entries_len(
    entries: Seq<(Option<Seq<char>>, DocSpec)>,
    domain: Seq<char>,
    token: Seq<char>,
    b64: Seq<char>,
)
    ensures
        spec_substitute_entries(entries, domain, token, b64).len() == entries.len(),
    decreases entries,
{
    if entries.len() > 0 {
        lemma_substitute_entries_len(entries.drop_first(), domain, token, b64);
    }
}

/// Substitutes the three placeholders in every string node of a document.
#[verifier::loop_isolation(false)]
pub fn substitute_doc(d: &DocValue, domain: &str, token: &str) -> (r: DocValue)
    ensures
        r@ == spec_substitute_doc(d@, domain@, token@, b64_of(domain@)),
    decreases *d,
{
    match d {
        DocValue::Text(s) => DocValue::Text(substitute_str(s.as_str(), domain, token)),
        DocValue::Int(i) => DocValue::Int(*i),
        DocValue::Bool(b) => DocValue::Bool(*b),
        DocValue::List(items) => {
            let ghost spec_out = spec_substitute_list(
                doc_view_list(items@),
                domain@,
                token@,
                b64_of(domain@),
            );
            let mut out: Vec<DocValue> = Vec::new();
            let mut i: usize = 0;
            while i < items.len()
                invariant
                    i <= items@.len(),
                    out@.len() == i,
                    spec_out == spec_substitute_list(
                        doc_view_list(items@),
                        domain@,
                        token@,
                        b64_of(domain@),
                    ),
                    forall|j: int|
                        0 <= j < i ==> doc_view(out@[j]) == spec_substitute_doc(
                            doc_view(items@[j]),
                            domain@,
                            token@,
                            b64_of(domain@),
                        ),
                decreases items@.len() - i,
            {
                let sub = substitute_doc(&items[i], domain, token);
                out.push(sub);
                i += 1;
            }
            proof {
                lemma_doc_view_list_len(items@);
                lemma_doc_view_list_len(out@);
                lemma_substitute_list_len(doc_view_list(items@), domain@, token@, b64_of(domain@));
                assert forall|j: int| 0 <= j < out@.len() implies doc_view_list(out@)[j]
                    == spec_out[j] by {
                    lemma_doc_view_list_index(out@, j);
                    lemma_doc_view_list_index(items@, j);
                    lemma_substitute_list_index(
                        doc_view_list(items@),
                        domain@,
                        token@,
                        b64_of(domain@),
                        j,
                    );
                }
                assert(doc_view_list(out@) =~= spec_out);
            }
            DocValue::List(out)
        },
        DocValue::Entries(entries) => {
            let ghost spec_out = spec_substitute_entries(
                doc_view_entries(entries@),
                domain@,
                token@,
                b64_of(domain@),
            );
            let mut out: Vec<(Option<String>, DocValue)> = Vec::new();
            let mut i: usize = 0;
            while i < entries.len()
                invariant
                    i <= entries@.len(),
                    out@.len() == i,
                    spec_out == spec_substitute_entries(
                        doc_view_entries(entries@),
                        domain@,
                        token@,
                        b64_of(domain@),
                    ),
                    forall|j: int|
                        0 <= j < i ==> {
                            &&& doc_view(out@[j].1) == spec_substitute_doc(
                                doc_view(entries@[j].1),
                                domain@,
                                token@,
                                b64_of(domain@),
                            )
                            &&& out@[j].0 == entries@[j].0
                        },
                decreases entries@.len() - i,
            {
                let key: Option<String> = match &entries[i].0 {
                    Some(k) => Some(k.clone()),
                    None => None,
                };
                let sub = substitute_doc(&entries[i].1, domain, token);
                out.push((key, sub));
                i += 1;
            }
            proof {
                lemma_doc_view_entries_len(entries@);
                lemma_doc_view_entries_len(out@);
                lemma_substitute_entries_len(
                    doc_view_entries(entries@),
                    domain@,
                    token@,
                    b64_of(domain@),
                );
                assert forall|j: int| 0 <= j < out@.len() implies doc_view_entries(out@)[j]
                    == spec_out[j] by {
                    lemma_doc_view_entries_index(out@, j);
                    lemma_doc_view_entries_index(entries@, j);
                    lemma_substitute_entries_index(
                        doc_view_entries(entries@),
                        domain@,
                        token@,
                        b64_of(domain@),
                        j,
                    );
                }
                assert(doc_view_entries(out@) =~= spec_out);
            }
            DocValue::Entries(out)
        },
        DocValue::Other => DocValue::Other,
    }
}

/// Every string anywhere in the document carries none of the placeholders.
pub open spec fn doc_marker_free(d: DocSpec) -> bool
    decreases d,
{
    match d {
        DocSpec::Text(s) => marker_free(s),
        DocSpec::Int(_) => true,
        DocSpec::Bool(_) => true,
        DocSpec::List(items) => list_marker_free(items),
        DocSpec::Entries(entries) => entries_marker_free(entries),
        DocSpec::Other => true,
    }
}

/// Marker freedom of every node of a list.
pub open spec fn list_marker_free(items: Seq<DocSpec>) -> bool
    decreases items,
{
    if items.len() == 0 {
        true
    } else {
        doc_marker_free(items[0]) && list_marker_free(items.drop_first())
    }
}

/// Marker freedom of every value of an entry table.
pub open spec fn entries_marker_free(entries: Seq<(Option<Seq<char>>, DocSpec)>) -> bool
    decreases entries,
{
    if entries.len() == 0 {
        true
    } else {
        doc_marker_free(entries[0].1) && entries_marker_free(entries.drop_first())
    }
}

/// After substitution, no placeholder substring remains anywhere in the
/// resulting document, whatever the original tree held.
pub proof fn lemma_substitute_doc_marker_free(
    d: DocSpec,
    domain: Seq<char>,
    token: Seq<char>,
    b64: Seq<char>,
)
    requires
        subst_args_ok(domain, token),
    ensures
        doc_marker_free(spec_substitute_doc(d, domain, token, b64)),
    decreases d,
{
    match d {
        DocSpec::Text(s) => {
            lemma_substitute_marker_free(s, domain, token, b64);
        },
        DocSpec::Int(_) => {},
        DocSpec::Bool(_) => {},
        DocSpec::List(items) => {
            lemma_substitute_list_marker_free(items, domain, token, b64);
        },
        DocSpec::Entries(entries) => {
            lemma_substitute_entries_marker_free(entries, domain, token, b64);
        },
        DocSpec::Other => {},
    }
}

/// Marker freedom of a node list is marker freedom of each node.
pub proof fn lemma_list_marker_free_iff(items: Seq<DocSpec>)
    ensures
        list_marker_free(items) <==> (forall|i: int|
            0 <= i < items.len() ==> doc_marker_free(#[trigger] items[i])),
    decreases items.len(),
{
    if items.len() > 0 {
        lemma_list_marker_free_iff(items.drop_first());
        if list_marker_free(items) {
            assert forall|i: int| 0 <= i < items.len() implies doc_marker_free(
                #[trigger] items[i],
            ) by {
                if i >= 1 {
                    assert(doc_marker_free(items.drop_first()[i - 1]));
                }
            }
        }
        if forall|i: int| 0 <= i < items.len() ==> doc_marker_free(#[trigger] items[i]) {
            assert forall|i: int| 0 <= i < items.drop_first().len() implies doc_marker_free(
                #[trigger] items.drop_first()[i],
            ) by {
                assert(items.drop_first()[i] == items[i + 1]);
            }
            assert(doc_marker_free(items[0]));
        }
    }
}

/// Marker freedom of an entry table is marker freedom of each value.
pub proof fn lemma_entries_marker_free_iff(entries: Seq<(Option<Seq<char>>, DocSpec)>)
    ensures
        entries_marker_free(entries) <==> (forall|i: int|
            0 <= i < entries.len() ==> doc_marker_free(#[trigger] entries[i].1)),
    decreases entries.len(),
{
    if entries.len() > 0 {
        lemma_entries_marker_free_iff(entries.drop_first());
        if entries_marker_free(entries) {
            assert forall|i: int| 0 <= i < entries.len() implies doc_marker_free(
                #[trigger] entries[i].1,
            ) by {
                if i >= 1 {
                    assert(doc_marker_free(entries.drop_first()[i - 1].1));
                }
            }
        }
        if forall|i: int| 0 <= i < entries.len() ==> doc_marker_free(#[trigger] entries[i].1) {
            assert forall|i: int| 0 <= i < entries.drop_first().len() implies doc_marker_free(
                #[trigger] entries.drop_first()[i].1,
            ) by {
                assert(entries.drop_first()[i] == entries[i + 1]);
            }
            assert(doc_marker_free(entries[0].1));
        }
    }
}

/// A string without an opening brace carries none of the placeholders.
pub proof fn lemma_brace_free_is_marker_free(s: Seq<char>)
    requires
        !s.contains('{'),
    ensures
        marker_free(s),
{
    assert forall|i: int| !contains_at(s, domain_marker(), i) by {
        if contains_at(s, domain_marker(), i) {
            assert(s.subrange(i, i + domain_marker().len() as int)[0] == '{');
            assert(s[i] == '{');
        }
    }
    assert forall|i: int| !contains_at(s, token_marker(), i) by {
        if contains_at(s, token_marker(), i) {
            assert(s.subrange(i, i + token_marker().len() as int)[0] == '{');
            assert(s[i] == '{');
        }
    }
    assert forall|i: int| !contains_at(s, b64_marker(), i) by {
        if contains_at(s, b64_marker(), i) {
            assert(s.subrange(i, i + b64_marker().len() as int)[13] == '{');
            assert(s[i + 13] == '{');
        }
    }
}

/// Marker freedom of a substituted node list.
pub proof fn lemma_substitute_list_marker_free(
    items: Seq<DocSpec>,
    domain: Seq<char>,
    token: Seq<char>,
    b64: Seq<char>,
)
    requires
        subst_args_ok(domain, token),
    ensures
        list_marker_free(spec_substitute_list(items, domain, token, b64)),
    decreases items,
{
    if items.len() > 0 {
        lemma_substitute_doc_marker_free(items[0], domain, token, b64);
        lemma_substitute_list_marker_free(items.drop_first(), domain, token, b64);
        let out = spec_substitute_list(items, domain, token, b64);
        assert(out.drop_first() =~= spec_substitute_list(items.drop_first(), domain, token, b64));
        assert(out[0] == spec_substitute_doc(items[0], domain, token, b64));
    }
}

/// Marker freedom of a substituted entry table.
pub proof fn lemma_substitute_entries_marker_free(
    entries: Seq<(Option<Seq<char>>, DocSpec)>,
    domain: Seq<char>,
    token: Seq<char>,
    b64: Seq<char>,
)
    requires
        subst_args_ok(domain, token),
    ensures
        entries_marker_free(spec_substitute_entries(entries, domain, token, b64)),
    decreases entries,
{
    if entries.len() > 0 {
        lemma_substitute_doc_marker_free(entries[0].1, domain, token, b64);
        lemma_substitute_entries_marker_free(entries.drop_first(), domain, token, b64);
        let out = spec_substitute_entries(entries, domain, token, b64);
        assert(out.drop_first() =~= spec_substitute_entries(
            entries.drop_first(),
            domain,
            token,
            b64,
        ));
        assert(out[0] == (entries[0].0, spec_substitute_doc(entries[0].1, domain, token, b64)));
    }
}

} // verus!
