//! Template definitions and their schema: turning a substituted document
//! tree into a `Template`, rejecting documents that lack required fields or
//! carry mistyped ones.

use vstd::prelude::*;
use crate::document::{
    doc_view, doc_view_entries, doc_view_list, lemma_doc_view_entries_index,
    lemma_doc_view_entries_len, lemma_doc_view_list_index, lemma_doc_view_list_len, DocSpec,
    DocValue,
};
use crate::secrets::{return_api, SecretStore};
use crate::subst::{
    doc_marker_free, entries_marker_free, lemma_entries_marker_free_iff,
    lemma_list_marker_free_iff, list_marker_free, marker_free,
};
use crate::text::str_eq;

verus! {

/// A loaded probe template: one file, fully substituted.
pub struct Template {
    pub id: String,
    pub info: Info,
    pub requests: Vec<Request>,
    pub settings: Option<Settings>,
}

/// Display information of a template.
pub struct Info {
    pub name: String,
    pub reference: Option<Vec<String>>,
}

/// Optional template settings.
pub struct Settings {
    pub concatenate: Option<bool>,
}

/// One HTTP probe of a template.
pub struct Request {
    pub domain: String,
    pub method: String,
    pub path: String,
    pub data: Option<String>,
    pub headers: Option<Vec<(String, String)>>,
    pub matchers: Option<Vec<Matcher>>,
}

/// One matcher of a request.
pub struct Matcher {
    pub matcher_type: String,
    pub filter: Option<String>,
    pub words: Option<Vec<String>>,
    pub status: Option<Vec<u16>>,
    pub indice: Option<usize>,
    pub value: Option<String>,
}

/// A bundle of loaded templates.
pub struct ITemplate {
    pub templates: Vec<Template>,
}

/// Mathematical value of a `Template`.
pub struct TemplateV {
    pub id: Seq<char>,
    pub info: InfoV,
    pub requests: Seq<RequestV>,
    pub settings: Option<SettingsV>,
}

/// Mathematical value of an `Info`.
pub struct InfoV {
    pub name: Seq<char>,
    pub reference: Option<Seq<Seq<char>>>,
}

/// Mathematical value of a `Settings`.
pub struct SettingsV {
    pub concatenate: Option<bool>,
}

/// Mathematical value of a `Request`.
pub struct RequestV {
    pub domain: Seq<char>,
    pub method: Seq<char>,
    pub path: Seq<char>,
    pub data: Option<Seq<char>>,
    pub headers: Option<Seq<(Seq<char>, Seq<char>)>>,
    pub matchers: Option<Seq<MatcherV>>,
}

/// Mathematical value of a `Matcher`.
pub struct MatcherV {
    pub matcher_type: Seq<char>,
    pub filter: Option<Seq<char>>,
    pub words: Option<Seq<Seq<char>>>,
    pub status: Option<Seq<u16>>,
    pub indice: Option<usize>,
    pub value: Option<Seq<char>>,
}

impl DeepView for Matcher {
    type V = MatcherV;

    open spec fn deep_view(&self) -> MatcherV {
        MatcherV {
            matcher_type: self.matcher_type.deep_view(),
            filter: self.filter.deep_view(),
            words: self.words.deep_view(),
            status: self.status.deep_view(),
            indice: self.indice.deep_view(),
            value: self.value.deep_view(),
        }
    }
}

impl DeepView for Request {
    type V = RequestV;

    open spec fn deep_view(&self) -> RequestV {
        RequestV {
            domain: self.domain.deep_view(),
            method: self.method.deep_view(),
            path: self.path.deep_view(),
            data: self.data.deep_view(),
            headers: self.headers.deep_view(),
            matchers: self.matchers.deep_view(),
        }
    }
}

impl DeepView for Settings {
    type V = SettingsV;

    open spec fn deep_view(&self) -> SettingsV {
        SettingsV { concatenate: self.concatenate }
    }
}

impl DeepView for Info {
    type V = InfoV;

    open spec fn deep_view(&self) -> InfoV {
        InfoV { name: self.name.deep_view(), reference: self.reference.deep_view() }
    }
}

impl DeepView for Template {
    type V = TemplateV;

    open spec fn deep_view(&self) -> TemplateV {
        TemplateV {
            id: self.id.deep_view(),
            info: self.info.deep_view(),
            requests: self.requests.deep_view(),
            settings: self.settings.deep_view(),
        }
    }
}

/// Why loading one template file failed.
#[derive(PartialEq, Eq, Structural, Clone, Copy, Debug)]
pub enum TemplateError {
    /// The file is not a well-formed document.
    Parse,
    /// A required field is absent or a field is mistyped.
    Schema,
}

/// First value stored under a string key, scanning entries from `i` on.
pub open spec fn spec_lookup_from(
    entries: Seq<(Option<Seq<char>>, DocSpec)>,
    key: Seq<char>,
    i: int,
) -> Option<DocSpec>
    decreases entries.len() - i,
{
    if i < 0 || i >= entries.len() {
        None
    } else if entries[i].0 == Some(key) {
        Some(entries[i].1)
    } else {
        spec_lookup_from(entries, key, i + 1)
    }
}

/// First value stored under a string key.
pub open spec fn spec_lookup(entries: Seq<(Option<Seq<char>>, DocSpec)>, key: Seq<char>) -> Option<
    DocSpec,
> {
    spec_lookup_from(entries, key, 0)
}

/// Finds the first entry with the given key; `None` when there is none.
pub fn lookup_entry(entries: &Vec<(Option<String>, DocValue)>, key: &str) -> (r: Option<usize>)
    ensures
        match r {
            Some(i) => i < entries@.len() && spec_lookup(doc_view_entries(entries@), key@) == Some(
                doc_view(entries@[i as int].1),
            ),
            None => spec_lookup(doc_view_entries(entries@), key@) == None::<DocSpec>,
        },
{
    let ghost ev = doc_view_entries(entries@);
    proof {
        lemma_doc_view_entries_len(entries@);
    }
    let mut i: usize = 0;
    while i < entries.len()
        invariant
            i <= entries@.len(),
            ev == doc_view_entries(entries@),
            ev.len() == entries@.len(),
            spec_lookup(ev, key@) == spec_lookup_from(ev, key@, i as int),
        decreases entries@.len() - i,
    {
        proof {
            lemma_doc_view_entries_index(entries@, i as int);
        }
        let hit = match &entries[i].0 {
            Some(k) => str_eq(k.as_str(), key),
            None => false,
        };
        if hit {
            return Some(i);
        }
        i += 1;
    }
    None
}

/// Every node of the list is a string.
pub open spec fn texts_ok(items: Seq<DocSpec>) -> bool {
    forall|j: int| 0 <= j < items.len() ==> items[j] is Text
}

/// The strings of a list of string nodes.
pub open spec fn texts_of(items: Seq<DocSpec>) -> Seq<Seq<char>> {
    Seq::new(items.len(), |j: int| items[j]->Text_0)
}

/// Every node of the list is an integer that fits an HTTP status code.
pub open spec fn status_ok(items: Seq<DocSpec>) -> bool {
    forall|j: int| 0 <= j < items.len() ==> items[j] is Int && 0 <= items[j]->Int_0 <= 65535
}

/// The status codes of a list of integer nodes.
pub open spec fn status_of(items: Seq<DocSpec>) -> Seq<u16> {
    Seq::new(items.len(), |j: int| items[j]->Int_0 as u16)
}

/// Every entry has a string key and a string value.
pub open spec fn headers_ok(entries: Seq<(Option<Seq<char>>, DocSpec)>) -> bool {
    forall|j: int| 0 <= j < entries.len() ==> entries[j].0 is Some && entries[j].1 is Text
}

/// The key/value pairs of a header table.
pub open spec fn headers_of(entries: Seq<(Option<Seq<char>>, DocSpec)>) -> Seq<
    (Seq<char>, Seq<char>),
> {
    Seq::new(entries.len(), |j: int| (entries[j].0.unwrap(), entries[j].1->Text_0))
}

/// Collects the strings of a list of string nodes; `None` when a node is not
/// a string.
pub fn texts_from_list(items: &Vec<DocValue>) -> (r: Option<Vec<String>>)
    ensures
        match r {
            Some(v) => texts_ok(doc_view_list(items@)) && v.deep_view() == texts_of(
                doc_view_list(items@),
            ),
            None => !texts_ok(doc_view_list(items@)),
        },
{
    let ghost lv = doc_view_list(items@);
    proof {
        lemma_doc_view_list_len(items@);
    }
    let mut out: Vec<String> = Vec::new();
    let mut i: usize = 0;
    while i < items.len()
        invariant
            i <= items@.len(),
            lv == doc_view_list(items@),
            lv.len() == items@.len(),
            out@.len() == i,
            forall|j: int| #![trigger lv[j]] 0 <= j < i ==> lv[j] is Text && out@[j]@ == lv[j]->Text_0,
        decreases items@.len() - i,
    {
        proof {
            lemma_doc_view_list_index(items@, i as int);
        }
        match &items[i] {
            DocValue::Text(s) => {
                out.push(s.clone());
            },
            _ => {
                return None;
            },
        }
        i += 1;
    }
    proof {
        assert(out.deep_view() =~= texts_of(lv));
    }
    Some(out)
}

/// Collects the status codes of a list of integer nodes; `None` when a node
/// is not an integer between 0 and 65535.
pub fn status_from_list(items: &Vec<DocValue>) -> (r: Option<Vec<u16>>)
    ensures
        match r {
            Some(v) => status_ok(doc_view_list(items@)) && v.deep_view() == status_of(
                doc_view_list(items@),
            ),
            None => !status_ok(doc_view_list(items@)),
        },
{
    let ghost lv = doc_view_list(items@);
    proof {
        lemma_doc_view_list_len(items@);
    }
    let mut out: Vec<u16> = Vec::new();
    let mut i: usize = 0;
    while i < items.len()
        invariant
            i <= items@.len(),
            lv == doc_view_list(items@),
            lv.len() == items@.len(),
            out@.len() == i,
            forall|j: int|
                #![trigger lv[j]]
                0 <= j < i ==> lv[j] is Int && 0 <= lv[j]->Int_0 <= 65535 && out@[j] == lv[j]->Int_0
                    as u16,
        decreases items@.len() - i,
    {
        proof {
            lemma_doc_view_list_index(items@, i as int);
        }
        match &items[i] {
            DocValue::Int(n) => {
                if *n < 0 || *n > 65535 {
                    return None;
                }
                out.push(*n as u16);
            },
            _ => {
                return None;
            },
        }
        i += 1;
    }
    proof {
        assert(out.deep_view() =~= status_of(lv));
    }
    Some(out)
}

/// Collects the key/value pairs of a header table; `None` when a key is not
/// a string or a value is not a string.
pub fn headers_from_entries(entries: &Vec<(Option<String>, DocValue)>) -> (r: Option<
    Vec<(String, String)>,
>)
    ensures
        match r {
            Some(v) => headers_ok(doc_view_entries(entries@)) && v.deep_view() == headers_of(
                doc_view_entries(entries@),
            ),
            None => !headers_ok(doc_view_entries(entries@)),
        },
{
    let ghost ev = doc_view_entries(entries@);
    proof {
        lemma_doc_view_entries_len(entries@);
    }
    let mut out: Vec<(String, String)> = Vec::new();
    let mut i: usize = 0;
    while i < entries.len()
        invariant
            i <= entries@.len(),
            ev == doc_view_entries(entries@),
            ev.len() == entries@.len(),
            out@.len() == i,
            forall|j: int|
                #![trigger ev[j]]
                0 <= j < i ==> ev[j].0 is Some && ev[j].1 is Text && out@[j].0@ == ev[j].0.unwrap()
                    && out@[j].1@ == ev[j].1->Text_0,
        decreases entries@.len() - i,
    {
        proof {
            lemma_doc_view_entries_index(entries@, i as int);
        }
        let key = match &entries[i].0 {
            Some(k) => k.clone(),
            None => {
                return None;
            },
        };
        let val = match &entries[i].1 {
            DocValue::Text(s) => s.clone(),
            _ => {
                return None;
            },
        };
        out.push((key, val));
        i += 1;
    }
    proof {
        assert(out.deep_view() =~= headers_of(ev));
    }
    Some(out)
}

/// An optional field that must be a string when present; the outer `None`
/// signals a mistyped field.
pub open spec fn opt_text_field(o: Option<DocSpec>) -> Option<Option<Seq<char>>> {
    match o {
        None => Some(None),
        Some(d) => if d is Text {
            Some(Some(d->Text_0))
        } else {
            None
        },
    }
}

/// An optional field that must be a list of strings when present.
pub open spec fn opt_texts_field(o: Option<DocSpec>) -> Option<Option<Seq<Seq<char>>>> {
    match o {
        None => Some(None),
        Some(d) => if d is List && texts_ok(d->List_0) {
            Some(Some(texts_of(d->List_0)))
        } else {
            None
        },
    }
}

/// An optional field that must be a list of status codes when present.
pub open spec fn opt_status_field(o: Option<DocSpec>) -> Option<Option<Seq<u16>>> {
    match o {
        None => Some(None),
        Some(d) => if d is List && status_ok(d->List_0) {
            Some(Some(status_of(d->List_0)))
        } else {
            None
        },
    }
}

/// An optional field that must be a string-to-string table when present.
pub open spec fn opt_headers_field(o: Option<DocSpec>) -> Option<
    Option<Seq<(Seq<char>, Seq<char>)>>,
> {
    match o {
        None => Some(None),
        Some(d) => if d is Entries && headers_ok(d->Entries_0) {
            Some(Some(headers_of(d->Entries_0)))
        } else {
            None
        },
    }
}

/// An optional field that must be a non-negative index when present.
pub open spec fn opt_indice_field(o: Option<DocSpec>) -> Option<Option<usize>> {
    match o {
        None => Some(None),
        Some(d) => if d is Int && 0 <= d->Int_0 <= usize::MAX {
            Some(Some(d->Int_0 as usize))
        } else {
            None
        },
    }
}

/// The matcher a document node describes, or `None` when the node lacks the
/// required `type` field or a field is mistyped.
pub open spec fn spec_matcher_of(d: DocSpec) -> Option<MatcherV> {
    if !(d is Entries) {
        None
    } else {
        let e = d->Entries_0;
        let ty = spec_lookup(e, "type"@);
        if !(ty matches Some(t) && t is Text) {
            None
        } else {
            match (opt_text_field(spec_lookup(e, "filter"@)), opt_texts_field(
                spec_lookup(e, "words"@),
            ), opt_status_field(spec_lookup(e, "status"@)), opt_indice_field(
                spec_lookup(e, "indice"@),
            ), opt_text_field(spec_lookup(e, "value"@))) {
                (Some(filter), Some(words), Some(status), Some(indice), Some(value)) => Some(
                    MatcherV {
                        matcher_type: ty.unwrap()->Text_0,
                        filter,
                        words,
                        status,
                        indice,
                        value,
                    },
                ),
                _ => None,
            }
        }
    }
}

/// Every node of the list describes a matcher.
pub open spec fn matchers_ok(items: Seq<DocSpec>) -> bool {
    forall|j: int| 0 <= j < items.len() ==> spec_matcher_of(items[j]) is Some
}

/// The matchers described by a list of nodes.
pub open spec fn matchers_of(items: Seq<DocSpec>) -> Seq<MatcherV> {
    Seq::new(items.len(), |j: int| spec_matcher_of(items[j]).unwrap())
}

/// An optional field that must be a list of matchers when present.
pub open spec fn opt_matchers_field(o: Option<DocSpec>) -> Option<Option<Seq<MatcherV>>> {
    match o {
        None => Some(None),
        Some(d) => if d is List && matchers_ok(d->List_0) {
            Some(Some(matchers_of(d->List_0)))
        } else {
            None
        },
    }
}

/// The request a document node describes, or `None` when a required field
/// (`domain`, `method`, `path`) is absent or a field is mistyped.
pub open spec fn spec_request_of(d: DocSpec) -> Option<RequestV> {
    if !(d is Entries) {
        None
    } else {
        let e = d->Entries_0;
        let domain = spec_lookup(e, "domain"@);
        let method = spec_lookup(e, "method"@);
        let path = spec_lookup(e, "path"@);
        if !(domain matches Some(dv) && dv is Text) || !(method matches Some(m) && m is Text) || !(
        path matches Some(p) && p is Text) {
            None
        } else {
            match (opt_text_field(spec_lookup(e, "data"@)), opt_headers_field(
                spec_lookup(e, "headers"@),
            ), opt_matchers_field(spec_lookup(e, "matchers"@))) {
                (Some(data), Some(headers), Some(matchers)) => Some(
                    RequestV {
                        domain: domain.unwrap()->Text_0,
                        method: method.unwrap()->Text_0,
                        path: path.unwrap()->Text_0,
                        data,
                        headers,
                        matchers,
                    },
                ),
                _ => None,
            }
        }
    }
}

/// Every node of the list describes a request.
pub open spec fn requests_ok(items: Seq<DocSpec>) -> bool {
    forall|j: int| 0 <= j < items.len() ==> spec_request_of(items[j]) is Some
}

/// The requests described by a list of nodes.
pub open spec fn requests_of(items: Seq<DocSpec>) -> Seq<RequestV> {
    Seq::new(items.len(), |j: int| spec_request_of(items[j]).unwrap())
}

/// The info block a document node describes: `name` is required, the
/// reference list optional.
pub open spec fn spec_info_of(d: DocSpec) -> Option<InfoV> {
    if !(d is Entries) {
        None
    } else {
        let e = d->Entries_0;
        let name = spec_lookup(e, "name"@);
        if !(name matches Some(n) && n is Text) {
            None
        } else {
            match opt_texts_field(spec_lookup(e, "reference"@)) {
                Some(reference) => Some(InfoV { name: name.unwrap()->Text_0, reference }),
                None => None,
            }
        }
    }
}

/// An optional settings block: `concatenate` is an optional boolean.
pub open spec fn opt_settings_field(o: Option<DocSpec>) -> Option<Option<SettingsV>> {
    match o {
        None => Some(None),
        Some(d) => if !(d is Entries) {
            None
        } else {
            match spec_lookup(d->Entries_0, "concatenate"@) {
                None => Some(Some(SettingsV { concatenate: None })),
                Some(c) => if c is Bool {
                    Some(Some(SettingsV { concatenate: Some(c->Bool_0) }))
                } else {
                    None
                },
            }
        },
    }
}

/// Builds the matcher a document node describes; `None` exactly when the
/// node lacks the required `type` field or a field is mistyped.
pub fn matcher_from_doc(d: &DocValue) -> (r: Option<Matcher>)
    ensures
        match r {
            Some(m) => spec_matcher_of(d@) == Some(m.deep_view()),
            None => spec_matcher_of(d@) == None::<MatcherV>,
        },
{
    let entries = match d {
        DocValue::Entries(entries) => entries,
        _ => {
            return None;
        },
    };
    let matcher_type: String = match lookup_entry(entries, "type") {
        Some(i) => match &entries[i].1 {
            DocValue::Text(s) => s.clone(),
            _ => {
                return None;
            },
        },
        None => {
            return None;
        },
    };
    let filter: Option<String> = match lookup_entry(entries, "filter") {
        Some(i) => match &entries[i].1 {
            DocValue::Text(s) => Some(s.clone()),
            _ => {
                return None;
            },
        },
        None => None,
    };
    let words: Option<Vec<String>> = match lookup_entry(entries, "words") {
        Some(i) => match &entries[i].1 {
            DocValue::List(items) => match texts_from_list(items) {
                Some(v) => Some(v),
                None => {
                    return None;
                },
            },
            _ => {
                return None;
            },
        },
        None => None,
    };
    let status: Option<Vec<u16>> = match lookup_entry(entries, "status") {
        Some(i) => match &entries[i].1 {
            DocValue::List(items) => match status_from_list(items) {
                Some(v) => Some(v),
                None => {
                    return None;
                },
            },
            _ => {
                return None;
            },
        },
        None => None,
    };
    let indice: Option<usize> = match lookup_entry(entries, "indice") {
        Some(i) => match &entries[i].1 {
            DocValue::Int(n) => {
                if *n < 0 || (*n as u128) > (usize::MAX as u128) {
                    return None;
                }
                Some(*n as usize)
            },
            _ => {
                return None;
            },
        },
        None => None,
    };
    let value: Option<String> = match lookup_entry(entries, "value") {
        Some(i) => match &entries[i].1 {
            DocValue::Text(s) => Some(s.clone()),
            _ => {
                return None;
            },
        },
        None => None,
    };
    Some(Matcher { matcher_type, filter, words, status, indice, value })
}

/// Builds the request a document node describes; `None` exactly when a
/// required field is absent or a field is mistyped.
#[verifier::loop_isolation(false)]
pub fn request_from_doc(d: &DocValue) -> (r: Option<Request>)
    ensures
        match r {
            Some(req) => spec_request_of(d@) == Some(req.deep_view()),
            None => spec_request_of(d@) == None::<RequestV>,
        },
{
    let entries = match d {
        DocValue::Entries(entries) => entries,
        _ => {
            return None;
        },
    };
    let domain: String = match lookup_entry(entries, "domain") {
        Some(i) => match &entries[i].1 {
            DocValue::Text(s) => s.clone(),
            _ => {
                return None;
            },
        },
        None => {
            return None;
        },
    };
    let method: String = match lookup_entry(entries, "method") {
        Some(i) => match &entries[i].1 {
            DocValue::Text(s) => s.clone(),
            _ => {
                return None;
            },
        },
        None => {
            return None;
        },
    };
    let path: String = match lookup_entry(entries, "path") {
        Some(i) => match &entries[i].1 {
            DocValue::Text(s) => s.clone(),
            _ => {
                return None;
            },
        },
        None => {
            return None;
        },
    };
    let data: Option<String> = match lookup_entry(entries, "data") {
        Some(i) => match &entries[i].1 {
            DocValue::Text(s) => Some(s.clone()),
            _ => {
                return None;
            },
        },
        None => None,
    };
    let headers: Option<Vec<(String, String)>> = match lookup_entry(entries, "headers") {
        Some(i) => match &entries[i].1 {
            DocValue::Entries(he) => match headers_from_entries(he) {
                Some(v) => Some(v),
                None => {
                    return None;
                },
            },
            _ => {
                return None;
            },
        },
        None => None,
    };
    let matchers: Option<Vec<Matcher>> = match lookup_entry(entries, "matchers") {
        Some(i) => match &entries[i].1 {
            DocValue::List(items) => {
                let ghost lv = doc_view_list(items@);
                proof {
                    lemma_doc_view_list_len(items@);
                }
                let mut out: Vec<Matcher> = Vec::new();
                let mut j: usize = 0;
                while j < items.len()
                    invariant
                        j <= items@.len(),
                        lv == doc_view_list(items@),
                        lv.len() == items@.len(),
                        out@.len() == j,
                        forall|k: int|
                            #![trigger lv[k]]
                            0 <= k < j ==> spec_matcher_of(lv[k]) is Some && out@[k].deep_view()
                                == spec_matcher_of(lv[k]).unwrap(),
                    decreases items@.len() - j,
                {
                    proof {
                        lemma_doc_view_list_index(items@, j as int);
                    }
                    match matcher_from_doc(&items[j]) {
                        Some(m) => {
                            out.push(m);
                        },
                        None => {
                            return None;
                        },
                    }
                    j += 1;
                }
                proof {
                    assert(out.deep_view() =~= matchers_of(lv));
                }
                Some(out)
            },
            _ => {
                return None;
            },
        },
        None => None,
    };
    Some(Request { domain, method, path, data, headers, matchers })
}

/// Builds the template a document describes; the error is `Schema` exactly
/// when a required field is absent or a field is mistyped.
#[verifier::loop_isolation(false)]
pub fn template_from_doc(d: &DocValue) -> (r: Result<Template, TemplateError>)
    ensures
        match r {
            Ok(t) => spec_template_of(d@) == Some(t.deep_view()),
            Err(e) => e == TemplateError::Schema && spec_template_of(d@) == None::<TemplateV>,
        },
{
    let entries = match d {
        DocValue::Entries(entries) => entries,
        _ => {
            return Err(TemplateError::Schema);
        },
    };
    let id: String = match lookup_entry(entries, "id") {
        Some(i) => match &entries[i].1 {
            DocValue::Text(s) => s.clone(),
            _ => {
                return Err(TemplateError::Schema);
            },
        },
        None => {
            return Err(TemplateError::Schema);
        },
    };
    let info: Info = match lookup_entry(entries, "info") {
        Some(i) => match info_from_doc(&entries[i].1) {
            Some(inf) => inf,
            None => {
                return Err(TemplateError::Schema);
            },
        },
        None => {
            return Err(TemplateError::Schema);
        },
    };
    let requests: Vec<Request> = match lookup_entry(entries, "requests") {
        Some(i) => match &entries[i].1 {
            DocValue::List(items) => {
                let ghost lv = doc_view_list(items@);
                proof {
                    lemma_doc_view_list_len(items@);
                }
                let mut out: Vec<Request> = Vec::new();
                let mut j: usize = 0;
                while j < items.len()
                    invariant
                        j <= items@.len(),
                        lv == doc_view_list(items@),
                        lv.len() == items@.len(),
                        out@.len() == j,
                        forall|k: int|
                            #![trigger lv[k]]
                            0 <= k < j ==> spec_request_of(lv[k]) is Some && out@[k].deep_view()
                                == spec_request_of(lv[k]).unwrap(),
                    decreases items@.len() - j,
                {
                    proof {
                        lemma_doc_view_list_index(items@, j as int);
                    }
                    match request_from_doc(&items[j]) {
                        Some(req) => {
                            out.push(req);
                        },
                        None => {
                            return Err(TemplateError::Schema);
                        },
                    }
                    j += 1;
                }
                proof {
                    assert(out.deep_view() =~= requests_of(lv));
                }
                out
            },
            _ => {
                return Err(TemplateError::Schema);
            },
        },
        None => {
            return Err(TemplateError::Schema);
        },
    };
    let settings: Option<Settings> = match lookup_entry(entries, "settings") {
        Some(i) => match &entries[i].1 {
            DocValue::Entries(se) => match lookup_entry(se, "concatenate") {
                Some(ci) => match &se[ci].1 {
                    DocValue::Bool(b) => Some(Settings { concatenate: Some(*b) }),
                    _ => {
                        return Err(TemplateError::Schema);
                    },
                },
                None => Some(Settings { concatenate: None }),
            },
            _ => {
                return Err(TemplateError::Schema);
            },
        },
        None => None,
    };
    Ok(Template { id, info, requests, settings })
}

/// Builds the info block a document node describes.
pub fn info_from_doc(d: &DocValue) -> (r: Option<Info>)
    ensures
        match r {
            Some(inf) => spec_info_of(d@) == Some(inf.deep_view()),
            None => spec_info_of(d@) == None::<InfoV>,
        },
{
    let entries = match d {
        DocValue::Entries(entries) => entries,
        _ => {
            return None;
        },
    };
    let name: String = match lookup_entry(entries, "name") {
        Some(i) => match &entries[i].1 {
            DocValue::Text(s) => s.clone(),
            _ => {
                return None;
            },
        },
        None => {
            return None;
        },
    };
    let reference: Option<Vec<String>> = match lookup_entry(entries, "reference") {
        Some(i) => match &entries[i].1 {
            DocValue::List(items) => match texts_from_list(items) {
                Some(v) => Some(v),
                None => {
                    return None;
                },
            },
            _ => {
                return None;
            },
        },
        None => None,
    };
    Some(Info { name, reference })
}

/// The template a document describes, or `None` when a required field is
/// absent or a field is mistyped.
pub open spec fn spec_template_of(d: DocSpec) -> Option<TemplateV> {
    if !(d is Entries) {
        None
    } else {
        let e = d->Entries_0;
        let id = spec_lookup(e, "id"@);
        let info = spec_lookup(e, "info"@);
        let requests = spec_lookup(e, "requests"@);
        if !(id matches Some(i) && i is Text) || !(info matches Some(inf) && spec_info_of(inf)
            is Some) || !(requests matches Some(r) && r is List && requests_ok(r->List_0)) {
            None
        } else {
            match opt_settings_field(spec_lookup(e, "settings"@)) {
                Some(settings) => Some(
                    TemplateV {
                        id: id.unwrap()->Text_0,
                        info: spec_info_of(info.unwrap()).unwrap(),
                        requests: requests_of(requests.unwrap()->List_0),
                        settings,
                    },
                ),
                None => None,
            }
        }
    }
}

/// Index of the first entry stored under `key`, scanning from `i`; the
/// length when there is none.
pub open spec fn spec_key_index_from(
    entries: Seq<(Option<Seq<char>>, DocSpec)>,
    key: Seq<char>,
    i: int,
) -> int
    decreases entries.len() - i,
{
    if !(0 <= i < entries.len()) {
        entries.len() as int
    } else if entries[i].0 == Some(key) {
        i
    } else {
        spec_key_index_from(entries, key, i + 1)
    }
}

/// Stores `val` under `key`: the first entry with that key changes its
/// value in place; without one, a new entry is appended.
pub open spec fn spec_upsert(
    entries: Seq<(Option<Seq<char>>, DocSpec)>,
    key: Seq<char>,
    val: DocSpec,
) -> Seq<(Option<Seq<char>>, DocSpec)> {
    let k = spec_key_index_from(entries, key, 0);
    if k < entries.len() {
        entries.update(k, (entries[k].0, val))
    } else {
        entries.push((Some(key), val))
    }
}

/// A request entry after injection: mappings get the resolved domain stored
/// under `domain`; other nodes pass through.
pub open spec fn spec_inject_request(d: DocSpec, domain: Seq<char>) -> DocSpec {
    if d is Entries {
        DocSpec::Entries(spec_upsert(d->Entries_0, "domain"@, DocSpec::Text(domain)))
    } else {
        d
    }
}

/// A document after injection: when the top level is a mapping whose
/// `requests` field is a list, every mapping in that list gets the resolved
/// domain stored under `domain`; any other document passes through.
pub open spec fn spec_inject_domain(d: DocSpec, domain: Seq<char>) -> DocSpec {
    if !(d is Entries) {
        d
    } else {
        let e = d->Entries_0;
        let k = spec_key_index_from(e, "requests"@, 0);
        if k < e.len() && e[k].1 is List {
            let items = e[k].1->List_0;
            DocSpec::Entries(
                e.update(
                    k,
                    (
                        e[k].0,
                        DocSpec::List(
                            Seq::new(items.len(), |j: int| spec_inject_request(items[j], domain)),
                        ),
                    ),
                ),
            )
        } else {
            d
        }
    }
}

/// Finds the index of the first entry with the given key; the length when
/// there is none.
pub fn find_key(entries: &Vec<(Option<String>, DocValue)>, key: &str) -> (k: usize)
    ensures
        k == spec_key_index_from(doc_view_entries(entries@), key@, 0),
        k <= entries@.len(),
{
    let ghost ev = doc_view_entries(entries@);
    proof {
        lemma_doc_view_entries_len(entries@);
    }
    let mut i: usize = 0;
    while i < entries.len()
        invariant
            i <= entries@.len(),
            ev == doc_view_entries(entries@),
            ev.len() == entries@.len(),
            spec_key_index_from(ev, key@, 0) == spec_key_index_from(ev, key@, i as int),
        decreases entries@.len() - i,
    {
        proof {
            lemma_doc_view_entries_index(entries@, i as int);
        }
        let hit = match &entries[i].0 {
            Some(k) => str_eq(k.as_str(), key),
            None => false,
        };
        if hit {
            return i;
        }
        i += 1;
    }
    entries.len()
}

/// Stores `val` under `key` in an entry table, replacing the value of the
/// first entry with that key, or appending a new entry.
pub fn upsert_entry(entries: Vec<(Option<String>, DocValue)>, key: &str, val: DocValue) -> (r: Vec<
    (Option<String>, DocValue),
>)
    ensures
        doc_view_entries(r@) == spec_upsert(doc_view_entries(entries@), key@, val@),
{
    let ghost orig_exec = entries@;
    let ghost orig = doc_view_entries(entries@);
    let ghost val_v = val;
    proof {
        lemma_doc_view_entries_len(entries@);
    }
    let mut entries = entries;
    let k = find_key(&entries, key);
    if k < entries.len() {
        let (ekey, _old_val) = entries.remove(k);
        let ghost ekey_v = ekey;
        entries.insert(k, (ekey, val));
        proof {
            assert(entries@ =~= orig_exec.update(k as int, (ekey_v, val_v)));
            lemma_doc_view_entries_len(entries@);
            assert forall|j: int| 0 <= j < entries@.len() implies doc_view_entries(entries@)[j]
                == spec_upsert(orig, key@, val_v@)[j] by {
                lemma_doc_view_entries_index(entries@, j);
                lemma_doc_view_entries_index(orig_exec, j);
            }
            assert(doc_view_entries(entries@) =~= spec_upsert(orig, key@, val@));
        }
    } else {
        let owned_key = key.to_owned();
        entries.push((Some(owned_key), val));
        proof {
            lemma_doc_view_entries_len(entries@);
            assert forall|j: int| 0 <= j < entries@.len() implies doc_view_entries(entries@)[j]
                == spec_upsert(orig, key@, val_v@)[j] by {
                lemma_doc_view_entries_index(entries@, j);
                if j < entries@.len() - 1 {
                    lemma_doc_view_entries_index(orig_exec, j);
                }
            }
            assert(doc_view_entries(entries@) =~= spec_upsert(orig, key@, val@));
        }
    }
    entries
}

/// Injects the resolved domain into every request mapping of a substituted
/// document.
#[verifier::loop_isolation(false)]
pub fn inject_domain(d: DocValue, domain: &str) -> (r: DocValue)
    ensures
        r@ == spec_inject_domain(d@, domain@),
{
    let mut entries = match d {
        DocValue::Entries(entries) => entries,
        other => {
            return other;
        },
    };
    let ghost orig_exec = entries@;
    let ghost orig = doc_view_entries(entries@);
    proof {
        lemma_doc_view_entries_len(entries@);
    }
    let k = find_key(&entries, "requests");
    if k == entries.len() {
        return DocValue::Entries(entries);
    }
    proof {
        lemma_doc_view_entries_index(orig_exec, k as int);
    }
    let (rkey, rval) = entries.remove(k);
    let ghost rkey_v = rkey;
    let items = match rval {
        DocValue::List(items) => items,
        other => {
            let ghost other_v = other;
            entries.insert(k, (rkey, other));
            proof {
                assert((rkey_v, other_v) == orig_exec[k as int]);
                assert(entries@ =~= orig_exec);
            }
            return DocValue::Entries(entries);
        },
    };
    let ghost items_v = doc_view_list(items@);
    proof {
        lemma_doc_view_list_len(items@);
        assert forall|j: int| 0 <= j < items@.len() implies doc_view(items@[j]) == items_v[j] by {
            lemma_doc_view_list_index(items@, j);
        }
    }
    let mut rest = items;
    let mut new_items: Vec<DocValue> = Vec::new();
    while rest.len() > 0
        invariant
            new_items@.len() + rest@.len() == items_v.len(),
            forall|j: int|
                #![trigger rest@[j]]
                0 <= j < rest@.len() ==> doc_view(rest@[j]) == items_v[new_items@.len() + j],
            forall|j: int|
                #![trigger new_items@[j]]
                0 <= j < new_items@.len() ==> doc_view(new_items@[j]) == spec_inject_request(
                    items_v[j],
                    domain@,
                ),
        decreases rest@.len(),
    {
        let ghost rest0 = rest@;
        let ghost n0 = new_items@.len();
        let item = rest.remove(0);
        let injected = match item {
            DocValue::Entries(re) => DocValue::Entries(
                upsert_entry(re, "domain", DocValue::Text(domain.to_owned())),
            ),
            other => other,
        };
        new_items.push(injected);
        proof {
            assert(doc_view(new_items@[n0 as int]) == spec_inject_request(items_v[n0 as int], domain@));
            assert forall|j: int| 0 <= j < rest@.len() implies doc_view(rest@[j]) == items_v[
                new_items@.len() + j
            ] by {
                assert(rest@[j] == rest0[j + 1]);
            }
        }
    }
    let ghost entries_before = entries@;
    entries.insert(k, (rkey, DocValue::List(new_items)));
    proof {
        let target = spec_inject_domain(DocSpec::Entries(orig), domain@);
        assert(orig[k as int].1 == DocSpec::List(items_v));
        assert(entries@ =~= orig_exec.update(
            k as int,
            (rkey_v, DocValue::List(new_items)),
        ));
        lemma_doc_view_entries_len(entries@);
        lemma_doc_view_list_len(new_items@);
        assert forall|m: int| 0 <= m < new_items@.len() implies doc_view_list(new_items@)[m]
            == spec_inject_request(items_v[m], domain@) by {
            lemma_doc_view_list_index(new_items@, m);
        }
        assert(doc_view_list(new_items@) =~= Seq::new(
            items_v.len(),
            |m: int| spec_inject_request(items_v[m], domain@),
        ));
        assert forall|j: int| 0 <= j < entries@.len() implies doc_view_entries(entries@)[j]
            == target->Entries_0[j] by {
            lemma_doc_view_entries_index(entries@, j);
            if j != k {
                lemma_doc_view_entries_index(orig_exec, j);
            }
        }
        assert(doc_view_entries(entries@) =~= target->Entries_0);
    }
    DocValue::Entries(entries)
}

/// The template id read from an unsubstituted document: the `id` field's
/// string, or the empty string when absent or mistyped.
pub open spec fn spec_doc_id(d: DocSpec) -> Seq<char> {
    if d is Entries && (spec_lookup(d->Entries_0, "id"@) matches Some(v) && v is Text) {
        spec_lookup(d->Entries_0, "id"@).unwrap()->Text_0
    } else {
        Seq::empty()
    }
}

/// What loading one template file yields: parse, token resolution by the
/// document's id, substitution, domain injection, then the schema.
pub open spec fn spec_process_template(
    content: Seq<char>,
    domain: Seq<char>,
    store: Seq<(Seq<char>, Option<Seq<char>>)>,
) -> Result<TemplateV, TemplateError> {
    match crate::parse::yaml_doc_of(content) {
        None => Err(TemplateError::Parse),
        Some(doc) => {
            let token = crate::secrets::spec_return_api(store, spec_doc_id(doc));
            let injected = spec_inject_domain(
                crate::subst::spec_substitute_doc(
                    doc,
                    domain,
                    token,
                    crate::subst::b64_of(domain),
                ),
                domain,
            );
            match spec_template_of(injected) {
                Some(t) => Ok(t),
                None => Err(TemplateError::Schema),
            }
        },
    }
}

/// Loads one template file's content: parses it, resolves the secret token
/// for its id, substitutes every placeholder, injects the resolved domain
/// into each request, and checks the schema.
pub fn process_template_content(content: &str, domain: &str, api_keys: &SecretStore) -> (r: Result<
    Template,
    TemplateError,
>)
    ensures
        match r {
            Ok(t) => spec_process_template(content@, domain@, api_keys.deep_view()) == Ok::<
                TemplateV,
                TemplateError,
            >(t.deep_view()),
            Err(e) => spec_process_template(content@, domain@, api_keys.deep_view()) == Err::<
                TemplateV,
                TemplateError,
            >(e),
        },
{
    let doc = match crate::parse::parse_yaml_doc(content) {
        Some(doc) => doc,
        None => {
            return Err(TemplateError::Parse);
        },
    };
    let id: String = match &doc {
        DocValue::Entries(entries) => match lookup_entry(entries, "id") {
            Some(i) => match &entries[i].1 {
                DocValue::Text(s) => s.clone(),
                _ => String::new(),
            },
            None => String::new(),
        },
        _ => String::new(),
    };
    proof {
        assert(id@ =~= spec_doc_id(doc@));
    }
    let token = return_api(api_keys, id.as_str());
    let substituted = crate::subst::substitute_doc(&doc, domain, token.as_str());
    let injected = inject_domain(substituted, domain);
    template_from_doc(&injected)
}

/// No placeholder in any string field of a matcher.
pub open spec fn matcher_fields_marker_free(m: MatcherV) -> bool {
    &&& marker_free(m.matcher_type)
    &&& (m.filter matches Some(f) ==> marker_free(f))
    &&& (m.words matches Some(ws) ==> forall|i: int|
        0 <= i < ws.len() ==> marker_free(#[trigger] ws[i]))
    &&& (m.value matches Some(v) ==> marker_free(v))
}

/// No placeholder in any string field of a request: its domain, method,
/// path, body, header values and matcher fields.
pub open spec fn request_fields_marker_free(r: RequestV) -> bool {
    &&& marker_free(r.domain)
    &&& marker_free(r.method)
    &&& marker_free(r.path)
    &&& (r.data matches Some(d) ==> marker_free(d))
    &&& (r.headers matches Some(hs) ==> forall|i: int|
        0 <= i < hs.len() ==> marker_free(#[trigger] hs[i].1))
    &&& (r.matchers matches Some(ms) ==> forall|i: int|
        0 <= i < ms.len() ==> matcher_fields_marker_free(#[trigger] ms[i]))
}

/// No placeholder in any string field of a built template.
pub open spec fn template_fields_marker_free(t: TemplateV) -> bool {
    &&& marker_free(t.id)
    &&& marker_free(t.info.name)
    &&& (t.info.reference matches Some(rs) ==> forall|i: int|
        0 <= i < rs.len() ==> marker_free(#[trigger] rs[i]))
    &&& forall|i: int|
        0 <= i < t.requests.len() ==> request_fields_marker_free(#[trigger] t.requests[i])
}

/// A value looked up in a table of marker-free values is marker-free.
proof fn lemma_lookup_marker_free(entries: Seq<(Option<Seq<char>>, DocSpec)>, key: Seq<char>, i: int)
    requires
        forall|j: int| 0 <= j < entries.len() ==> doc_marker_free(#[trigger] entries[j].1),
    ensures
        spec_lookup_from(entries, key, i) matches Some(v) ==> doc_marker_free(v),
    decreases entries.len() - i,
{
    if 0 <= i < entries.len() && !(entries[i].0 == Some(key)) {
        lemma_lookup_marker_free(entries, key, i + 1);
    }
}

/// The first index of a key lies between the scan start and the length.
proof fn lemma_key_index_bounds(
    entries: Seq<(Option<Seq<char>>, DocSpec)>,
    key: Seq<char>,
    i: int,
)
    requires
        0 <= i <= entries.len(),
    ensures
        i <= spec_key_index_from(entries, key, i) <= entries.len(),
    decreases entries.len() - i,
{
    if i < entries.len() && !(entries[i].0 == Some(key)) {
        lemma_key_index_bounds(entries, key, i + 1);
    }
}

/// Storing a marker-free value into a marker-free table keeps the table
/// marker-free.
proof fn lemma_upsert_marker_free(
    entries: Seq<(Option<Seq<char>>, DocSpec)>,
    key: Seq<char>,
    val: DocSpec,
)
    requires
        entries_marker_free(entries),
        doc_marker_free(val),
    ensures
        entries_marker_free(spec_upsert(entries, key, val)),
{
    lemma_entries_marker_free_iff(entries);
    let out = spec_upsert(entries, key, val);
    let k = spec_key_index_from(entries, key, 0);
    lemma_key_index_bounds(entries, key, 0);
    assert forall|j: int| 0 <= j < out.len() implies doc_marker_free(#[trigger] out[j].1) by {
        if k < entries.len() {
            if j != k {
                assert(out[j] == entries[j]);
                assert(doc_marker_free(entries[j].1));
            } else {
                assert(out[j].1 == val);
            }
        } else {
            if j < entries.len() {
                assert(out[j] == entries[j]);
                assert(doc_marker_free(entries[j].1));
            } else {
                assert(out[j].1 == val);
            }
        }
    }
    lemma_entries_marker_free_iff(out);
}

/// Injecting a marker-free domain into a marker-free document leaves the
/// document marker-free.
pub proof fn lemma_inject_marker_free(d: DocSpec, domain: Seq<char>)
    requires
        doc_marker_free(d),
        marker_free(domain),
    ensures
        doc_marker_free(spec_inject_domain(d, domain)),
{
    if d is Entries {
        let e = d->Entries_0;
        let k = spec_key_index_from(e, "requests"@, 0);
        lemma_key_index_bounds(e, "requests"@, 0);
        if k < e.len() && e[k].1 is List {
            let items = e[k].1->List_0;
            let mapped = Seq::new(items.len(), |j: int| spec_inject_request(items[j], domain));
            lemma_entries_marker_free_iff(e);
            assert(doc_marker_free(e[k].1));
            assert(e[k].1 == DocSpec::List(items));
            assert(list_marker_free(items));
            lemma_list_marker_free_iff(items);
            assert forall|j: int| 0 <= j < mapped.len() implies doc_marker_free(
                #[trigger] mapped[j],
            ) by {
                assert(doc_marker_free(items[j]));
                assert(mapped[j] == spec_inject_request(items[j], domain));
                if items[j] is Entries {
                    lemma_upsert_marker_free(
                        items[j]->Entries_0,
                        "domain"@,
                        DocSpec::Text(domain),
                    );
                    assert(mapped[j] == DocSpec::Entries(
                        spec_upsert(items[j]->Entries_0, "domain"@, DocSpec::Text(domain)),
                    ));
                } else {
                    assert(mapped[j] == items[j]);
                }
            }
            lemma_list_marker_free_iff(mapped);
            assert(list_marker_free(mapped));
            let out = e.update(k, (e[k].0, DocSpec::List(mapped)));
            assert forall|j: int| 0 <= j < out.len() implies doc_marker_free(
                #[trigger] out[j].1,
            ) by {
                if j != k {
                    assert(out[j] == e[j]);
                    assert(doc_marker_free(e[j].1));
                } else {
                    assert(out[j].1 == DocSpec::List(mapped));
                }
            }
            lemma_entries_marker_free_iff(out);
            assert(entries_marker_free(out));
            assert(spec_inject_domain(d, domain) == DocSpec::Entries(out));
        }
    }
}

/// The strings of a marker-free string list are marker-free.
proof fn lemma_texts_of_marker_free(items: Seq<DocSpec>)
    requires
        list_marker_free(items),
        texts_ok(items),
    ensures
        forall|i: int| 0 <= i < texts_of(items).len() ==> marker_free(#[trigger] texts_of(items)[i]),
{
    lemma_list_marker_free_iff(items);
    assert forall|i: int| 0 <= i < texts_of(items).len() implies marker_free(
        #[trigger] texts_of(items)[i],
    ) by {
        assert(doc_marker_free(items[i]));
    }
}

/// A matcher built from a marker-free node has marker-free string fields.
proof fn lemma_matcher_of_marker_free(d: DocSpec)
    requires
        doc_marker_free(d),
        spec_matcher_of(d) is Some,
    ensures
        matcher_fields_marker_free(spec_matcher_of(d).unwrap()),
{
    let e = d->Entries_0;
    lemma_entries_marker_free_iff(e);
    lemma_lookup_marker_free(e, "type"@, 0);
    lemma_lookup_marker_free(e, "filter"@, 0);
    lemma_lookup_marker_free(e, "words"@, 0);
    lemma_lookup_marker_free(e, "value"@, 0);
    let wo = spec_lookup(e, "words"@);
    if wo is Some && wo.unwrap() is List {
        lemma_texts_of_marker_free(wo.unwrap()->List_0);
    }
}

/// A request built from a marker-free node has marker-free string fields.
proof fn lemma_request_of_marker_free(d: DocSpec)
    requires
        doc_marker_free(d),
        spec_request_of(d) is Some,
    ensures
        request_fields_marker_free(spec_request_of(d).unwrap()),
{
    let e = d->Entries_0;
    lemma_entries_marker_free_iff(e);
    lemma_lookup_marker_free(e, "domain"@, 0);
    lemma_lookup_marker_free(e, "method"@, 0);
    lemma_lookup_marker_free(e, "path"@, 0);
    lemma_lookup_marker_free(e, "data"@, 0);
    lemma_lookup_marker_free(e, "headers"@, 0);
    lemma_lookup_marker_free(e, "matchers"@, 0);
    let r = spec_request_of(d).unwrap();
    let ho = spec_lookup(e, "headers"@);
    if ho is Some && ho.unwrap() is Entries {
        let he = ho.unwrap()->Entries_0;
        lemma_entries_marker_free_iff(he);
        assert forall|i: int| 0 <= i < headers_of(he).len() implies marker_free(
            #[trigger] headers_of(he)[i].1,
        ) by {
            assert(doc_marker_free(he[i].1));
        }
    }
    let mo = spec_lookup(e, "matchers"@);
    if mo is Some && mo.unwrap() is List {
        let ml = mo.unwrap()->List_0;
        lemma_list_marker_free_iff(ml);
        assert forall|i: int| 0 <= i < matchers_of(ml).len() implies matcher_fields_marker_free(
            #[trigger] matchers_of(ml)[i],
        ) by {
            assert(doc_marker_free(ml[i]));
            lemma_matcher_of_marker_free(ml[i]);
        }
    }
}

/// A template built from a marker-free document has marker-free string
/// fields everywhere: id, name, references, and every request's domain,
/// method, path, body, header values and matcher fields.
pub proof fn lemma_template_of_marker_free(d: DocSpec)
    requires
        doc_marker_free(d),
        spec_template_of(d) is Some,
    ensures
        template_fields_marker_free(spec_template_of(d).unwrap()),
{
    let e = d->Entries_0;
    lemma_entries_marker_free_iff(e);
    lemma_lookup_marker_free(e, "id"@, 0);
    lemma_lookup_marker_free(e, "info"@, 0);
    lemma_lookup_marker_free(e, "requests"@, 0);
    let t = spec_template_of(d).unwrap();
    let inf = spec_lookup(e, "info"@).unwrap();
    let ie = inf->Entries_0;
    lemma_entries_marker_free_iff(ie);
    lemma_lookup_marker_free(ie, "name"@, 0);
    lemma_lookup_marker_free(ie, "reference"@, 0);
    let rfo = spec_lookup(ie, "reference"@);
    if rfo is Some && rfo.unwrap() is List {
        lemma_texts_of_marker_free(rfo.unwrap()->List_0);
    }
    let rl = spec_lookup(e, "requests"@).unwrap()->List_0;
    lemma_list_marker_free_iff(rl);
    assert forall|i: int| 0 <= i < t.requests.len() implies request_fields_marker_free(
        #[trigger] t.requests[i],
    ) by {
        assert(doc_marker_free(rl[i]));
        lemma_request_of_marker_free(rl[i]);
    }
}

/// The whole load path preserves what substitution established: under
/// usable replacement strings, no placeholder survives into any string
/// field of a template built from a substituted, domain-injected document.
pub proof fn lemma_loaded_template_marker_free(
    doc: DocSpec,
    domain: Seq<char>,
    token: Seq<char>,
    b64: Seq<char>,
    t: TemplateV,
)
    requires
        crate::subst::subst_args_ok(domain, token),
        spec_template_of(
            spec_inject_domain(crate::subst::spec_substitute_doc(doc, domain, token, b64), domain),
        ) == Some(t),
    ensures
        template_fields_marker_free(t),
{
    let substituted = crate::subst::spec_substitute_doc(doc, domain, token, b64);
    crate::subst::lemma_substitute_doc_marker_free(doc, domain, token, b64);
    crate::subst::lemma_brace_free_is_marker_free(domain);
    lemma_inject_marker_free(substituted, domain);
    lemma_template_of_marker_free(spec_inject_domain(substituted, domain));
}

} // verus!
