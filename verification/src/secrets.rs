//! The secret store: a read-only mapping from template identifier to API
//! token, resolved once per template at load time. Absence of a token is
//! never fatal: it resolves to the empty string.

use vstd::prelude::*;
use vstd::string::*;

verus! {

/// The tokens available to templates. An entry whose value was not a plain
/// string in the backing file carries `None`.
pub struct SecretStore {
    pub entries: Vec<(String, Option<String>)>,
}

impl DeepView for SecretStore {
    type V = Seq<(Seq<char>, Option<Seq<char>>)>;

    open spec fn deep_view(&self) -> Seq<(Seq<char>, Option<Seq<char>>)> {
        self.entries.deep_view()
    }
}

/// First entry stored under `key`, scanning from `i` on.
pub open spec fn spec_store_get_from(
    store: Seq<(Seq<char>, Option<Seq<char>>)>,
    key: Seq<char>,
    i: int,
) -> Option<Option<Seq<char>>>
    decreases store.len() - i,
{
    if !(0 <= i < store.len()) {
        None
    } else if store[i].0 == key {
        Some(store[i].1)
    } else {
        spec_store_get_from(store, key, i + 1)
    }
}

/// The token a template id resolves to: the stored string if the id has one,
/// the empty string when the id is absent or its value is not a string.
pub open spec fn spec_return_api(
    store: Seq<(Seq<char>, Option<Seq<char>>)>,
    key: Seq<char>,
) -> Seq<char> {
    match spec_store_get_from(store, key, 0) {
        Some(Some(v)) => v,
        _ => Seq::empty(),
    }
}

impl SecretStore {
    /// A store without entries: every lookup resolves to the empty token.
    pub fn new() -> (r: SecretStore)
        ensures
            r.deep_view() =~= Seq::<(Seq<char>, Option<Seq<char>>)>::empty(),
    {
        SecretStore { entries: Vec::new() }
    }

    /// Adds one id/token entry at the end.
    pub fn push(&mut self, id: String, token: Option<String>)
        ensures
            final (self).deep_view() == old(self).deep_view().push((id@, token.deep_view())),
    {
        self.entries.push((id, token));
    }
}

/// What the store read from a parsed key file holds: one entry per mapping
/// entry with a string key, in order, carrying the value's string when the
/// value is one.
pub open spec fn spec_store_of_entries(
    entries: Seq<(Option<Seq<char>>, crate::document::DocSpec)>,
    i: int,
) -> Seq<(Seq<char>, Option<Seq<char>>)>
    decreases entries.len() - i,
{
    if !(0 <= i < entries.len()) {
        Seq::empty()
    } else {
        let rest = spec_store_of_entries(entries, i + 1);
        match entries[i].0 {
            Some(k) => seq![
                (
                    k,
                    match entries[i].1 {
                        crate::document::DocSpec::Text(v) => Some(v),
                        _ => None,
                    },
                ),
            ] + rest,
            None => rest,
        }
    }
}

/// Builds the secret store from a parsed key file: every string-keyed
/// mapping entry becomes a store entry, non-string values recorded as
/// absent tokens; a document that is not a mapping gives an empty store.
pub fn store_from_doc(doc: &crate::document::DocValue) -> (r: SecretStore)
    ensures
        r.deep_view() == (match doc@ {
            crate::document::DocSpec::Entries(entries) => spec_store_of_entries(entries, 0),
            _ => Seq::<(Seq<char>, Option<Seq<char>>)>::empty(),
        }),
{
    let entries = match doc {
        crate::document::DocValue::Entries(entries) => entries,
        _ => {
            let r = SecretStore::new();
            proof {
                assert(r.deep_view() =~= Seq::<(Seq<char>, Option<Seq<char>>)>::empty());
            }
            return r;
        },
    };
    let ghost ev = crate::document::doc_view_entries(entries@);
    proof {
        crate::document::lemma_doc_view_entries_len(entries@);
    }
    let mut store = SecretStore::new();
    let mut i: usize = 0;
    proof {
        assert(store.deep_view() + spec_store_of_entries(ev, 0) =~= spec_store_of_entries(ev, 0));
    }
    while i < entries.len()
        invariant
            i <= entries@.len(),
            ev == crate::document::doc_view_entries(entries@),
            ev.len() == entries@.len(),
            spec_store_of_entries(ev, 0) == store.deep_view() + spec_store_of_entries(
                ev,
                i as int,
            ),
        decreases entries@.len() - i,
    {
        proof {
            crate::document::lemma_doc_view_entries_index(entries@, i as int);
        }
        let ghost store0 = store.deep_view();
        if let Some(k) = &entries[i].0 {
            let token: Option<String> = match &entries[i].1 {
                crate::document::DocValue::Text(v) => Some(v.clone()),
                _ => None,
            };
            let ghost t = token.deep_view();
            store.push(k.clone(), token);
            proof {
                assert(store0 + (seq![(k@, t)] + spec_store_of_entries(ev, i + 1))
                    =~= store.deep_view() + spec_store_of_entries(ev, i + 1));
            }
        }
        i += 1;
    }
    proof {
        assert(store.deep_view() + spec_store_of_entries(ev, ev.len() as int)
            =~= store.deep_view());
    }
    store
}

/// The token for a template id: the stored string, or the empty string when
/// the id is absent or its value is not a string (an empty stored string
/// resolves to itself).
pub fn return_api(api_keys: &SecretStore, key: &str) -> (r: String)
    ensures
        r@ == spec_return_api(api_keys.deep_view(), key@),
{
    let ghost sv = api_keys.deep_view();
    let mut i: usize = 0;
    while i < api_keys.entries.len()
        invariant
            i <= api_keys.entries@.len(),
            sv == api_keys.deep_view(),
            sv.len() == api_keys.entries@.len(),
            spec_store_get_from(sv, key@, 0) == spec_store_get_from(sv, key@, i as int),
        decreases api_keys.entries@.len() - i,
    {
        proof {
            let e = api_keys.entries@[i as int];
            assert(sv[i as int] == (e.0@, e.1.deep_view()));
        }
        if crate::text::str_eq(api_keys.entries[i].0.as_str(), key) {
            return match &api_keys.entries[i].1 {
                Some(v) => v.clone(),
                None => String::new(),
            };
        }
        i += 1;
    }
    let r = String::new();
    proof {
        assert(r@ =~= Seq::<char>::empty());
    }
    r
}

} // verus!
