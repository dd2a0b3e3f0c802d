//! The aggregator's result set: hostname to first-seen source, insertion
//! ordered, deduplicated by exact hostname.

use vstd::prelude::*;
use crate::text::{occurs, str_eq};

verus! {

/// An insertion-ordered mapping from hostname to the source that first
/// reported it.
pub struct ResultSet {
    entries: Vec<(String, String)>,
}

/// The set already holds the hostname.
pub open spec fn spec_contains_host(s: Seq<(Seq<char>, Seq<char>)>, h: Seq<char>) -> bool {
    exists|i: int| 0 <= i < s.len() && s[i].0 == h
}

/// Inserting drops a hostname that is already present; a new one is
/// appended with its source.
pub open spec fn spec_insert(
    s: Seq<(Seq<char>, Seq<char>)>,
    h: Seq<char>,
    src: Seq<char>,
) -> Seq<(Seq<char>, Seq<char>)> {
    if spec_contains_host(s, h) {
        s
    } else {
        s.push((h, src))
    }
}

/// The source attributed to a hostname: that of its first entry.
pub open spec fn spec_source_of_from(
    s: Seq<(Seq<char>, Seq<char>)>,
    h: Seq<char>,
    i: int,
) -> Option<Seq<char>>
    decreases s.len() - i,
{
    if !(0 <= i < s.len()) {
        None
    } else if s[i].0 == h {
        Some(s[i].1)
    } else {
        spec_source_of_from(s, h, i + 1)
    }
}

/// The source attributed to a hostname.
pub open spec fn spec_source_of(s: Seq<(Seq<char>, Seq<char>)>, h: Seq<char>) -> Option<Seq<char>> {
    spec_source_of_from(s, h, 0)
}

/// No hostname appears twice.
pub open spec fn spec_hosts_unique(s: Seq<(Seq<char>, Seq<char>)>) -> bool {
    forall|i: int, j: int| 0 <= i < j < s.len() ==> s[i].0 != s[j].0
}

impl View for ResultSet {
    type V = Seq<(Seq<char>, Seq<char>)>;

    closed spec fn view(&self) -> Seq<(Seq<char>, Seq<char>)> {
        self.entries.deep_view()
    }
}

impl ResultSet {
    /// An empty result set.
    pub fn new() -> (r: ResultSet)
        ensures
            r@ =~= Seq::<(Seq<char>, Seq<char>)>::empty(),
            spec_hosts_unique(r@),
    {
        ResultSet { entries: Vec::new() }
    }

    /// The number of distinct hostnames.
    pub fn len(&self) -> (n: usize)
        ensures
            n == self@.len(),
    {
        self.entries.len()
    }

    /// The hostname and source of one entry, in insertion order.
    pub fn entry(&self, i: usize) -> (r: (&String, &String))
        requires
            i < self@.len(),
        ensures
            r.0@ == self@[i as int].0,
            r.1@ == self@[i as int].1,
    {
        proof {
            assert(self@[i as int] == (self.entries@[i as int].0@, self.entries@[i as int].1@));
        }
        (&self.entries[i].0, &self.entries[i].1)
    }

    /// Records a finding: a hostname seen before is dropped, keeping its
    /// original attribution; a new one is appended under its source.
    pub fn insert(&mut self, source: &str, hostname: &str) -> (added: bool)
        requires
            spec_hosts_unique(old(self)@),
        ensures
            final (self)@ == spec_insert(old(self)@, hostname@, source@),
            added == !spec_contains_host(old(self)@, hostname@),
            spec_hosts_unique(final (self)@),
    {
        let ghost before = self@;
        let mut i: usize = 0;
        while i < self.entries.len()
            invariant
                i <= self.entries@.len(),
                before == self@,
                before.len() == self.entries@.len(),
                spec_hosts_unique(before),
                forall|j: int| 0 <= j < i ==> before[j].0 != hostname@,
            decreases self.entries@.len() - i,
        {
            proof {
                assert(before[i as int] == (self.entries@[i as int].0@, self.entries@[
                    i as int
                ].1@));
            }
            if str_eq(self.entries[i].0.as_str(), hostname) {
                return false;
            }
            i += 1;
        }
        self.entries.push((hostname.to_owned(), source.to_owned()));
        proof {
            assert(self@ =~= before.push((hostname@, source@)));
        }
        true
    }

    /// How many hostnames were first reported by this source.
    pub fn count_for_source(&self, source: &str) -> (n: usize)
        ensures
            n == spec_count_for_source(self@, source@, 0),
    {
        let ghost sv = self@;
        let mut n: usize = 0;
        let mut i: usize = 0;
        while i < self.entries.len()
            invariant
                i <= self.entries@.len(),
                sv == self@,
                sv.len() == self.entries@.len(),
                n <= i,
                n + spec_count_for_source(sv, source@, i as int) == spec_count_for_source(
                    sv,
                    source@,
                    0,
                ),
            decreases self.entries@.len() - i,
        {
            proof {
                assert(sv[i as int] == (self.entries@[i as int].0@, self.entries@[i as int].1@));
            }
            if str_eq(self.entries[i].1.as_str(), source) {
                n += 1;
            }
            i += 1;
        }
        n
    }
}

/// Recording a batch of findings under one source, from index `i` on: the
/// grown set, and the hostnames that were new, in order.
pub open spec fn spec_insert_all(
    s: Seq<(Seq<char>, Seq<char>)>,
    hosts: Seq<Seq<char>>,
    src: Seq<char>,
    i: int,
) -> (Seq<(Seq<char>, Seq<char>)>, Seq<Seq<char>>)
    decreases hosts.len() - i,
{
    if !(0 <= i < hosts.len()) {
        (s, Seq::empty())
    } else {
        let added_here = !spec_contains_host(s, hosts[i]);
        let rec = spec_insert_all(spec_insert(s, hosts[i], src), hosts, src, i + 1);
        (
            rec.0,
            if added_here {
                seq![hosts[i]] + rec.1
            } else {
                rec.1
            },
        )
    }
}

impl ResultSet {
    /// Records a batch of findings under one source and hands back the
    /// hostnames that were new, in order; hostnames seen before keep their
    /// original attribution.
    pub fn insert_all(&mut self, source: &str, hostnames: &Vec<String>) -> (r: Vec<String>)
        requires
            spec_hosts_unique(old(self)@),
        ensures
            final (self)@ == spec_insert_all(old(self)@, hostnames.deep_view(), source@, 0).0,
            r.deep_view() == spec_insert_all(old(self)@, hostnames.deep_view(), source@, 0).1,
            spec_hosts_unique(final (self)@),
    {
        let ghost hosts = hostnames.deep_view();
        let ghost target = spec_insert_all(old(self)@, hosts, source@, 0);
        let mut out: Vec<String> = Vec::new();
        let mut i: usize = 0;
        proof {
            assert(out.deep_view() =~= Seq::<Seq<char>>::empty());
            assert(out.deep_view() + spec_insert_all(self@, hosts, source@, 0).1 =~= target.1);
        }
        while i < hostnames.len()
            invariant
                i <= hostnames@.len(),
                hosts == hostnames.deep_view(),
                hosts.len() == hostnames@.len(),
                spec_hosts_unique(self@),
                target == spec_insert_all(old(self)@, hosts, source@, 0),
                target.0 == spec_insert_all(self@, hosts, source@, i as int).0,
                target.1 == out.deep_view() + spec_insert_all(self@, hosts, source@, i as int).1,
            decreases hostnames@.len() - i,
        {
            let ghost out0 = out.deep_view();
            proof {
                assert(hosts[i as int] == hostnames@[i as int]@);
            }
            let added = self.insert(source, &hostnames[i]);
            if added {
                out.push(hostnames[i].clone());
                proof {
                    assert(out.deep_view() =~= out0.push(hosts[i as int]));
                    assert(out0 + (seq![hosts[i as int]] + spec_insert_all(
                        self@,
                        hosts,
                        source@,
                        i + 1,
                    ).1) =~= out.deep_view() + spec_insert_all(self@, hosts, source@, i + 1).1);
                }
            }
            i += 1;
        }
        proof {
            assert(out.deep_view() + spec_insert_all(self@, hosts, source@, hosts.len() as int).1
                =~= out.deep_view());
        }
        out
    }
}

/// The number of entries attributed to a source, from index `i` on.
pub open spec fn spec_count_for_source(
    s: Seq<(Seq<char>, Seq<char>)>,
    src: Seq<char>,
    i: int,
) -> nat
    decreases s.len() - i,
{
    if !(0 <= i < s.len()) {
        0
    } else if s[i].1 == src {
        1 + spec_count_for_source(s, src, i + 1)
    } else {
        spec_count_for_source(s, src, i + 1)
    }
}

/// Two findings with the same hostname, from any two sources, leave
/// exactly one entry for that hostname, attributed to whichever source was
/// recorded first.
pub proof fn lemma_dedup_first_wins(
    s: Seq<(Seq<char>, Seq<char>)>,
    h: Seq<char>,
    src1: Seq<char>,
    src2: Seq<char>,
)
    requires
        !spec_contains_host(s, h),
    ensures
        ({
            let after1 = spec_insert(s, h, src1);
            let after2 = spec_insert(after1, h, src2);
            &&& after2 == after1
            &&& spec_source_of(after2, h) == Some(src1)
        }),
{
    let after1 = spec_insert(s, h, src1);
    assert(after1[s.len() as int].0 == h);
    assert(spec_contains_host(after1, h));
    lemma_source_of_push(s, h, src1, 0);
}

/// The source of a hostname appended to a set that lacked it is the
/// appended source.
proof fn lemma_source_of_push(
    s: Seq<(Seq<char>, Seq<char>)>,
    h: Seq<char>,
    src: Seq<char>,
    i: int,
)
    requires
        0 <= i <= s.len(),
        forall|j: int| 0 <= j < s.len() ==> s[j].0 != h,
    ensures
        spec_source_of_from(s.push((h, src)), h, i) == Some(src),
    decreases s.len() - i,
{
    if i < s.len() {
        lemma_source_of_push(s, h, src, i + 1);
    }
}

/// The hostnames among `subs` that contain the target domain as a
/// substring, in order.
pub open spec fn spec_filter_by_domain_from(
    subs: Seq<Seq<char>>,
    domain: Seq<char>,
    i: int,
) -> Seq<Seq<char>>
    decreases subs.len() - i,
{
    if !(0 <= i < subs.len()) {
        Seq::empty()
    } else if occurs(subs[i], domain) {
        seq![subs[i]] + spec_filter_by_domain_from(subs, domain, i + 1)
    } else {
        spec_filter_by_domain_from(subs, domain, i + 1)
    }
}

/// Keeps the candidates that contain the target domain as a substring: the
/// sanity filter against unrelated extraction results.
pub fn filter_by_domain(subs: &Vec<String>, domain: &str) -> (r: Vec<String>)
    ensures
        r.deep_view() == spec_filter_by_domain_from(subs.deep_view(), domain@, 0),
{
    let ghost full = subs.deep_view();
    let mut out: Vec<String> = Vec::new();
    let mut i: usize = 0;
    proof {
        assert(out.deep_view() =~= Seq::<Seq<char>>::empty());
        assert(out.deep_view() + spec_filter_by_domain_from(full, domain@, 0)
            =~= spec_filter_by_domain_from(full, domain@, 0));
    }
    while i < subs.len()
        invariant
            i <= subs@.len(),
            full == subs.deep_view(),
            full.len() == subs@.len(),
            spec_filter_by_domain_from(full, domain@, 0) == out.deep_view()
                + spec_filter_by_domain_from(full, domain@, i as int),
        decreases subs@.len() - i,
    {
        let ghost out0 = out.deep_view();
        proof {
            assert(full[i as int] == subs@[i as int]@);
        }
        if crate::text::contains_sub(subs[i].as_str(), domain) {
            out.push(subs[i].clone());
            proof {
                assert(out.deep_view() =~= out0.push(full[i as int]));
                assert(out0 + (seq![full[i as int]] + spec_filter_by_domain_from(
                    full,
                    domain@,
                    i + 1,
                )) =~= out.deep_view() + spec_filter_by_domain_from(full, domain@, i + 1));
            }
        }
        i += 1;
    }
    proof {
        assert(out.deep_view() + spec_filter_by_domain_from(full, domain@, full.len() as int)
            =~= out.deep_view());
    }
    out
}

} // verus!
