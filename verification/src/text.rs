//! Verified character-level string operations: substring search, literal
//! replacement, first-line truncation and hostname normalization.

use vstd::prelude::*;
use vstd::string::*;

verus! {

/// `pat` occurs in `s` starting at index `i`.
pub open spec fn contains_at(s: Seq<char>, pat: Seq<char>, i: int) -> bool {
    0 <= i && i + pat.len() <= s.len() && s.subrange(i, i + pat.len() as int) == pat
}

/// `pat` occurs somewhere in `s`.
pub open spec fn occurs(s: Seq<char>, pat: Seq<char>) -> bool {
    exists|i: int| contains_at(s, pat, i)
}

/// `pre` is a prefix of `s`.
pub open spec fn is_prefix(pre: Seq<char>, s: Seq<char>) -> bool {
    pre.len() <= s.len() && s.subrange(0, pre.len() as int) == pre
}

/// One left-to-right pass replacing each non-overlapping occurrence of `pat`
/// by `rep`; an empty pattern leaves the text unchanged.
pub open spec fn spec_replace_all(hay: Seq<char>, pat: Seq<char>, rep: Seq<char>) -> Seq<char>
    decreases hay.len(),
{
    if pat.len() == 0 || hay.len() < pat.len() {
        hay
    } else if is_prefix(pat, hay) {
        rep + spec_replace_all(hay.skip(pat.len() as int), pat, rep)
    } else {
        seq![hay[0]] + spec_replace_all(hay.skip(1), pat, rep)
    }
}

/// The text up to (not including) the first line break; a carriage return
/// just before that break is dropped too. A text without a line break comes
/// back whole.
pub open spec fn spec_first_line(s: Seq<char>) -> Seq<char> {
    let cut = spec_before_newline(s);
    if cut.len() < s.len() {
        strip_one_cr(cut)
    } else {
        cut
    }
}

/// The text up to (not including) the first `'\n'`.
pub open spec fn spec_before_newline(s: Seq<char>) -> Seq<char>
    decreases s.len(),
{
    if s.len() == 0 {
        s
    } else if s[0] == '\n' {
        Seq::empty()
    } else {
        seq![s[0]] + spec_before_newline(s.drop_first())
    }
}

/// Drops one final carriage return, if present.
pub open spec fn strip_one_cr(s: Seq<char>) -> Seq<char> {
    if s.len() > 0 && s.last() == '\r' {
        s.drop_last()
    } else {
        s
    }
}

/// True when the characters of `hay` match `pat` at position `i`.
pub fn matches_at(hay: &str, pat: &str, i: usize) -> (r: bool)
    requires
        i + pat@.len() <= hay@.len(),
    ensures
        r == contains_at(hay@, pat@, i as int),
{
    let pat_len = pat.unicode_len();
    let hay_len = hay.unicode_len();
    let mut j: usize = 0;
    while j < pat_len
        invariant
            j <= pat_len,
            pat_len == pat@.len(),
            hay_len == hay@.len(),
            i + pat_len <= hay_len,
            forall|k: int| 0 <= k < j ==> hay@[i + k] == pat@[k],
        decreases pat_len - j,
    {
        if hay.get_char(i + j) != pat.get_char(j) {
            proof {
                if contains_at(hay@, pat@, i as int) {
                    let sub = hay@.subrange(i as int, i + pat@.len() as int);
                    assert(sub[j as int] == pat@[j as int]);
                }
            }
            return false;
        }
        j += 1;
    }
    proof {
        assert(hay@.subrange(i as int, i + pat@.len() as int) =~= pat@);
    }
    true
}

/// True when `pat` occurs somewhere in `hay`.
pub fn contains_sub(hay: &str, pat: &str) -> (r: bool)
    ensures
        r == occurs(hay@, pat@),
{
    let hay_len = hay.unicode_len();
    let pat_len = pat.unicode_len();
    if pat_len == 0 {
        proof {
            assert(hay@.subrange(0, 0) =~= pat@);
            assert(contains_at(hay@, pat@, 0));
        }
        return true;
    }
    if pat_len > hay_len {
        return false;
    }
    let mut i: usize = 0;
    while i <= hay_len - pat_len
        invariant
            hay_len == hay@.len(),
            pat_len == pat@.len(),
            0 < pat_len <= hay_len,
            i <= hay_len - pat_len + 1,
            forall|k: int| 0 <= k < i ==> !contains_at(hay@, pat@, k),
        decreases hay_len - i,
    {
        if matches_at(hay, pat, i) {
            return true;
        }
        i += 1;
    }
    proof {
        assert(forall|k: int| contains_at(hay@, pat@, k) ==> 0 <= k && k + pat@.len() <= hay@.len());
    }
    false
}

/// Character-for-character string equality.
pub fn str_eq(a: &str, b: &str) -> (r: bool)
    ensures
        r == (a@ == b@),
{
    let a_len = a.unicode_len();
    let b_len = b.unicode_len();
    if a_len != b_len {
        return false;
    }
    let r = matches_at(a, b, 0);
    proof {
        assert(a@.subrange(0, b@.len() as int) =~= a@);
    }
    r
}

/// Replaces every non-overlapping occurrence of `pat` in `hay` by `rep`,
/// scanning left to right; an empty pattern leaves the text unchanged.
pub fn replace_all(hay: &str, pat: &str, rep: &str) -> (r: String)
    ensures
        r@ == spec_replace_all(hay@, pat@, rep@),
{
    let hay_len = hay.unicode_len();
    let pat_len = pat.unicode_len();
    if pat_len == 0 {
        return hay.to_owned();
    }
    let mut out = String::new();
    let mut i: usize = 0;
    proof {
        assert(hay@.skip(0) =~= hay@);
        assert(Seq::<char>::empty() + spec_replace_all(hay@, pat@, rep@) =~= spec_replace_all(
            hay@,
            pat@,
            rep@,
        ));
    }
    while i < hay_len
        invariant
            hay_len == hay@.len(),
            pat_len == pat@.len(),
            pat_len > 0,
            i <= hay_len,
            spec_replace_all(hay@, pat@, rep@) == out@ + spec_replace_all(
                hay@.skip(i as int),
                pat@,
                rep@,
            ),
        decreases hay_len - i,
    {
        let ghost rest = hay@.skip(i as int);
        if pat_len <= hay_len - i && matches_at(hay, pat, i) {
            proof {
                assert(rest.subrange(0, pat@.len() as int) =~= hay@.subrange(
                    i as int,
                    i + pat@.len() as int,
                ));
                assert(is_prefix(pat@, rest));
                assert(rest.skip(pat@.len() as int) =~= hay@.skip(i + pat@.len()));
                assert(out@ + (rep@ + spec_replace_all(hay@.skip(i + pat@.len()), pat@, rep@))
                    =~= (out@ + rep@) + spec_replace_all(hay@.skip(i + pat@.len()), pat@, rep@));
            }
            out.append(rep);
            i += pat_len;
        } else {
            proof {
                if pat_len <= hay_len - i && is_prefix(pat@, rest) {
                    assert(hay@.subrange(i as int, i + pat@.len() as int) =~= rest.subrange(
                        0,
                        pat@.len() as int,
                    ));
                }
                assert(rest.skip(1) =~= hay@.skip(i + 1));
                assert(seq![rest[0]] =~= hay@.subrange(i as int, i + 1));
                assert(out@ + (seq![rest[0]] + spec_replace_all(hay@.skip(i + 1), pat@, rep@))
                    =~= (out@ + hay@.subrange(i as int, i + 1)) + spec_replace_all(
                    hay@.skip(i + 1),
                    pat@,
                    rep@,
                ));
            }
            let piece = hay.substring_char(i, i + 1);
            out.append(piece);
            i += 1;
        }
    }
    proof {
        assert(hay@.skip(hay_len as int) =~= Seq::<char>::empty());
        assert(out@ + Seq::<char>::empty() =~= out@);
    }
    out
}

/// The text up to the first line break; a final carriage return before the
/// break is dropped as well.
pub fn first_line(s: &str) -> (r: String)
    ensures
        r@ == spec_first_line(s@),
{
    let len = s.unicode_len();
    let mut j: usize = 0;
    while j < len && s.get_char(j) != '\n'
        invariant
            len == s@.len(),
            j <= len,
            forall|k: int| 0 <= k < j ==> s@[k] != '\n',
        decreases len - j,
    {
        j += 1;
    }
    proof {
        lemma_before_newline_prefix(s@, j as int);
    }
    let upto = if j < len && j > 0 && s.get_char(j - 1) == '\r' {
        j - 1
    } else {
        j
    };
    let r = s.substring_char(0, upto).to_owned();
    proof {
        let cut = spec_before_newline(s@);
        assert(cut == s@.subrange(0, j as int));
        if j < len {
            if j > 0 && s@[j - 1] == '\r' {
                assert(cut.len() == j && cut.last() == '\r');
                assert(cut.drop_last() =~= s@.subrange(0, j - 1));
            } else {
                if cut.len() > 0 {
                    assert(cut.last() == s@[j - 1]);
                }
            }
        }
    }
    r
}

/// The literal wildcard marker `*.`.
pub open spec fn wild_marker() -> Seq<char> {
    seq!['*', '.']
}

/// Drops every leading `*.` from the text.
pub open spec fn spec_strip_leading_wild(s: Seq<char>) -> Seq<char>
    decreases s.len(),
{
    if is_prefix(wild_marker(), s) && s.len() >= 2 {
        spec_strip_leading_wild(s.skip(2))
    } else {
        s
    }
}

/// Drops every trailing `.` from the text.
pub open spec fn spec_strip_trailing_dots(s: Seq<char>) -> Seq<char>
    decreases s.len(),
{
    if s.len() > 0 && s.last() == '.' {
        spec_strip_trailing_dots(s.drop_last())
    } else {
        s
    }
}

/// A normalized hostname: every `*.` removed in one pass, any leading `*.`
/// left by that pass removed, and trailing dots removed.
pub open spec fn spec_normalize_hostname(s: Seq<char>) -> Seq<char> {
    spec_strip_trailing_dots(
        spec_strip_leading_wild(spec_replace_all(s, wild_marker(), Seq::empty())),
    )
}

/// A hostname in normal form: no leading `*.` and no trailing `.`.
pub open spec fn hostname_clean(s: Seq<char>) -> bool {
    &&& !is_prefix(wild_marker(), s)
    &&& (s.len() > 0 ==> s.last() != '.')
}

/// A normalized hostname has no leading `*.` and no trailing `.`.
pub proof fn lemma_normalize_clean(s: Seq<char>)
    ensures
        hostname_clean(spec_normalize_hostname(s)),
{
    let w = spec_strip_leading_wild(spec_replace_all(s, wild_marker(), Seq::empty()));
    lemma_strip_leading_wild_clean(spec_replace_all(s, wild_marker(), Seq::empty()));
    lemma_strip_trailing_dots_clean(w);
}

/// Stripping leading `*.` leaves no leading `*.`.
proof fn lemma_strip_leading_wild_clean(s: Seq<char>)
    ensures
        !is_prefix(wild_marker(), spec_strip_leading_wild(s)),
    decreases s.len(),
{
    if is_prefix(wild_marker(), s) && s.len() >= 2 {
        lemma_strip_leading_wild_clean(s.skip(2));
    }
}

/// Stripping trailing dots leaves no trailing dot, and cannot create a
/// leading `*.` that was not already there.
proof fn lemma_strip_trailing_dots_clean(s: Seq<char>)
    ensures
        spec_strip_trailing_dots(s).len() > 0 ==> spec_strip_trailing_dots(s).last() != '.',
        !is_prefix(wild_marker(), s) ==> !is_prefix(wild_marker(), spec_strip_trailing_dots(s)),
    decreases s.len(),
{
    if s.len() > 0 && s.last() == '.' {
        lemma_strip_trailing_dots_clean(s.drop_last());
        if !is_prefix(wild_marker(), s) {
            if is_prefix(wild_marker(), s.drop_last()) {
                assert(s.subrange(0, 2) =~= s.drop_last().subrange(0, 2));
            }
        }
    }
}

/// Removes every `*.`, then any leading `*.` left by that pass, then every
/// trailing `.`: the normal form of an extracted hostname.
#[verifier::loop_isolation(false)]
pub fn normalize_hostname(s: &str) -> (r: String)
    ensures
        r@ == spec_normalize_hostname(s@),
        hostname_clean(r@),
{
    proof {
        reveal_strlit("*.");
        assert("*."@ =~= wild_marker());
        reveal_strlit("");
        assert(""@ =~= Seq::<char>::empty());
        lemma_normalize_clean(s@);
    }
    let stripped = replace_all(s, "*.", "");
    let mut start: usize = 0;
    let len = stripped.as_str().unicode_len();
    proof {
        assert(stripped@.skip(0) =~= stripped@);
    }
    while len - start >= 2 && matches_at(stripped.as_str(), "*.", start)
        invariant
            len == stripped@.len(),
            start <= len,
            spec_strip_leading_wild(stripped@) == spec_strip_leading_wild(
                stripped@.skip(start as int),
            ),
        decreases len - start,
    {
        proof {
            let rest = stripped@.skip(start as int);
            assert(rest.subrange(0, 2) =~= stripped@.subrange(start as int, start + 2));
            assert(is_prefix(wild_marker(), rest));
            assert(rest.skip(2) =~= stripped@.skip(start + 2));
        }
        start += 2;
    }
    proof {
        let rest = stripped@.skip(start as int);
        if start + 2 <= len {
            assert(stripped@.subrange(start as int, start + 2) =~= rest.subrange(0, 2));
        }
        assert(!(is_prefix(wild_marker(), rest) && rest.len() >= 2));
        assert(spec_strip_leading_wild(stripped@) == rest);
        assert(rest =~= stripped@.subrange(start as int, len as int));
    }
    let mut end: usize = len;
    while end > start && stripped.as_str().get_char(end - 1) == '.'
        invariant
            len == stripped@.len(),
            start <= end <= len,
            spec_strip_trailing_dots(spec_strip_leading_wild(stripped@))
                == spec_strip_trailing_dots(stripped@.subrange(start as int, end as int)),
        decreases end,
    {
        proof {
            let cur = stripped@.subrange(start as int, end as int);
            assert(cur.last() == stripped@[end - 1]);
            assert(cur.drop_last() =~= stripped@.subrange(start as int, end - 1));
        }
        end -= 1;
    }
    proof {
        let cur = stripped@.subrange(start as int, end as int);
        if end > start {
            assert(cur.last() == stripped@[end - 1]);
        }
        assert(spec_strip_trailing_dots(cur) == cur);
    }
    let r = stripped.as_str().substring_char(start, end).to_owned();
    r
}

/// `suf` is a suffix of `s`.
pub open spec fn is_suffix(suf: Seq<char>, s: Seq<char>) -> bool {
    suf.len() <= s.len() && s.subrange(s.len() - suf.len(), s.len() as int) == suf
}

/// True when `s` ends with `suffix`.
pub fn ends_with_str(s: &str, suffix: &str) -> (r: bool)
    ensures
        r == is_suffix(suffix@, s@),
{
    let s_len = s.unicode_len();
    let suf_len = suffix.unicode_len();
    if suf_len > s_len {
        return false;
    }
    let r = matches_at(s, suffix, s_len - suf_len);
    proof {
        assert(s@.subrange(s@.len() - suffix@.len(), s@.len() as int) == s@.subrange(
            s@.len() - suffix@.len(),
            s@.len() - suffix@.len() + suffix@.len(),
        ));
    }
    r
}

/// Removes every trailing `.` from the text.
pub fn strip_trailing_dots(s: &str) -> (r: String)
    ensures
        r@ == spec_strip_trailing_dots(s@),
{
    let len = s.unicode_len();
    let mut end: usize = len;
    proof {
        assert(s@.subrange(0, len as int) =~= s@);
    }
    while end > 0 && s.get_char(end - 1) == '.'
        invariant
            len == s@.len(),
            end <= len,
            spec_strip_trailing_dots(s@) == spec_strip_trailing_dots(s@.subrange(0, end as int)),
        decreases end,
    {
        proof {
            let cur = s@.subrange(0, end as int);
            assert(cur.last() == s@[end - 1]);
            assert(cur.drop_last() =~= s@.subrange(0, end - 1));
        }
        end -= 1;
    }
    proof {
        let cur = s@.subrange(0, end as int);
        if end > 0 {
            assert(cur.last() == s@[end - 1]);
        }
        assert(spec_strip_trailing_dots(cur) == cur);
    }
    s.substring_char(0, end).to_owned()
}

/// An occurrence of `q` inside a suffix of `s` is an occurrence in `s`.
pub proof fn lemma_occurs_in_suffix(s: Seq<char>, q: Seq<char>, d: int, i: int)
    requires
        0 <= d <= s.len(),
        contains_at(s.skip(d), q, i),
    ensures
        contains_at(s, q, d + i),
{
    assert(s.subrange(d + i, d + i + q.len() as int) =~= s.skip(d).subrange(
        i,
        i + q.len() as int,
    ));
}

/// A string free of a substring of `outer` is free of `outer` itself.
pub proof fn lemma_superstring_free(s: Seq<char>, outer: Seq<char>, inner: Seq<char>, d: int)
    requires
        0 <= d,
        d + inner.len() <= outer.len(),
        outer.subrange(d, d + inner.len() as int) == inner,
        !occurs(s, inner),
    ensures
        !occurs(s, outer),
{
    assert forall|i: int| !contains_at(s, outer, i) by {
        if contains_at(s, outer, i) {
            assert(s.subrange(i + d, i + d + inner.len() as int) =~= outer.subrange(
                d,
                d + inner.len() as int,
            ));
            assert(contains_at(s, inner, i + d));
        }
    }
}

/// If a suffix of `q` is a prefix of the replacement result, it already was a
/// prefix of the original text, provided the replacement string is non-empty,
/// avoids the first and last character of `q`, and does not occur in `q`.
proof fn lemma_prefix_reflect(s: Seq<char>, p: Seq<char>, rep: Seq<char>, q: Seq<char>, k: int)
    requires
        rep.len() > 0,
        q.len() > 0,
        !rep.contains(q.first()),
        !rep.contains(q.last()),
        !occurs(q, rep),
        0 <= k <= q.len(),
        is_prefix(q.skip(k), spec_replace_all(s, p, rep)),
    ensures
        is_prefix(q.skip(k), s),
    decreases s.len(),
{
    let r = spec_replace_all(s, p, rep);
    let qk = q.skip(k);
    if qk.len() == 0 {
        assert(s.subrange(0, 0) =~= qk);
    } else if p.len() == 0 || s.len() < p.len() {
        // here the result is the text itself
    } else if is_prefix(p, s) {
        // the result is rep followed by the rest; a suffix of q cannot start there
        if qk.len() <= rep.len() {
            assert(qk.last() == (rep + spec_replace_all(s.skip(p.len() as int), p, rep))[qk.len()
                - 1]);
            assert(qk.last() == rep[qk.len() - 1]);
            assert(rep.contains(rep[qk.len() - 1]));
            assert(qk.last() == q.last());
        } else {
            assert(qk.subrange(0, rep.len() as int) =~= rep);
            assert(q.subrange(k, k + rep.len() as int) =~= qk.subrange(0, rep.len() as int));
            assert(contains_at(q, rep, k));
        }
    } else {
        let x = spec_replace_all(s.skip(1), p, rep);
        assert(r == seq![s[0]] + x);
        assert(qk == r.subrange(0, qk.len() as int));
        assert(qk[0] == r[0]);
        assert forall|j: int| 0 <= j < qk.len() - 1 implies q.skip(k + 1)[j] == x[j] by {
            assert(q.skip(k + 1)[j] == qk[j + 1]);
            assert(qk[j + 1] == r[j + 1]);
            assert(r[j + 1] == x[j]);
        }
        assert(q.skip(k + 1) =~= x.subrange(0, qk.len() - 1));
        assert(is_prefix(q.skip(k + 1), x));
        lemma_prefix_reflect(s.skip(1), p, rep, q, k + 1);
        assert(s.subrange(0, qk.len() as int) =~= seq![s[0]] + s.skip(1).subrange(
            0,
            qk.len() - 1,
        ));
        assert(s.subrange(0, qk.len() as int) =~= qk);
    }
}

/// Replacing `p` by `rep` leaves the result free of the marker `q`: either
/// `p` is `q` itself (the pass that removes it), or the text was already free
/// of `q`. `rep` must be non-empty, avoid the first and last character of
/// `q`, and not occur in `q`.
pub proof fn lemma_replace_freedom(s: Seq<char>, p: Seq<char>, rep: Seq<char>, q: Seq<char>)
    requires
        p.len() > 0,
        rep.len() > 0,
        q.len() > 0,
        !rep.contains(q.first()),
        !rep.contains(q.last()),
        !occurs(q, rep),
        p == q || !occurs(s, q),
    ensures
        !occurs(spec_replace_all(s, p, rep), q),
    decreases s.len(),
{
    let r = spec_replace_all(s, p, rep);
    if s.len() < p.len() {
        assert forall|i: int| !contains_at(r, q, i) by {
            if contains_at(r, q, i) && p != q {
                assert(contains_at(s, q, i));
            }
        }
    } else if is_prefix(p, s) {
        let s2 = s.skip(p.len() as int);
        if p != q {
            assert forall|i: int| !contains_at(s2, q, i) by {
                if contains_at(s2, q, i) {
                    lemma_occurs_in_suffix(s, q, p.len() as int, i);
                }
            }
        }
        lemma_replace_freedom(s2, p, rep, q);
        let x = spec_replace_all(s2, p, rep);
        assert forall|i: int| !contains_at(r, q, i) by {
            if contains_at(r, q, i) {
                if i < rep.len() {
                    assert(q.first() == r.subrange(i, i + q.len() as int).first());
                    assert(q.first() == rep[i]);
                    assert(rep.contains(rep[i]));
                } else {
                    assert(x.subrange(i - rep.len(), i - rep.len() + q.len() as int)
                        =~= r.subrange(i, i + q.len() as int));
                    assert(contains_at(x, q, i - rep.len()));
                }
            }
        }
    } else {
        let s1 = s.skip(1);
        if p != q {
            assert forall|i: int| !contains_at(s1, q, i) by {
                if contains_at(s1, q, i) {
                    lemma_occurs_in_suffix(s, q, 1, i);
                }
            }
        }
        lemma_replace_freedom(s1, p, rep, q);
        let x = spec_replace_all(s1, p, rep);
        assert forall|i: int| !contains_at(r, q, i) by {
            if contains_at(r, q, i) {
                if i == 0 {
                    assert(q =~= r.subrange(0, q.len() as int));
                    assert(q.skip(1) =~= r.subrange(1, q.len() as int));
                    assert(r.subrange(1, q.len() as int) =~= x.subrange(0, q.len() - 1));
                    assert(is_prefix(q.skip(1), x));
                    lemma_prefix_reflect(s1, p, rep, q, 1);
                    assert(s.subrange(0, q.len() as int) =~= seq![s[0]] + s1.subrange(
                        0,
                        q.len() - 1,
                    ));
                    assert(q[0] == r[0]);
                    assert(s.subrange(0, q.len() as int) =~= q);
                    if p == q {
                        assert(is_prefix(p, s));
                    } else {
                        assert(contains_at(s, q, 0));
                    }
                } else {
                    assert(x.subrange(i - 1, i - 1 + q.len() as int) =~= r.subrange(
                        i,
                        i + q.len() as int,
                    ));
                    assert(contains_at(x, q, i - 1));
                }
            }
        }
    }
}

/// Up to the first `'\n'`, a string equals its prefix before that break.
proof fn lemma_before_newline_prefix(s: Seq<char>, j: int)
    requires
        0 <= j <= s.len(),
        forall|k: int| 0 <= k < j ==> s[k] != '\n',
        j < s.len() ==> s[j] == '\n',
    ensures
        spec_before_newline(s) == s.subrange(0, j),
    decreases s.len(),
{
    if s.len() == 0 {
        assert(s.subrange(0, 0) =~= s);
    } else if s[0] == '\n' {
        assert(s.subrange(0, 0) =~= Seq::<char>::empty());
    } else {
        lemma_before_newline_prefix(s.drop_first(), j - 1);
        assert(s.drop_first().subrange(0, j - 1) =~= s.subrange(1, j));
        assert(seq![s[0]] + s.subrange(1, j) =~= s.subrange(0, j));
    }
}

} // verus!
