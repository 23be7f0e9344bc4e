//! The resolver: matches a request (host, path) against the rule cache in
//! three stages — exact key, trailing-parameter pattern, progressive suffix
//! truncation — and otherwise reports a prefilled registration URL.

use vstd::prelude::*;
use crate::cache::{RuleCache, entry_for, has_key};
use crate::encode::url_encoded;
use crate::models::{Link, LinkModel};
use crate::text::{prefix_eq, str_eq};

verus! {

/// Index of the right-most occurrence of `/{` in `s`, or -1 when there is
/// none.
pub open spec fn param_start(s: Seq<char>) -> int
    decreases s.len(),
{
    if s.len() < 2 {
        -1
    } else if s[s.len() - 2] == '/' && s[s.len() - 1] == '{' {
        s.len() - 2
    } else {
        param_start(s.take(s.len() - 1))
    }
}

pub proof fn lemma_param_start_bounds(s: Seq<char>)
    ensures
        -1 <= param_start(s),
        param_start(s) >= 0 ==> param_start(s) + 2 <= s.len() && s[param_start(s)] == '/' && s[
            param_start(s) + 1
        ] == '{',
    decreases s.len(),
{
    if s.len() < 2 {
    } else if s[s.len() - 2] == '/' && s[s.len() - 1] == '{' {
    } else {
        let t = s.take(s.len() - 1);
        lemma_param_start_bounds(t);
        assert(param_start(s) == param_start(t));
        if param_start(t) >= 0 {
            assert(s[param_start(t)] == t[param_start(t)]);
            assert(s[param_start(t) + 1] == t[param_start(t) + 1]);
        }
    }
}

fn find_param_start(pattern: &str) -> (r: Option<usize>)
    ensures
        match r {
            Some(i) => param_start(pattern@) == i as int,
            None => param_start(pattern@) == -1,
        },
{
    let n = pattern.unicode_len();
    let mut i: usize = n;
    proof {
        assert(pattern@.take(n as int) =~= pattern@);
    }
    while i >= 2
        invariant
            n == pattern@.len(),
            i <= n,
            param_start(pattern@) == param_start(pattern@.take(i as int)),
        decreases i,
    {
        proof {
            assert(pattern@.take(i as int)[i - 2] == pattern@[i - 2]);
            assert(pattern@.take(i as int)[i - 1] == pattern@[i - 1]);
        }
        if pattern.get_char(i - 2) == '/' && pattern.get_char(i - 1) == '{' {
            return Some(i - 2);
        }
        proof {
            assert(pattern@.take(i as int).take(i - 1) =~= pattern@.take(i - 1));
        }
        i -= 1;
    }
    None
}

/// The pattern has the form `prefix` + `/{` + name + `}` and the path starts
/// with `prefix` + `/` and is strictly longer than that prefix.
pub open spec fn spec_is_parameterized_match(pattern: Seq<char>, path: Seq<char>) -> bool {
    let i = param_start(pattern);
    &&& 0 <= i
    &&& i + 2 <= pattern.len()
    &&& pattern[pattern.len() - 1] == '}'
    &&& path.len() > i + 1
    &&& path.take(i + 1) == pattern.take(i + 1)
}

/// Whether a rule pattern with a trailing `{name}` segment matches the
/// request path.
pub fn is_parameterized_match(pattern: &str, path: &str) -> (r: bool)
    ensures
        r == spec_is_parameterized_match(pattern@, path@),
{
    match find_param_start(pattern) {
        Some(i) => {
            proof {
                lemma_param_start_bounds(pattern@);
            }
            let plen = pattern.unicode_len();
            if pattern.get_char(plen - 1) != '}' {
                return false;
            }
            let pathlen = path.unicode_len();
            pathlen > i + 1 && prefix_eq(path, pattern, i + 1)
        },
        None => false,
    }
}

/// `t` with every non-overlapping occurrence of `pat`, scanned from the
/// left, replaced by `val`.
pub open spec fn replace_all(t: Seq<char>, pat: Seq<char>, val: Seq<char>) -> Seq<char>
    decreases t.len(),
{
    if pat.len() <= 0 || t.len() < pat.len() {
        t
    } else if t.take(pat.len() as int) == pat {
        val + replace_all(t.skip(pat.len() as int), pat, val)
    } else {
        seq![t[0]] + replace_all(t.skip(1), pat, val)
    }
}

fn match_at(t: &str, pos: usize, pat: &str) -> (r: bool)
    requires
        pos + pat@.len() <= t@.len(),
    ensures
        r == (t@.subrange(pos as int, pos + pat@.len()) == pat@),
{
    let tlen = t.unicode_len();
    let plen = pat.unicode_len();
    let mut k: usize = 0;
    while k < plen
        invariant
            tlen == t@.len(),
            plen == pat@.len(),
            pos + plen <= t@.len(),
            k <= plen,
            forall|j: int| 0 <= j < k ==> t@[pos + j] == pat@[j],
        decreases plen - k,
    {
        if t.get_char(pos + k) != pat.get_char(k) {
            proof {
                assert(t@.subrange(pos as int, pos + plen)[k as int] != pat@[k as int]);
            }
            return false;
        }
        k += 1;
    }
    proof {
        assert(t@.subrange(pos as int, pos + plen) =~= pat@);
    }
    true
}

fn replace_occurrences(t: &str, pat: &str, val: &str) -> (r: String)
    requires
        pat@.len() > 0,
    ensures
        r@ == replace_all(t@, pat@, val@),
{
    let tlen = t.unicode_len();
    let plen = pat.unicode_len();
    let mut out = String::new();
    let mut pos: usize = 0;
    let mut seg: usize = 0;
    proof {
        assert(t@.skip(0) =~= t@);
        assert(out@ + t@.subrange(0, 0) + replace_all(t@.skip(0), pat@, val@) =~= replace_all(
            t@,
            pat@,
            val@,
        ));
    }
    while tlen - pos >= plen
        invariant
            plen == pat@.len(),
            plen > 0,
            tlen == t@.len(),
            seg <= pos <= tlen,
            replace_all(t@, pat@, val@) == out@ + t@.subrange(seg as int, pos as int)
                + replace_all(t@.skip(pos as int), pat@, val@),
        decreases tlen - pos,
    {
        proof {
            assert(t@.skip(pos as int).take(plen as int) =~= t@.subrange(pos as int, pos + plen));
        }
        if match_at(t, pos, pat) {
            let ghost prev = out@;
            let piece = t.substring_char(seg, pos);
            out.append(piece);
            out.append(val);
            proof {
                assert(t@.skip(pos as int).skip(plen as int) =~= t@.skip(pos + plen));
                assert(replace_all(t@.skip(pos as int), pat@, val@) == val@ + replace_all(
                    t@.skip(pos + plen),
                    pat@,
                    val@,
                ));
                assert(out@ =~= prev + t@.subrange(seg as int, pos as int) + val@);
                assert(out@ + t@.subrange(pos + plen, pos + plen) =~= out@);
                assert(replace_all(t@, pat@, val@) == out@ + t@.subrange(pos + plen, pos + plen)
                    + replace_all(t@.skip(pos + plen), pat@, val@));
            }
            pos = pos + plen;
            seg = pos;
        } else {
            proof {
                assert(t@.skip(pos as int)[0] == t@[pos as int]);
                assert(t@.skip(pos as int).skip(1) =~= t@.skip(pos + 1));
                assert(replace_all(t@.skip(pos as int), pat@, val@) == seq![t@[pos as int]]
                    + replace_all(t@.skip(pos + 1), pat@, val@));
                assert(t@.subrange(seg as int, pos as int) + seq![t@[pos as int]] =~= t@.subrange(
                    seg as int,
                    pos + 1,
                ));
                assert(out@ + t@.subrange(seg as int, pos as int) + replace_all(
                    t@.skip(pos as int),
                    pat@,
                    val@,
                ) =~= out@ + t@.subrange(seg as int, pos + 1) + replace_all(
                    t@.skip(pos + 1),
                    pat@,
                    val@,
                ));
            }
            pos = pos + 1;
        }
    }
    let ghost prev = out@;
    let tail = t.substring_char(seg, tlen);
    out.append(tail);
    proof {
        assert(t@.skip(pos as int).len() < plen);
        assert(replace_all(t@.skip(pos as int), pat@, val@) == t@.skip(pos as int));
        assert(prev + t@.subrange(seg as int, pos as int) + t@.skip(pos as int) =~= prev
            + t@.subrange(seg as int, tlen as int));
        assert(out@ =~= prev + t@.subrange(seg as int, tlen as int));
    }
    out
}

/// The substitution a matching parameterized rule performs: every literal
/// occurrence of `{name}` in the target is replaced by the raw path suffix
/// after the pattern's literal prefix; a pattern without a trailing
/// parameter, or one whose prefix the path does not carry, leaves the
/// target unchanged.
pub open spec fn spec_substitute(pattern: Seq<char>, target: Seq<char>, path: Seq<char>) -> Seq<
    char,
> {
    let i = param_start(pattern);
    if 0 <= i && i + 2 <= pattern.len() && pattern[pattern.len() - 1] == '}' && path.len() >= i + 1
        && path.take(i + 1) == pattern.take(i + 1) {
        replace_all(target, pattern.skip(i + 1), path.skip(i + 1))
    } else {
        target
    }
}

/// Rewrites the rule target for a request path: the trailing `{name}`
/// placeholder of the pattern is captured from the path and substituted
/// into the target.
pub fn substitute_parameters(pattern: &str, target: &str, path: &str) -> (r: String)
    ensures
        r@ == spec_substitute(pattern@, target@, path@),
{
    match find_param_start(pattern) {
        Some(i) => {
            proof {
                lemma_param_start_bounds(pattern@);
            }
            let plen = pattern.unicode_len();
            if pattern.get_char(plen - 1) == '}' {
                let pathlen = path.unicode_len();
                if pathlen >= i + 1 && prefix_eq(path, pattern, i + 1) {
                    let placeholder = pattern.substring_char(i + 1, plen);
                    let value = path.substring_char(i + 1, pathlen);
                    proof {
                        assert(placeholder@ =~= pattern@.skip(i + 1));
                        assert(value@ =~= path@.skip(i + 1));
                        assert(placeholder@.len() > 0);
                    }
                    return replace_occurrences(target, placeholder, value);
                }
            }
            String::from_str(target)
        },
        None => String::from_str(target),
    }
}

/// The characters at which progressive suffix truncation cuts the path.
pub open spec fn separator(c: char) -> bool {
    c == '/' || c == '.' || c == '?'
}

/// Index of the right-most separator in `s`, or -1 when there is none.
pub open spec fn last_separator(s: Seq<char>) -> int
    decreases s.len(),
{
    if s.len() == 0 {
        -1
    } else if separator(s.last()) {
        s.len() - 1
    } else {
        last_separator(s.drop_last())
    }
}

fn find_last_separator(s: &str) -> (r: Option<usize>)
    ensures
        match r {
            Some(p) => last_separator(s@) == p as int && p < s@.len(),
            None => last_separator(s@) == -1,
        },
{
    let n = s.unicode_len();
    let mut i: usize = n;
    proof {
        assert(s@.take(n as int) =~= s@);
    }
    while i > 0
        invariant
            n == s@.len(),
            i <= n,
            last_separator(s@) == last_separator(s@.take(i as int)),
        decreases i,
    {
        let c = s.get_char(i - 1);
        proof {
            assert(s@.take(i as int).last() == s@[i - 1]);
        }
        if c == '/' || c == '.' || c == '?' {
            return Some(i - 1);
        }
        proof {
            assert(s@.take(i as int).drop_last() =~= s@.take(i - 1));
        }
        i -= 1;
    }
    None
}

/// The rule found by progressive suffix truncation: the candidate starts as
/// the whole path; while the candidate is a key miss and still has a
/// separator, it is cut at its right-most separator.
pub open spec fn suffix_match(s: Seq<LinkModel>, host: Seq<char>, cand: Seq<char>) -> Option<
    LinkModel,
>
    decreases cand.len(),
{
    if cand.len() == 0 {
        None
    } else if has_key(s, host, cand) {
        Some(entry_for(s, host, cand))
    } else {
        let ls = last_separator(cand);
        if 0 <= ls < cand.len() {
            suffix_match(s, host, cand.take(ls))
        } else {
            None
        }
    }
}

fn suffix_lookup<'a>(cache: &'a RuleCache, host: &str, path: &str) -> (r: Option<&'a Link>)
    requires
        cache.wf(),
    ensures
        match r {
            Some(l) => suffix_match(cache@, host@, path@) == Some(l@),
            None => suffix_match(cache@, host@, path@) is None,
        },
{
    let mut cand: &str = path;
    loop
        invariant
            cache.wf(),
            suffix_match(cache@, host@, path@) == suffix_match(cache@, host@, cand@),
        decreases cand@.len(),
    {
        if cand.unicode_len() == 0 {
            return None;
        }
        match cache.lookup(host, cand) {
            Some(l) => {
                return Some(l);
            },
            None => {},
        }
        match find_last_separator(cand) {
            Some(p) => {
                proof {
                    assert(cand@.take(p as int) =~= cand@.subrange(0, p as int));
                }
                cand = cand.substring_char(0, p);
            },
            None => {
                return None;
            },
        }
    }
}

/// The deterministic tie-break among parameterized rules: a longer literal
/// prefix wins, equal prefixes go to the lower rule id.
pub open spec fn better_param_match(a: LinkModel, b: LinkModel) -> bool {
    ||| param_start(a.source) > param_start(b.source)
    ||| (param_start(a.source) == param_start(b.source) && a.id < b.id)
}

/// The parameterized rule the resolver picks for (`host`, `path`): among the
/// entries of `s` whose host matches and whose pattern matches the path,
/// the one with the longest literal prefix, ties broken by the lowest id.
pub open spec fn best_param_match(s: Seq<LinkModel>, host: Seq<char>, path: Seq<char>) -> Option<
    LinkModel,
>
    decreases s.len(),
{
    if s.len() == 0 {
        None
    } else {
        let rest = best_param_match(s.drop_last(), host, path);
        let l = s.last();
        if l.host == host && spec_is_parameterized_match(l.source, path) {
            match rest {
                None => Some(l),
                Some(b) => if better_param_match(l, b) {
                    Some(l)
                } else {
                    Some(b)
                },
            }
        } else {
            rest
        }
    }
}

/// The rule `best_param_match` picks is a matching entry, and no matching
/// entry beats it under the tie-break; when it picks none, no entry matches.
pub proof fn lemma_best_param_match(s: Seq<LinkModel>, host: Seq<char>, path: Seq<char>)
    ensures
        best_param_match(s, host, path) matches Some(l) ==> exists|i: int|
            0 <= i < s.len() && s[i] == l && l.host == host && spec_is_parameterized_match(
                l.source,
                path,
            ),
        best_param_match(s, host, path) matches Some(l) ==> forall|i: int|
            0 <= i < s.len() && (#[trigger] s[i]).host == host && spec_is_parameterized_match(
                s[i].source,
                path,
            ) ==> !better_param_match(s[i], l),
        best_param_match(s, host, path) is None ==> forall|i: int|
            0 <= i < s.len() ==> !((#[trigger] s[i]).host == host && spec_is_parameterized_match(
                s[i].source,
                path,
            )),
    decreases s.len(),
{
    if s.len() == 0 {
    } else {
        lemma_best_param_match(s.drop_last(), host, path);
        assert forall|i: int| 0 <= i < s.len() - 1 implies s.drop_last()[i] == s[i] by {}
    }
}

fn best_param_index(cache: &RuleCache, host: &str, path: &str) -> (r: Option<usize>)
    ensures
        match r {
            Some(i) => i < cache@.len() && best_param_match(cache@, host@, path@) == Some(
                cache@[i as int],
            ),
            None => best_param_match(cache@, host@, path@) is None,
        },
{
    let n = cache.len();
    let mut best: Option<usize> = None;
    let mut best_ps: usize = 0;
    let mut i: usize = 0;
    proof {
        assert(cache@.take(0) =~= Seq::<LinkModel>::empty());
    }
    while i < n
        invariant
            n == cache@.len(),
            i <= n,
            match best {
                Some(b) => b < i && best_param_match(cache@.take(i as int), host@, path@) == Some(
                    cache@[b as int],
                ) && best_ps as int == param_start(cache@[b as int].source),
                None => best_param_match(cache@.take(i as int), host@, path@) is None,
            },
        decreases n - i,
    {
        let l = cache.get(i);
        proof {
            assert(cache@.take(i + 1).drop_last() =~= cache@.take(i as int));
            assert(cache@.take(i + 1).last() == cache@[i as int]);
        }
        if str_eq(l.host.as_str(), host) {
            match find_param_start(l.source.as_str()) {
                Some(ps) => {
                    if is_parameterized_match(l.source.as_str(), path) {
                        match best {
                            None => {
                                best = Some(i);
                                best_ps = ps;
                            },
                            Some(b) => {
                                let bl = cache.get(b);
                                if ps > best_ps || (ps == best_ps && l.id < bl.id) {
                                    best = Some(i);
                                    best_ps = ps;
                                }
                            },
                        }
                    }
                },
                None => {},
            }
        }
        i += 1;
    }
    proof {
        assert(cache@.take(n as int) =~= cache@);
    }
    best
}

/// What a resolution reports: a rule matched exactly or through its trailing
/// parameter, an ancestor rule matched after suffix truncation, or nothing
/// matched and the caller is sent to a prefilled registration form.
pub enum Outcome {
    ExactRedirect(String),
    SuffixRedirect(String),
    NoMatch(String),
}

/// Mathematical model of an `Outcome`.
pub ghost enum OutcomeModel {
    ExactRedirect(Seq<char>),
    SuffixRedirect(Seq<char>),
    NoMatch(Seq<char>),
}

impl View for Outcome {
    type V = OutcomeModel;

    open spec fn view(&self) -> OutcomeModel {
        match self {
            Outcome::ExactRedirect(t) => OutcomeModel::ExactRedirect(t@),
            Outcome::SuffixRedirect(t) => OutcomeModel::SuffixRedirect(t@),
            Outcome::NoMatch(u) => OutcomeModel::NoMatch(u@),
        }
    }
}

/// The prefill URL reported when nothing matches: the administrative "add
/// rule" form with the original path percent-encoded as the source value.
pub open spec fn admin_prefill(admin_host: Seq<char>, path: Seq<char>) -> Seq<char> {
    "http://"@ + admin_host + ":3000/add?source="@ + url_encoded(path)
}

fn build_prefill(admin_host: &str, path: &str) -> (r: String)
    ensures
        r@ == admin_prefill(admin_host@, path@),
{
    let mut u = String::from_str("http://");
    u.append(admin_host);
    u.append(":3000/add?source=");
    let enc = crate::encode::url_encode(path);
    u.append(enc.as_str());
    proof {
        assert(u@ =~= admin_prefill(admin_host@, path@));
    }
    u
}

/// The outcome of resolving (`host`, `path`) against the cache contents
/// `s`, in strict order: exact key match, best parameterized match with
/// substitution, progressive suffix match, and otherwise no match with a
/// prefilled registration URL on `admin_host`.
pub open spec fn spec_resolve(
    s: Seq<LinkModel>,
    host: Seq<char>,
    path: Seq<char>,
    admin_host: Seq<char>,
) -> OutcomeModel {
    if has_key(s, host, path) {
        OutcomeModel::ExactRedirect(entry_for(s, host, path).target)
    } else {
        match best_param_match(s, host, path) {
            Some(l) => OutcomeModel::ExactRedirect(spec_substitute(l.source, l.target, path)),
            None => match suffix_match(s, host, path) {
                Some(l) => OutcomeModel::SuffixRedirect(l.target),
                None => OutcomeModel::NoMatch(admin_prefill(admin_host, path)),
            },
        }
    }
}

/// Maps a request (host, path) to one of the three outcomes; never fails and
/// never mutates the cache.
pub fn resolve(cache: &RuleCache, host: &str, path: &str, admin_host: &str) -> (r: Outcome)
    requires
        cache.wf(),
    ensures
        r@ == spec_resolve(cache@, host@, path@, admin_host@),
{
    match cache.lookup(host, path) {
        Some(l) => {
            return Outcome::ExactRedirect(l.target.clone());
        },
        None => {},
    }
    match best_param_index(cache, host, path) {
        Some(i) => {
            let l = cache.get(i);
            return Outcome::ExactRedirect(
                substitute_parameters(l.source.as_str(), l.target.as_str(), path),
            );
        },
        None => {},
    }
    match suffix_lookup(cache, host, path) {
        Some(l) => Outcome::SuffixRedirect(l.target.clone()),
        None => Outcome::NoMatch(build_prefill(admin_host, path)),
    }
}

/// The target produced by the two fallback stages alone: the best
/// parameterized match (substituted), else the progressive suffix match.
pub open spec fn spec_find_matching(s: Seq<LinkModel>, host: Seq<char>, path: Seq<char>) -> Option<
    Seq<char>,
> {
    match best_param_match(s, host, path) {
        Some(l) => Some(spec_substitute(l.source, l.target, path)),
        None => match suffix_match(s, host, path) {
            Some(l) => Some(l.target),
            None => None,
        },
    }
}

/// Scans the cache for a parameterized match and falls back to progressive
/// suffix truncation; the first truncation step looks up the full path, so
/// an exact key also matches here.
pub fn find_matching_rule(cache: &RuleCache, host: &str, path: &str) -> (r: Option<String>)
    requires
        cache.wf(),
    ensures
        match r {
            Some(t) => spec_find_matching(cache@, host@, path@) == Some(t@),
            None => spec_find_matching(cache@, host@, path@) is None,
        },
{
    match best_param_index(cache, host, path) {
        Some(i) => {
            let l = cache.get(i);
            return Some(substitute_parameters(l.source.as_str(), l.target.as_str(), path));
        },
        None => {},
    }
    match suffix_lookup(cache, host, path) {
        Some(l) => Some(l.target.clone()),
        None => None,
    }
}

} // verus!
