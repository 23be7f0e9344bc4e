//! Laws relating the resolver to the cache and to the mutation coordinator,
//! stated over the same models their contracts use.

use vstd::prelude::*;
use crate::cache::{cache_removed, entry_for, has_key, lemma_entry_at, unique_keys};
use crate::coordinator::cache_updated;
use crate::models::LinkModel;
use crate::redirector::{
    admin_prefill, best_param_match, last_separator, lemma_best_param_match, spec_resolve,
    suffix_match, OutcomeModel,
};

verus! {

/// Exact match takes precedence: when the cache holds an entry whose source
/// pattern equals the request path verbatim, resolution reports that
/// entry's target, whatever parameterized or ancestor rules would also
/// match.
pub proof fn lemma_exact_match_precedence(
    s: Seq<LinkModel>,
    host: Seq<char>,
    path: Seq<char>,
    admin_host: Seq<char>,
    i: int,
)
    requires
        unique_keys(s),
        0 <= i < s.len(),
        s[i].host == host,
        s[i].source == path,
    ensures
        spec_resolve(s, host, path, admin_host) == OutcomeModel::ExactRedirect(s[i].target),
{
    lemma_entry_at(s, host, path, i);
}

/// No entry of `s` carries host `host`.
pub open spec fn no_host_entries(s: Seq<LinkModel>, host: Seq<char>) -> bool {
    forall|i: int| 0 <= i < s.len() ==> (#[trigger] s[i]).host != host
}

proof fn lemma_no_host_no_key(s: Seq<LinkModel>, host: Seq<char>, path: Seq<char>)
    requires
        no_host_entries(s, host),
    ensures
        !has_key(s, host, path),
{
    if has_key(s, host, path) {
        let i = choose|i: int|
            0 <= i < s.len() && crate::cache::matches_key(s[i], host, path);
        assert(s[i].host != host);
    }
}

proof fn lemma_no_host_no_suffix(s: Seq<LinkModel>, host: Seq<char>, cand: Seq<char>)
    requires
        no_host_entries(s, host),
    ensures
        suffix_match(s, host, cand) is None,
    decreases cand.len(),
{
    if cand.len() == 0 {
    } else {
        lemma_no_host_no_key(s, host, cand);
        let ls = last_separator(cand);
        if 0 <= ls < cand.len() {
            lemma_no_host_no_suffix(s, host, cand.take(ls));
        }
    }
}

/// No-match fallback: a host with no rules resolves every path to `NoMatch`
/// carrying the prefilled registration URL for the original, untruncated
/// path.
pub proof fn lemma_unregistered_host_no_match(
    s: Seq<LinkModel>,
    host: Seq<char>,
    path: Seq<char>,
    admin_host: Seq<char>,
)
    requires
        no_host_entries(s, host),
    ensures
        spec_resolve(s, host, path, admin_host) == OutcomeModel::NoMatch(
            admin_prefill(admin_host, path),
        ),
{
    lemma_no_host_no_key(s, host, path);
    match best_param_match(s, host, path) {
        Some(l) => {
            lemma_best_param_match(s, host, path);
            let i = choose|i: int|
                0 <= i < s.len() && s[i] == l && l.host == host
                    && crate::redirector::spec_is_parameterized_match(l.source, path);
            assert(s[i].host != host);
        },
        None => {},
    }
    lemma_no_host_no_suffix(s, host, path);
}

/// Update consistency: a successful update moves the rule to its merged
/// key, so resolving the merged source pattern on its host reports the
/// updated target, and the old key, when different, no longer has an exact
/// entry — resolving the old path can only fall through to parameterized or
/// suffix rules, or to `NoMatch`.
pub proof fn lemma_update_consistency(
    pre: Seq<LinkModel>,
    post: Seq<LinkModel>,
    old_l: LinkModel,
    new_l: LinkModel,
    admin_host: Seq<char>,
)
    requires
        cache_updated(pre, post, old_l, new_l),
    ensures
        spec_resolve(post, new_l.host, new_l.source, admin_host) == OutcomeModel::ExactRedirect(
            new_l.target,
        ),
        !(old_l.host == new_l.host && old_l.source == new_l.source) ==> !has_key(
            post,
            old_l.host,
            old_l.source,
        ),
{
}

/// Delete consistency: once the rule's key is gone from the cache and no
/// parameterized or ancestor rule of the host catches its former source
/// pattern, resolving that path reports `NoMatch` with the prefilled
/// registration URL.
pub proof fn lemma_delete_consistency(
    pre: Seq<LinkModel>,
    post: Seq<LinkModel>,
    host: Seq<char>,
    source: Seq<char>,
    admin_host: Seq<char>,
)
    requires
        cache_removed(pre, post, host, source),
        best_param_match(post, host, source) is None,
        suffix_match(post, host, source) is None,
    ensures
        spec_resolve(post, host, source, admin_host) == OutcomeModel::NoMatch(
            admin_prefill(admin_host, source),
        ),
{
}

/// A resolution racing an update never observes a blend of two rules: every
/// key other than the updated rule's old and new keys maps to exactly the
/// entry it mapped to before the update, unchanged in every field.
pub proof fn lemma_update_isolates_other_rules(
    pre: Seq<LinkModel>,
    post: Seq<LinkModel>,
    old_l: LinkModel,
    new_l: LinkModel,
    h: Seq<char>,
    p: Seq<char>,
)
    requires
        cache_updated(pre, post, old_l, new_l),
        !(h == old_l.host && p == old_l.source),
        !(h == new_l.host && p == new_l.source),
    ensures
        has_key(post, h, p) == has_key(pre, h, p),
        has_key(pre, h, p) ==> entry_for(post, h, p) == entry_for(pre, h, p),
{
}

/// Corollary for a racing reader: a path that exactly matches a rule
/// unaffected by an in-flight update resolves to the very same outcome
/// before and after the update commits.
pub proof fn lemma_update_preserves_exact_resolutions(
    pre: Seq<LinkModel>,
    post: Seq<LinkModel>,
    old_l: LinkModel,
    new_l: LinkModel,
    host: Seq<char>,
    path: Seq<char>,
    admin_host: Seq<char>,
)
    requires
        cache_updated(pre, post, old_l, new_l),
        has_key(pre, host, path),
        !(host == old_l.host && path == old_l.source),
        !(host == new_l.host && path == new_l.source),
    ensures
        spec_resolve(post, host, path, admin_host) == spec_resolve(pre, host, path, admin_host),
{
    lemma_update_isolates_other_rules(pre, post, old_l, new_l, host, path);
}

} // verus!
