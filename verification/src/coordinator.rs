//! The mutation coordinator: applies create, update and delete mutations to
//! the rule cache, strictly after the corresponding store operation has
//! committed. The store itself is an external collaborator; each step takes
//! the store's answers as arguments, and every failure path leaves the
//! cache exactly as it was.

use vstd::prelude::*;
use crate::cache::{RuleCache, cache_removed, cache_upserted, entry_for, has_key};
use crate::models::{CreateLinkRequest, Link, LinkModel, UpdateLinkRequest};
use crate::text::str_eq;

verus! {

/// Why a mutation was refused: a duplicate (host, source) key, an unknown
/// rule id, or a store failure.
#[derive(Clone, Copy, PartialEq, Eq, Structural, Debug)]
pub enum MutationError {
    Conflict,
    NotFound,
    Persistence,
}

/// The rule a partial update produces: a patch field that is present
/// replaces the current value, an absent one keeps it; id and creation time
/// are never patched.
pub open spec fn spec_merge(ex: LinkModel, patch: UpdateLinkRequest) -> LinkModel {
    LinkModel {
        id: ex.id,
        host: match patch.host {
            Some(h) => h@,
            None => ex.host,
        },
        source: match patch.source {
            Some(s) => s@,
            None => ex.source,
        },
        target: match patch.target {
            Some(t) => t@,
            None => ex.target,
        },
        created_at: ex.created_at,
    }
}

/// The merged rule sits under a different (host, source) key than the
/// current one, so the uniqueness check must be re-run.
pub open spec fn spec_key_changed(ex: LinkModel, merged: LinkModel) -> bool {
    !(merged.host == ex.host && merged.source == ex.source)
}

/// How a successful update changes the cache contents: the merged rule now
/// sits under its key, the old key (when different) is gone, and every
/// other key is untouched.
pub open spec fn cache_updated(
    pre: Seq<LinkModel>,
    post: Seq<LinkModel>,
    old_l: LinkModel,
    new_l: LinkModel,
) -> bool {
    &&& has_key(post, new_l.host, new_l.source)
    &&& entry_for(post, new_l.host, new_l.source) == new_l
    &&& !(old_l.host == new_l.host && old_l.source == new_l.source) ==> !has_key(
        post,
        old_l.host,
        old_l.source,
    )
    &&& forall|h: Seq<char>, p: Seq<char>|
        !(h == old_l.host && p == old_l.source) && !(h == new_l.host && p == new_l.source)
            ==> #[trigger] has_key(post, h, p) == has_key(pre, h, p)
    &&& forall|h: Seq<char>, p: Seq<char>|
        !(h == old_l.host && p == old_l.source) && !(h == new_l.host && p == new_l.source)
            && has_key(pre, h, p) ==> #[trigger] entry_for(post, h, p) == entry_for(pre, h, p)
}

/// Applies a partial update over the current rule.
pub fn merge_patch(existing: &Link, patch: &UpdateLinkRequest) -> (merged: Link)
    ensures
        merged@ == spec_merge(existing@, *patch),
{
    let host = match &patch.host {
        Some(h) => h.clone(),
        None => existing.host.clone(),
    };
    let source = match &patch.source {
        Some(s) => s.clone(),
        None => existing.source.clone(),
    };
    let target = match &patch.target {
        Some(t) => t.clone(),
        None => existing.target.clone(),
    };
    Link { id: existing.id, host, source, target, created_at: existing.created_at }
}

/// Whether a patched rule moved to a new (host, source) key.
pub fn update_changes_key(existing: &Link, merged: &Link) -> (r: bool)
    ensures
        r == spec_key_changed(existing@, merged@),
{
    !(str_eq(merged.host.as_str(), existing.host.as_str()) && str_eq(
        merged.source.as_str(),
        existing.source.as_str(),
    ))
}

/// One create mutation, given the store's answers: `has_conflict` is the
/// store's conflict predicate for (request.host, request.source), checked
/// before any write; `persisted` is the stored rule when the insert
/// committed, `None` when the store failed. The cache is touched only when
/// the store committed, and is left as it was on every failure.
pub fn create_step(
    cache: &mut RuleCache,
    request: &CreateLinkRequest,
    has_conflict: bool,
    persisted: Option<Link>,
) -> (r: Result<Link, MutationError>)
    requires
        old(cache).wf(),
        persisted matches Some(l) ==> l@.host == request.host@ && l@.source == request.source@,
    ensures
        final(cache).wf(),
        has_conflict ==> (r matches Err(e) && e == MutationError::Conflict && final(cache)@ == old(
            cache,
        )@),
        !has_conflict && persisted is None ==> (r matches Err(e) && e
            == MutationError::Persistence && final(cache)@ == old(cache)@),
        persisted matches Some(l) ==> (!has_conflict ==> ((r matches Ok(rl) && rl@ == l@)
            && cache_upserted(old(cache)@, final(cache)@, l@))),
{
    if has_conflict {
        return Err(MutationError::Conflict);
    }
    match persisted {
        None => Err(MutationError::Persistence),
        Some(link) => {
            let out = link.clone();
            cache.insert(link);
            Ok(out)
        },
    }
}

/// One update mutation, given the store's answers: `existing` is the rule
/// the store holds under the requested id (`None` when unknown),
/// `has_conflict` the store's conflict predicate for the merged key
/// excluding this id, and `persist_ok` whether the update committed. On
/// success the cache entry moves from the old key to the merged rule's key;
/// on every failure the cache is left as it was.
pub fn update_step(
    cache: &mut RuleCache,
    existing: Option<Link>,
    patch: &UpdateLinkRequest,
    has_conflict: bool,
    persist_ok: bool,
) -> (r: Result<Link, MutationError>)
    requires
        old(cache).wf(),
    ensures
        final(cache).wf(),
        existing is None ==> (r matches Err(e) && e == MutationError::NotFound && final(cache)@
            == old(cache)@),
        existing matches Some(ex) ==> ({
            let m = spec_merge(ex@, *patch);
            &&& spec_key_changed(ex@, m) && has_conflict ==> (r matches Err(e) && e
                == MutationError::Conflict && final(cache)@ == old(cache)@)
            &&& !(spec_key_changed(ex@, m) && has_conflict) && !persist_ok ==> (r matches Err(e)
                && e == MutationError::Persistence && final(cache)@ == old(cache)@)
            &&& !(spec_key_changed(ex@, m) && has_conflict) && persist_ok ==> ((r matches Ok(rm)
                && rm@ == m) && cache_updated(old(cache)@, final(cache)@, ex@, m))
        }),
{
    let ex = match existing {
        Some(ex) => ex,
        None => {
            return Err(MutationError::NotFound);
        },
    };
    let merged = merge_patch(&ex, patch);
    if update_changes_key(&ex, &merged) && has_conflict {
        return Err(MutationError::Conflict);
    }
    if !persist_ok {
        return Err(MutationError::Persistence);
    }
    let out = merged.clone();
    let ghost pre = cache@;
    cache.remove(ex.host.as_str(), ex.source.as_str());
    let ghost mid = cache@;
    let ghost new_l = merged@;
    let ghost old_l = ex@;
    cache.insert(merged);
    proof {
        assert(cache_removed(pre, mid, old_l.host, old_l.source));
        assert(cache_upserted(mid, cache@, new_l));
        if !(old_l.host == new_l.host && old_l.source == new_l.source) {
            assert(has_key(cache@, old_l.host, old_l.source) == has_key(
                mid,
                old_l.host,
                old_l.source,
            ));
        }
        assert forall|h: Seq<char>, p: Seq<char>|
            !(h == old_l.host && p == old_l.source) && !(h == new_l.host && p == new_l.source)
            implies #[trigger] has_key(cache@, h, p) == has_key(pre, h, p) by {
            assert(has_key(cache@, h, p) == has_key(mid, h, p));
            assert(has_key(mid, h, p) == has_key(pre, h, p));
        }
        assert forall|h: Seq<char>, p: Seq<char>|
            !(h == old_l.host && p == old_l.source) && !(h == new_l.host && p == new_l.source)
                && has_key(pre, h, p) implies #[trigger] entry_for(cache@, h, p) == entry_for(
            pre,
            h,
            p,
        ) by {
            assert(has_key(mid, h, p) == has_key(pre, h, p));
            assert(entry_for(mid, h, p) == entry_for(pre, h, p));
            assert(entry_for(cache@, h, p) == entry_for(mid, h, p));
        }
    }
    Ok(out)
}

/// One delete mutation, given the store's answers: `existing` is the rule
/// fetched for the id to learn its cache key (`None` when unknown), and
/// `deleted` the store's reply to the delete — `None` when the store
/// failed, `Some(false)` when the row was already gone. The cache entry is
/// removed only when the store committed the deletion.
pub fn delete_step(cache: &mut RuleCache, existing: Option<Link>, deleted: Option<bool>) -> (r:
    Result<(), MutationError>)
    requires
        old(cache).wf(),
    ensures
        final(cache).wf(),
        existing is None ==> (r matches Err(e) && e == MutationError::NotFound && final(cache)@
            == old(cache)@),
        existing is Some && deleted is None ==> (r matches Err(e) && e
            == MutationError::Persistence && final(cache)@ == old(cache)@),
        existing is Some && deleted == Some(false) ==> (r matches Err(e) && e
            == MutationError::NotFound && final(cache)@ == old(cache)@),
        existing matches Some(l) ==> (deleted == Some(true) ==> (r is Ok && cache_removed(
            old(cache)@,
            final(cache)@,
            l@.host,
            l@.source,
        ))),
{
    let l = match existing {
        Some(l) => l,
        None => {
            return Err(MutationError::NotFound);
        },
    };
    match deleted {
        None => Err(MutationError::Persistence),
        Some(false) => Err(MutationError::NotFound),
        Some(true) => {
            cache.remove(l.host.as_str(), l.source.as_str());
            Ok(())
        },
    }
}

} // verus!
