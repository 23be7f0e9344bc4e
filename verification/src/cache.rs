//! The rule cache: an in-process mapping from (host, source pattern) to a
//! redirect rule, the sole data source of the resolver. It is rebuilt from
//! the durable store at startup and mutated only after a store operation
//! has committed.

use vstd::prelude::*;
use crate::models::{Link, LinkModel};
use crate::text::str_eq;

verus! {

/// Entry `l` carries the cache key (`host`, `source`).
pub open spec fn matches_key(l: LinkModel, host: Seq<char>, source: Seq<char>) -> bool {
    l.host == host && l.source == source
}

/// Some entry of `s` carries the key (`host`, `source`).
pub open spec fn has_key(s: Seq<LinkModel>, host: Seq<char>, source: Seq<char>) -> bool {
    exists|i: int| 0 <= i < s.len() && matches_key(s[i], host, source)
}

/// The entry of `s` carrying the key (`host`, `source`); determined when
/// `has_key` holds and the keys of `s` are unique.
pub open spec fn entry_for(s: Seq<LinkModel>, host: Seq<char>, source: Seq<char>) -> LinkModel {
    s[choose|i: int| 0 <= i < s.len() && matches_key(s[i], host, source)]
}

/// No two entries of `s` share a (host, source) key.
pub open spec fn unique_keys(s: Seq<LinkModel>) -> bool {
    forall|i: int, j: int|
        0 <= i < j < s.len() ==> !matches_key(#[trigger] s[j], (#[trigger] s[i]).host, s[i].source)
}

/// Under unique keys, an entry that carries a key is the entry `entry_for`
/// picks for that key.
pub proof fn lemma_entry_at(s: Seq<LinkModel>, host: Seq<char>, source: Seq<char>, i: int)
    requires
        unique_keys(s),
        0 <= i < s.len(),
        matches_key(s[i], host, source),
    ensures
        has_key(s, host, source),
        entry_for(s, host, source) == s[i],
{
    assert(has_key(s, host, source));
    let j = choose|j: int| 0 <= j < s.len() && matches_key(s[j], host, source);
    if i < j {
        assert(!matches_key(s[j], s[i].host, s[i].source));
        assert(false);
    }
    if j < i {
        assert(!matches_key(s[i], s[j].host, s[j].source));
        assert(false);
    }
}

/// How an insertion changes the cache contents: the key of `l` now maps to
/// `l`, and every other key is untouched.
pub open spec fn cache_upserted(pre: Seq<LinkModel>, post: Seq<LinkModel>, l: LinkModel) -> bool {
    &&& has_key(post, l.host, l.source)
    &&& entry_for(post, l.host, l.source) == l
    &&& forall|h: Seq<char>, p: Seq<char>|
        !(h == l.host && p == l.source) ==> #[trigger] has_key(post, h, p) == has_key(pre, h, p)
    &&& forall|h: Seq<char>, p: Seq<char>|
        !(h == l.host && p == l.source) && has_key(pre, h, p) ==> #[trigger] entry_for(
            post,
            h,
            p,
        ) == entry_for(pre, h, p)
}

/// How a removal changes the cache contents: the key (`host`, `source`) is
/// gone, and every other key is untouched.
pub open spec fn cache_removed(
    pre: Seq<LinkModel>,
    post: Seq<LinkModel>,
    host: Seq<char>,
    source: Seq<char>,
) -> bool {
    &&& !has_key(post, host, source)
    &&& forall|h: Seq<char>, p: Seq<char>|
        !(h == host && p == source) ==> #[trigger] has_key(post, h, p) == has_key(pre, h, p)
    &&& forall|h: Seq<char>, p: Seq<char>|
        !(h == host && p == source) && has_key(pre, h, p) ==> #[trigger] entry_for(post, h, p)
            == entry_for(pre, h, p)
}

/// All entries of `s` whose host is `host`, in entry order.
pub open spec fn entries_for_host(s: Seq<LinkModel>, host: Seq<char>) -> Seq<LinkModel>
    decreases s.len(),
{
    if s.len() == 0 {
        Seq::empty()
    } else if s.last().host == host {
        entries_for_host(s.drop_last(), host).push(s.last())
    } else {
        entries_for_host(s.drop_last(), host)
    }
}

/// In-process mapping from (host, source pattern) to rule. The embedding
/// process guards it with a reader/writer lock: resolutions share read
/// access, mutations take brief exclusive access after the store committed.
pub struct RuleCache {
    entries: Vec<Link>,
}

impl View for RuleCache {
    type V = Seq<LinkModel>;

    closed spec fn view(&self) -> Seq<LinkModel> {
        Seq::new(self.entries@.len(), |i: int| self.entries@[i]@)
    }
}

proof fn lemma_removed_at(pre: Seq<LinkModel>, post: Seq<LinkModel>, i: int)
    requires
        unique_keys(pre),
        0 <= i < pre.len(),
        post.len() == pre.len() - 1,
        forall|j: int| 0 <= j < i ==> post[j] == pre[j],
        forall|j: int| i <= j < post.len() ==> post[j] == pre[j + 1],
    ensures
        unique_keys(post),
        cache_removed(pre, post, pre[i].host, pre[i].source),
{
    assert forall|a: int, b: int| 0 <= a < b < post.len() implies !matches_key(
        post[b],
        post[a].host,
        post[a].source,
    ) by {
        let a2 = if a < i { a } else { a + 1 };
        let b2 = if b < i { b } else { b + 1 };
        assert(post[a] == pre[a2]);
        assert(post[b] == pre[b2]);
        assert(!matches_key(pre[b2], pre[a2].host, pre[a2].source));
    }
    let h = pre[i].host;
    let p = pre[i].source;
    assert forall|j: int| 0 <= j < post.len() implies !matches_key(post[j], h, p) by {
        let j2 = if j < i { j } else { j + 1 };
        assert(post[j] == pre[j2]);
        if j2 < i {
            assert(!matches_key(pre[i], pre[j2].host, pre[j2].source));
        } else {
            assert(!matches_key(pre[j2], pre[i].host, pre[i].source));
        }
    }
    assert(!has_key(post, h, p));
    assert forall|hh: Seq<char>, pp: Seq<char>| !(hh == h && pp == p) implies #[trigger] has_key(
        post,
        hh,
        pp,
    ) == has_key(pre, hh, pp) by {
        if has_key(post, hh, pp) {
            let j = choose|j: int| 0 <= j < post.len() && matches_key(post[j], hh, pp);
            let j2 = if j < i { j } else { j + 1 };
            assert(matches_key(pre[j2], hh, pp));
            assert(has_key(pre, hh, pp));
        }
        if has_key(pre, hh, pp) {
            let j2 = choose|j: int| 0 <= j < pre.len() && matches_key(pre[j], hh, pp);
            assert(j2 != i);
            let j = if j2 < i { j2 } else { j2 - 1 };
            assert(matches_key(post[j], hh, pp));
            assert(has_key(post, hh, pp));
        }
    }
    assert forall|hh: Seq<char>, pp: Seq<char>|
        !(hh == h && pp == p) && has_key(pre, hh, pp) implies #[trigger] entry_for(post, hh, pp)
        == entry_for(pre, hh, pp) by {
        let j2 = choose|j: int| 0 <= j < pre.len() && matches_key(pre[j], hh, pp);
        assert(j2 != i);
        let j = if j2 < i { j2 } else { j2 - 1 };
        assert(post[j] == pre[j2]);
        lemma_entry_at(pre, hh, pp, j2);
        lemma_entry_at(post, hh, pp, j);
    }
}

proof fn lemma_pushed(pre: Seq<LinkModel>, post: Seq<LinkModel>, l: LinkModel)
    requires
        unique_keys(pre),
        !has_key(pre, l.host, l.source),
        post.len() == pre.len() + 1,
        forall|j: int| 0 <= j < pre.len() ==> post[j] == pre[j],
        post[pre.len() as int] == l,
    ensures
        unique_keys(post),
        cache_upserted(pre, post, l),
{
    assert forall|a: int, b: int| 0 <= a < b < post.len() implies !matches_key(
        post[b],
        post[a].host,
        post[a].source,
    ) by {
        if b < pre.len() {
            assert(!matches_key(pre[b], pre[a].host, pre[a].source));
        } else {
            assert(post[b] == l);
            if matches_key(l, post[a].host, post[a].source) {
                assert(matches_key(pre[a], l.host, l.source));
                assert(has_key(pre, l.host, l.source));
            }
        }
    }
    lemma_entry_at(post, l.host, l.source, pre.len() as int);
    assert forall|hh: Seq<char>, pp: Seq<char>| !(hh == l.host && pp == l.source)
        implies #[trigger] has_key(post, hh, pp) == has_key(pre, hh, pp) by {
        if has_key(post, hh, pp) {
            let j = choose|j: int| 0 <= j < post.len() && matches_key(post[j], hh, pp);
            if j < pre.len() {
                assert(matches_key(pre[j], hh, pp));
                assert(has_key(pre, hh, pp));
            } else {
                assert(post[j] == l);
                assert(false);
            }
        }
        if has_key(pre, hh, pp) {
            let j = choose|j: int| 0 <= j < pre.len() && matches_key(pre[j], hh, pp);
            assert(matches_key(post[j], hh, pp));
            assert(has_key(post, hh, pp));
        }
    }
    assert forall|hh: Seq<char>, pp: Seq<char>|
        !(hh == l.host && pp == l.source) && has_key(pre, hh, pp) implies #[trigger] entry_for(
        post,
        hh,
        pp,
    ) == entry_for(pre, hh, pp) by {
        let j = choose|j: int| 0 <= j < pre.len() && matches_key(pre[j], hh, pp);
        lemma_entry_at(pre, hh, pp, j);
        lemma_entry_at(post, hh, pp, j);
    }
}

impl RuleCache {
    /// The (host, source) keys of the cached entries are pairwise distinct.
    pub open spec fn wf(&self) -> bool {
        unique_keys(self@)
    }

    /// An empty cache.
    pub fn new() -> (c: RuleCache)
        ensures
            c.wf(),
            c@.len() == 0,
    {
        RuleCache { entries: Vec::new() }
    }

    /// Replaces the entire contents with the given rules; used at startup
    /// with the rules listed by the store, whose keys are unique.
    pub fn load(links: Vec<Link>) -> (c: RuleCache)
        requires
            unique_keys(links@.map_values(|l: Link| l@)),
        ensures
            c.wf(),
            c@ == links@.map_values(|l: Link| l@),
    {
        let c = RuleCache { entries: links };
        proof {
            assert(c@ =~= c.entries@.map_values(|l: Link| l@));
        }
        c
    }

    /// The number of cached rules.
    pub fn len(&self) -> (n: usize)
        ensures
            n == self@.len(),
    {
        self.entries.len()
    }

    /// The rule at position `i`, for iteration by the resolver.
    pub fn get(&self, i: usize) -> (l: &Link)
        requires
            i < self@.len(),
        ensures
            l@ == self@[i as int],
    {
        &self.entries[i]
    }

    fn index_of(&self, host: &str, source: &str) -> (r: Option<usize>)
        ensures
            match r {
                Some(i) => i < self@.len() && matches_key(self@[i as int], host@, source@),
                None => !has_key(self@, host@, source@),
            },
    {
        let n = self.entries.len();
        let mut i: usize = 0;
        while i < n
            invariant
                n == self@.len(),
                i <= n,
                forall|j: int| 0 <= j < i ==> !matches_key(self@[j], host@, source@),
            decreases n - i,
        {
            let l = &self.entries[i];
            proof {
                assert(l@ == self@[i as int]);
            }
            if str_eq(l.host.as_str(), host) && str_eq(l.source.as_str(), source) {
                return Some(i);
            }
            i += 1;
        }
        None
    }

    /// Exact key lookup.
    pub fn lookup<'a>(&'a self, host: &str, source: &str) -> (r: Option<&'a Link>)
        requires
            self.wf(),
        ensures
            r is Some <==> has_key(self@, host@, source@),
            r matches Some(l) ==> matches_key(l@, host@, source@) && l@ == entry_for(
                self@,
                host@,
                source@,
            ),
    {
        match self.index_of(host, source) {
            Some(i) => {
                proof {
                    lemma_entry_at(self@, host@, source@, i as int);
                }
                Some(&self.entries[i])
            },
            None => None,
        }
    }

    /// Deletes the entry under (`host`, `source`) if present; no-op otherwise.
    pub fn remove(&mut self, host: &str, source: &str)
        requires
            old(self).wf(),
        ensures
            final(self).wf(),
            cache_removed(old(self)@, final(self)@, host@, source@),
    {
        match self.index_of(host, source) {
            Some(i) => {
                let ghost pre = self@;
                self.entries.remove(i);
                proof {
                    assert forall|j: int| 0 <= j < i implies self@[j] == pre[j] by {
                        assert(self.entries@[j] == old(self).entries@[j]);
                    }
                    assert forall|j: int| i <= j < self@.len() implies self@[j] == pre[j + 1] by {
                        assert(self.entries@[j] == old(self).entries@[j + 1]);
                    }
                    lemma_removed_at(pre, self@, i as int);
                    assert(matches_key(pre[i as int], host@, source@));
                    assert(pre[i as int].host == host@ && pre[i as int].source == source@);
                }
            },
            None => {
                proof {
                    assert(cache_removed(self@, self@, host@, source@));
                }
            },
        }
    }

    /// Adds or replaces the entry under (`link.host`, `link.source`).
    pub fn insert(&mut self, link: Link)
        requires
            old(self).wf(),
        ensures
            final(self).wf(),
            cache_upserted(old(self)@, final(self)@, link@),
    {
        self.remove(link.host.as_str(), link.source.as_str());
        let ghost mid = self@;
        let ghost mid_entries = self.entries@;
        let ghost lm = link@;
        self.entries.push(link);
        proof {
            assert forall|j: int| 0 <= j < mid.len() implies self@[j] == mid[j] by {
                assert(self.entries@[j] == mid_entries[j]);
            }
            assert(self@[mid.len() as int] == lm);
            lemma_pushed(mid, self@, lm);
        }
    }

    /// All entries whose host is `host`, in entry order; used by the
    /// parameterized-match scan.
    pub fn scan_host(&self, host: &str) -> (r: Vec<Link>)
        ensures
            r@.map_values(|l: Link| l@) == entries_for_host(self@, host@),
    {
        let mut r: Vec<Link> = Vec::new();
        let n = self.entries.len();
        let mut i: usize = 0;
        proof {
            assert(r@.map_values(|l: Link| l@) =~= entries_for_host(self@.take(0), host@));
        }
        while i < n
            invariant
                n == self@.len(),
                i <= n,
                r@.map_values(|l: Link| l@) == entries_for_host(self@.take(i as int), host@),
            decreases n - i,
        {
            let ghost prev = r@.map_values(|l: Link| l@);
            let l = &self.entries[i];
            proof {
                assert(l@ == self@[i as int]);
                assert(self@.take(i + 1).drop_last() =~= self@.take(i as int));
                assert(self@.take(i + 1).last() == self@[i as int]);
            }
            if str_eq(l.host.as_str(), host) {
                r.push(l.clone());
                proof {
                    assert(r@.map_values(|l: Link| l@) =~= prev.push(self@[i as int]));
                }
            }
            i += 1;
        }
        proof {
            assert(self@.take(n as int) =~= self@);
        }
        r
    }
}

} // verus!
