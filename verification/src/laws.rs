use vstd::prelude::*;
use crate::store::{
    contains_path, evict_model, insert_model, lemma_lookup_none, lemma_retained_all,
    lemma_retained_props, lemma_upsert_wf, live_after, lookup_model, not_path, paths_unique,
    sweep_model, upsert_model, Entry,
};

verus! {

/// A freshly inserted row is found again: after an insert of `(p, t)`
/// into a key-unique table with any capacity of at least one, and before
/// any sweep, looking up `p` yields the stored target `t` (the redirect
/// layer then normalizes its scheme at read time).
pub proof fn lemma_insert_then_lookup(s: Seq<Entry>, p: Seq<char>, t: Seq<char>, e: u64, limit: u64)
    requires
        paths_unique(s),
        limit >= 1,
    ensures
        lookup_model(insert_model(s, p, t, e, limit), p) == Some(t),
{
    let u = upsert_model(s, p, t, e);
    let r = insert_model(s, p, t, e, limit);
    assert(u[u.len() - 1] == (p, t, e));
    if u.len() > limit {
        assert(r == u.skip(u.len() - limit));
        assert(r[r.len() - 1] == u[u.len() - 1]);
    }
    assert(r.len() > 0);
    assert(r.last() == (p, t, e));
}

/// Re-inserting a path replaces the earlier row: the upserted table is
/// still key-unique (no duplicate rows for `p`) and a lookup of `p`
/// yields the latest target.
pub proof fn lemma_upsert_replaces(s: Seq<Entry>, p: Seq<char>, t: Seq<char>, e: u64)
    requires
        paths_unique(s),
    ensures
        paths_unique(upsert_model(s, p, t, e)),
        lookup_model(upsert_model(s, p, t, e), p) == Some(t),
{
    lemma_upsert_wf(s, p, t, e);
    let u = upsert_model(s, p, t, e);
    assert(u[u.len() - 1] == (p, t, e));
    assert(u.last() == (p, t, e));
}

/// A swept row stays gone: once the sweeper has run at a time at or past
/// a row's expiration, looking that row's path up misses.
pub proof fn lemma_sweep_then_lookup_misses(s: Seq<Entry>, now: u64, i: int)
    requires
        paths_unique(s),
        0 <= i < s.len(),
        s[i].2 <= now,
    ensures
        lookup_model(sweep_model(s, now), s[i].0) is None,
{
    let p = s[i].0;
    let w = sweep_model(s, now);
    lemma_retained_props(s, live_after(now));
    lemma_lookup_none(w, p);
    if contains_path(w, p) {
        let j = choose|j: int| 0 <= j < w.len() && w[j].0 == p;
        assert(live_after(now)(w[j]));
        assert(s.contains(w[j]));
        let k = choose|k: int| 0 <= k < s.len() && s[k] == w[j];
        if k != i {
            assert(s[k].0 != s[i].0);
        }
    }
}

/// The table after a run of insert requests, each one a complete insert
/// (upsert plus synchronous eviction) under the same capacity limit.
pub open spec fn run_inserts(s: Seq<Entry>, reqs: Seq<Entry>, limit: u64) -> Seq<Entry>
    decreases reqs.len(),
{
    if reqs.len() == 0 {
        s
    } else {
        run_inserts(
            insert_model(s, reqs[0].0, reqs[0].1, reqs[0].2, limit),
            reqs.skip(1),
            limit,
        )
    }
}

/// Evicting a table that already lost its oldest rows evicts to the same
/// suffix as evicting the whole table.
proof fn lemma_evict_of_skip(z: Seq<Entry>, k: int, limit: u64)
    requires
        0 <= k,
        z.len() - k >= limit,
    ensures
        evict_model(z.skip(k), limit) == evict_model(z, limit),
{
    if z.len() > limit {
        if z.skip(k).len() > limit {
            assert(z.skip(k).skip(z.len() - k - limit) =~= z.skip(z.len() - limit));
        } else {
            assert(z.skip(k) =~= z.skip(z.len() - limit));
        }
    } else {
        assert(z.skip(0) =~= z);
    }
}

/// Running inserts with pairwise distinct fresh paths is the same as
/// appending them all and evicting once at the end.
proof fn lemma_run_inserts_full(s: Seq<Entry>, reqs: Seq<Entry>, limit: u64)
    requires
        limit >= 1,
        s.len() <= limit,
        paths_unique(s + reqs),
    ensures
        run_inserts(s, reqs, limit) == evict_model(s + reqs, limit),
    decreases reqs.len(),
{
    if reqs.len() == 0 {
        assert(s + reqs =~= s);
    } else {
        let r0 = reqs[0];
        let pred = not_path(r0.0);
        assert forall|i: int| 0 <= i < s.len() implies pred(s[i]) by {
            assert((s + reqs)[i] == s[i]);
            assert((s + reqs)[s.len() as int] == reqs[0]);
        }
        lemma_retained_all(s, pred);
        let u = upsert_model(s, r0.0, r0.1, r0.2);
        assert(u =~= s.push(r0));
        let k: int = if u.len() > limit {
            u.len() - limit
        } else {
            0
        };
        let s1 = evict_model(u, limit);
        if u.len() <= limit {
            assert(u.skip(0) =~= u);
        }
        assert(s1 == u.skip(k));
        assert(s.push(r0) + reqs.skip(1) =~= s + reqs);
        assert(s1 + reqs.skip(1) =~= (s + reqs).skip(k));
        let z = s + reqs;
        assert forall|a: int, b: int|
            #![trigger z.skip(k)[a], z.skip(k)[b]]
            0 <= a < b < z.skip(k).len() implies z.skip(k)[a].0 != z.skip(k)[b].0 by {
            assert(z.skip(k)[a] == z[a + k]);
            assert(z.skip(k)[b] == z[b + k]);
        }
        assert(paths_unique(s1 + reqs.skip(1)));
        lemma_run_inserts_full(s1, reqs.skip(1), limit);
        assert(insert_model(s, reqs[0].0, reqs[0].1, reqs[0].2, limit) == s1);
        if k == 0 {
            assert(z.skip(0) =~= z);
        } else {
            lemma_evict_of_skip(z, k, limit);
        }
        assert(evict_model(s1 + reqs.skip(1), limit) == evict_model(z, limit));
    }
}

/// Capacity is enforced: after any sequence of at least `limit` inserts
/// with pairwise distinct paths into an empty table, exactly `limit`
/// rows remain, and they are the most recently inserted ones — the
/// oldest were evicted first.
pub proof fn lemma_capacity_after_inserts(reqs: Seq<Entry>, limit: u64)
    requires
        1 <= limit <= reqs.len(),
        paths_unique(reqs),
    ensures
        run_inserts(Seq::<Entry>::empty(), reqs, limit) == reqs.skip(reqs.len() - limit),
        run_inserts(Seq::<Entry>::empty(), reqs, limit).len() == limit,
{
    assert(Seq::<Entry>::empty() + reqs =~= reqs);
    lemma_run_inserts_full(Seq::<Entry>::empty(), reqs, limit);
}

/// Eviction never grows the table and never leaves it over the limit.
pub proof fn lemma_evict_bound(s: Seq<Entry>, limit: u64)
    ensures
        evict_model(s, limit).len() <= limit,
        evict_model(s, limit).len() <= s.len(),
{
}

/// Eviction is idempotent: a table already within bound is untouched,
/// so racing eviction passes converge to the same state.
pub proof fn lemma_evict_idempotent(s: Seq<Entry>, limit: u64)
    ensures
        evict_model(evict_model(s, limit), limit) == evict_model(s, limit),
{
    lemma_evict_bound(s, limit);
}

} // verus!
