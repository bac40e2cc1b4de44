use vstd::prelude::*;
use crate::misc::str_eq;

verus! {

/// The mathematical image of one stored row: path, target, expiration
/// time in seconds since the epoch.
pub type Entry = (Seq<char>, Seq<char>, u64);

/// No two rows share a path: the table is a key-unique mapping.
pub open spec fn paths_unique(s: Seq<Entry>) -> bool {
    forall|i: int, j: int|
        #![trigger s[i], s[j]]
        0 <= i < j < s.len() ==> s[i].0 != s[j].0
}

/// The rows of `s` that satisfy `pred`, in order.
pub open spec fn retained(s: Seq<Entry>, pred: spec_fn(Entry) -> bool) -> Seq<Entry>
    decreases s.len(),
{
    if s.len() == 0 {
        s
    } else {
        let rest = retained(s.drop_last(), pred);
        if pred(s.last()) {
            rest.push(s.last())
        } else {
            rest
        }
    }
}

/// Keeps the rows whose path differs from `p`.
pub open spec fn not_path(p: Seq<char>) -> spec_fn(Entry) -> bool {
    |e: Entry| e.0 != p
}

/// Keeps the rows that expire strictly after `now`.
pub open spec fn live_after(now: u64) -> spec_fn(Entry) -> bool {
    |e: Entry| e.2 > now
}

/// `s` without the row keyed by `p`, if any.
pub open spec fn remove_path(s: Seq<Entry>, p: Seq<char>) -> Seq<Entry> {
    retained(s, not_path(p))
}

/// Upsert: any row for `p` goes away and the new row sits at the end,
/// so insertion order reflects the latest insert of each path.
pub open spec fn upsert_model(s: Seq<Entry>, p: Seq<char>, t: Seq<char>, e: u64) -> Seq<Entry> {
    remove_path(s, p).push((p, t, e))
}

/// One sweep pass: only rows that expire strictly after `now` survive.
pub open spec fn sweep_model(s: Seq<Entry>, now: u64) -> Seq<Entry> {
    retained(s, live_after(now))
}

/// Capacity eviction: at most `limit` rows remain, oldest dropped first.
pub open spec fn evict_model(s: Seq<Entry>, limit: u64) -> Seq<Entry> {
    if s.len() > limit {
        s.skip(s.len() - limit)
    } else {
        s
    }
}

/// One complete insert as the caller observes it: the upsert followed by
/// the synchronous eviction pass.
pub open spec fn insert_model(
    s: Seq<Entry>,
    p: Seq<char>,
    t: Seq<char>,
    e: u64,
    limit: u64,
) -> Seq<Entry> {
    evict_model(upsert_model(s, p, t, e), limit)
}

/// The stored (unnormalized) target of the row keyed by `p`, if one exists.
pub open spec fn lookup_model(s: Seq<Entry>, p: Seq<char>) -> Option<Seq<char>>
    decreases s.len(),
{
    if s.len() == 0 {
        None
    } else if s.last().0 == p {
        Some(s.last().1)
    } else {
        lookup_model(s.drop_last(), p)
    }
}

/// Some row of `s` is keyed by `p`.
pub open spec fn contains_path(s: Seq<Entry>, p: Seq<char>) -> bool {
    exists|i: int| 0 <= i < s.len() && (#[trigger] s[i]).0 == p
}

/// What `retained` keeps: a shorter sequence, every kept row satisfies the
/// predicate and comes from `s`, and key uniqueness survives.
pub proof fn lemma_retained_props(s: Seq<Entry>, pred: spec_fn(Entry) -> bool)
    ensures
        retained(s, pred).len() <= s.len(),
        forall|j: int| 0 <= j < retained(s, pred).len() ==> pred(#[trigger] retained(s, pred)[j]),
        forall|j: int|
            0 <= j < retained(s, pred).len() ==> s.contains(#[trigger] retained(s, pred)[j]),
        paths_unique(s) ==> paths_unique(retained(s, pred)),
    decreases s.len(),
{
    if s.len() > 0 {
        let dl = s.drop_last();
        lemma_retained_props(dl, pred);
        let r = retained(s, pred);
        let rd = retained(dl, pred);
        assert forall|j: int| 0 <= j < rd.len() implies s.contains(rd[j]) by {
            let k = choose|k: int| 0 <= k < dl.len() && dl[k] == rd[j];
            assert(s[k] == rd[j]);
        }
        if paths_unique(s) {
            assert forall|a: int, b: int|
                #![trigger dl[a], dl[b]]
                0 <= a < b < dl.len() implies dl[a].0 != dl[b].0 by {
                assert(dl[a] == s[a]);
                assert(dl[b] == s[b]);
            }
            if pred(s.last()) {
                assert(r == rd.push(s.last()));
                assert forall|a: int, b: int|
                    #![trigger r[a], r[b]]
                    0 <= a < b < r.len() implies r[a].0 != r[b].0 by {
                    if b < r.len() - 1 {
                        assert(r[a] == rd[a]);
                        assert(r[b] == rd[b]);
                    } else {
                        assert(r[b] == s.last());
                        assert(dl.contains(rd[a]));
                        let k = choose|k: int| 0 <= k < dl.len() && dl[k] == rd[a];
                        assert(s[k] == rd[a]);
                        assert(s[k].0 != s[s.len() - 1].0);
                    }
                }
            } else {
                assert(r == rd);
            }
        }
    }
}

/// When no row fails the predicate, `retained` keeps everything.
pub proof fn lemma_retained_all(s: Seq<Entry>, pred: spec_fn(Entry) -> bool)
    requires
        forall|i: int| 0 <= i < s.len() ==> pred(#[trigger] s[i]),
    ensures
        retained(s, pred) == s,
    decreases s.len(),
{
    if s.len() > 0 {
        let dl = s.drop_last();
        assert forall|i: int| 0 <= i < dl.len() implies pred(dl[i]) by {
            assert(dl[i] == s[i]);
        }
        lemma_retained_all(dl, pred);
        assert(retained(s, pred) =~= s);
    }
}

/// An upsert never introduces a duplicate path: the old row for `p` is
/// gone and every kept row carries a different path than every other.
pub proof fn lemma_upsert_wf(s: Seq<Entry>, p: Seq<char>, t: Seq<char>, ex: u64)
    requires
        paths_unique(s),
    ensures
        paths_unique(upsert_model(s, p, t, ex)),
{
    let pred = not_path(p);
    lemma_retained_props(s, pred);
    let rp = remove_path(s, p);
    assert(rp == retained(s, pred));
    let u = upsert_model(s, p, t, ex);
    assert(u == rp.push((p, t, ex)));
    assert forall|a: int, b: int|
        #![trigger u[a], u[b]]
        0 <= a < b < u.len() implies u[a].0 != u[b].0 by {
        if b < u.len() - 1 {
            assert(u[a] == rp[a]);
            assert(u[b] == rp[b]);
        } else {
            assert(u[a] == rp[a]);
            assert(pred(rp[a]));
            assert(u[b] == (p, t, ex));
        }
    }
}

/// In a key-unique table, looking up the path of row `i` finds row `i`.
pub proof fn lemma_lookup_at(s: Seq<Entry>, i: int)
    requires
        paths_unique(s),
        0 <= i < s.len(),
    ensures
        lookup_model(s, s[i].0) == Some(s[i].1),
    decreases s.len(),
{
    if i < s.len() - 1 {
        let dl = s.drop_last();
        assert forall|a: int, b: int|
            #![trigger dl[a], dl[b]]
            0 <= a < b < dl.len() implies dl[a].0 != dl[b].0 by {
            assert(dl[a] == s[a]);
            assert(dl[b] == s[b]);
        }
        assert(dl[i] == s[i]);
        lemma_lookup_at(dl, i);
        assert(s.last() == s[s.len() - 1]);
    }
}

/// A lookup misses exactly when no row carries the path.
pub proof fn lemma_lookup_none(s: Seq<Entry>, p: Seq<char>)
    ensures
        (lookup_model(s, p) is None) <==> !contains_path(s, p),
    decreases s.len(),
{
    if s.len() > 0 {
        let dl = s.drop_last();
        lemma_lookup_none(dl, p);
        if s.last().0 == p {
            assert(s[s.len() - 1].0 == p);
        } else {
            if contains_path(s, p) {
                let i = choose|i: int| 0 <= i < s.len() && s[i].0 == p;
                assert(dl[i] == s[i]);
            }
            if contains_path(dl, p) {
                let i = choose|i: int| 0 <= i < dl.len() && dl[i].0 == p;
                assert(s[i] == dl[i]);
            }
        }
    }
}

/// One stored row.
pub struct Redirection {
    pub path: String,
    pub target: String,
    pub expires_at: u64,
}

impl View for Redirection {
    type V = Entry;

    open spec fn view(&self) -> Entry {
        (self.path@, self.target@, self.expires_at)
    }
}

/// The redirection table: rows in insertion order, keys unique.
pub struct RedirectTable {
    entries: Vec<Redirection>,
}

impl View for RedirectTable {
    type V = Seq<Entry>;

    closed spec fn view(&self) -> Seq<Entry> {
        self.entries@.map_values(|r: Redirection| r@)
    }
}

impl RedirectTable {
    /// The table is well formed when no two rows share a path.
    pub open spec fn wf(&self) -> bool {
        paths_unique(self@)
    }

    /// An empty table.
    pub fn new() -> (r: RedirectTable)
        ensures
            r@ == Seq::<Entry>::empty(),
            r.wf(),
    {
        let r = RedirectTable { entries: Vec::new() };
        proof {
            assert(r@ =~= Seq::<Entry>::empty());
        }
        r
    }

    /// The number of live rows.
    pub fn len(&self) -> (n: usize)
        ensures
            n == self@.len(),
    {
        self.entries.len()
    }

    /// Insert-or-replace: the row for `path`, if any, is dropped and the
    /// new row is appended, so a repeated path never yields two rows.
    pub fn upsert(&mut self, path: String, target: String, expires_at: u64)
        requires
            old(self).wf(),
        ensures
            final(self).wf(),
            final(self)@ == upsert_model(old(self)@, path@, target@, expires_at),
    {
        let ghost orig = self@;
        let ghost pred = not_path(path@);
        let mut kept: Vec<Redirection> = Vec::new();
        let n = self.entries.len();
        let mut i: usize = 0;
        proof {
            assert(orig.subrange(0, 0) =~= Seq::<Entry>::empty());
            assert(retained(orig.subrange(0, 0), pred) =~= Seq::<Entry>::empty());
            assert(kept@.map_values(|r: Redirection| r@) =~= Seq::<Entry>::empty());
        }
        while i < n
            invariant
                0 <= i <= n,
                n == self.entries.len(),
                orig == self@,
                orig.len() == n,
                pred == not_path(path@),
                kept@.map_values(|r: Redirection| r@) == retained(orig.subrange(0, i as int), pred),
            decreases n - i,
        {
            let e = &self.entries[i];
            let ghost prefix = orig.subrange(0, i as int);
            let ghost prefix1 = orig.subrange(0, i as int + 1);
            proof {
                assert(prefix1.drop_last() =~= prefix);
                assert(prefix1.last() == orig[i as int]);
                assert(orig[i as int] == self.entries@[i as int]@);
            }
            if !str_eq(e.path.as_str(), path.as_str()) {
                let kept_row = Redirection {
                    path: e.path.clone(),
                    target: e.target.clone(),
                    expires_at: e.expires_at,
                };
                proof {
                    assert(kept_row@ == orig[i as int]);
                }
                kept.push(kept_row);
                proof {
                    assert(kept@.map_values(|r: Redirection| r@) =~= retained(prefix, pred).push(
                        orig[i as int],
                    ));
                }
            }
            i += 1;
        }
        proof {
            assert(orig.subrange(0, n as int) =~= orig);
        }
        kept.push(Redirection { path, target, expires_at });
        self.entries = kept;
        proof {
            assert(self@ =~= remove_path(orig, path@).push((path@, target@, expires_at)));
            lemma_upsert_wf(orig, path@, target@, expires_at);
        }
    }

    /// Look up the stored target for an exact path; no expiry filtering
    /// happens here (lazy expiry: the sweeper alone removes stale rows).
    pub fn lookup(&self, path: &str) -> (r: Option<String>)
        requires
            self.wf(),
        ensures
            match r {
                Some(t) => lookup_model(self@, path@) == Some(t@),
                None => lookup_model(self@, path@) is None,
            },
    {
        let n = self.entries.len();
        let mut i: usize = 0;
        while i < n
            invariant
                0 <= i <= n,
                n == self@.len(),
                self.wf(),
                forall|j: int| 0 <= j < i ==> (#[trigger] self@[j]).0 != path@,
            decreases n - i,
        {
            let e = &self.entries[i];
            proof {
                assert(self@[i as int] == self.entries@[i as int]@);
            }
            if str_eq(e.path.as_str(), path) {
                proof {
                    lemma_lookup_at(self@, i as int);
                }
                return Some(e.target.clone());
            }
            i += 1;
        }
        proof {
            lemma_lookup_none(self@, path@);
        }
        None
    }

    /// Delete every row whose expiration time has passed.
    pub fn sweep(&mut self, now: u64)
        requires
            old(self).wf(),
        ensures
            final(self).wf(),
            final(self)@ == sweep_model(old(self)@, now),
    {
        let ghost orig = self@;
        let ghost pred = live_after(now);
        let mut kept: Vec<Redirection> = Vec::new();
        let n = self.entries.len();
        let mut i: usize = 0;
        proof {
            assert(orig.subrange(0, 0) =~= Seq::<Entry>::empty());
            assert(retained(orig.subrange(0, 0), pred) =~= Seq::<Entry>::empty());
            assert(kept@.map_values(|r: Redirection| r@) =~= Seq::<Entry>::empty());
        }
        while i < n
            invariant
                0 <= i <= n,
                n == self.entries.len(),
                orig == self@,
                orig.len() == n,
                pred == live_after(now),
                kept@.map_values(|r: Redirection| r@) == retained(orig.subrange(0, i as int), pred),
            decreases n - i,
        {
            let e = &self.entries[i];
            let ghost prefix = orig.subrange(0, i as int);
            let ghost prefix1 = orig.subrange(0, i as int + 1);
            proof {
                assert(prefix1.drop_last() =~= prefix);
                assert(prefix1.last() == orig[i as int]);
                assert(orig[i as int] == self.entries@[i as int]@);
            }
            if e.expires_at > now {
                let kept_row = Redirection {
                    path: e.path.clone(),
                    target: e.target.clone(),
                    expires_at: e.expires_at,
                };
                proof {
                    assert(kept_row@ == orig[i as int]);
                }
                kept.push(kept_row);
                proof {
                    assert(kept@.map_values(|r: Redirection| r@) =~= retained(prefix, pred).push(
                        orig[i as int],
                    ));
                }
            }
            i += 1;
        }
        self.entries = kept;
        proof {
            assert(orig.subrange(0, n as int) =~= orig);
            lemma_retained_props(orig, pred);
        }
    }

    /// Delete the oldest rows until at most `limit` remain.
    pub fn evict(&mut self, limit: u64)
        requires
            old(self).wf(),
        ensures
            final(self).wf(),
            final(self)@ == evict_model(old(self)@, limit),
    {
        let ghost orig = self@;
        proof {
            assert(orig.skip(0) =~= orig);
        }
        while self.entries.len() as u64 > limit
            invariant
                orig.len() >= self@.len(),
                orig.len() > limit ==> self@.len() >= limit,
                orig.len() <= limit ==> self@.len() == orig.len(),
                self@ == orig.skip(orig.len() - self@.len()),
                self@.len() == self.entries.len(),
            decreases self.entries.len(),
        {
            let ghost before = self@;
            self.entries.remove(0);
            proof {
                assert(self@ =~= before.skip(1));
                assert(before.skip(1) =~= orig.skip(orig.len() - before.len() + 1));
            }
        }
        proof {
            if orig.len() <= limit {
                assert(orig.skip(0) =~= orig);
            }
            assert(self@ == evict_model(orig, limit));
            let u = self@;
            assert forall|a: int, b: int|
                #![trigger u[a], u[b]]
                0 <= a < b < u.len() implies u[a].0 != u[b].0 by {
                let k = orig.len() - u.len();
                assert(u[a] == orig[a + k]);
                assert(u[b] == orig[b + k]);
            }
        }
    }
}

} // verus!
