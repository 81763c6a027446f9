//! The table of jobs: a hash map by id, seen as the list of the jobs in the order
//! of their ids.

use crate::ipp::Attr;
use crate::jobs::{
    ascending, job_with, law_found_job_is_there, lemma_job_is_found, lemma_job_with_id,
    lemma_with_job_ascends, opt_job, pending_view, restated, with_job, with_restated, with_taken,
    Job, JobView, J_CANCELED,
};
use std::collections::HashMap;
use vstd::prelude::*;
use vstd::std_specs::hash::group_hash_axioms;

verus! {

broadcast use group_hash_axioms;

/// All jobs, each under its id.
#[derive(Debug)]
pub struct JobTable {
    jobs: HashMap<i32, Job>,
}

// -------------------------------------------------------- maps and lists

/// Whether the map has the job, under its id.
spec fn has(m: Map<i32, Job>, j: JobView) -> bool {
    m.contains_key(j.id) && m[j.id]@ == j
}

/// Whether the list is that of the map's jobs, by ascending ids.
spec fn lists(q: Seq<JobView>, m: Map<i32, Job>) -> bool {
    &&& ascending(q)
    &&& forall|j: JobView| #[trigger] q.contains(j) <==> has(m, j)
}

/// The jobs of the map, by ascending ids.
spec fn listing(m: Map<i32, Job>) -> Seq<JobView> {
    choose|q: Seq<JobView>| lists(q, m)
}

/// The map is finite, and every job of it stands under its id.
spec fn keyed(m: Map<i32, Job>) -> bool {
    &&& m.dom().finite()
    &&& forall|id: i32| #[trigger] m.contains_key(id) ==> m[id].id == id
}

/// Ascending jobs are told by which jobs they are.
proof fn lemma_same_list(a: Seq<JobView>, b: Seq<JobView>)
    requires
        ascending(a),
        ascending(b),
        forall|j: JobView| #[trigger] a.contains(j) <==> b.contains(j),
    ensures
        a == b,
    decreases a.len(),
{
    if a.len() == 0 {
        if b.len() > 0 {
            assert(b.contains(b[0]));
            assert(a.contains(b[0]));
        }
        assert(a =~= b);
    } else {
        let x = a.last();
        assert(a.contains(x));
        let y = b.last();
        assert(b.contains(y));
        assert(a.contains(y));
        let i = choose|i: int| 0 <= i < b.len() && b[i] == x;
        let k = choose|k: int| 0 <= k < a.len() && a[k] == y;
        assert(x == y);
        let c = a.drop_last();
        let d = b.drop_last();
        assert forall|j: JobView| #[trigger] c.contains(j) <==> d.contains(j) by {
            if c.contains(j) {
                let n = choose|n: int| 0 <= n < c.len() && c[n] == j;
                assert(a[n] == j && j.id < x.id);
                assert(a.contains(j));
                let p = choose|p: int| 0 <= p < b.len() && b[p] == j;
                assert(d[p] == j);
            }
            if d.contains(j) {
                let n = choose|n: int| 0 <= n < d.len() && d[n] == j;
                assert(b[n] == j && j.id < y.id);
                assert(b.contains(j));
                assert(a.contains(j));
                let p = choose|p: int| 0 <= p < a.len() && a[p] == j;
                assert(c[p] == j);
            }
        }
        lemma_same_list(c, d);
        assert(a =~= c.push(x));
        assert(b =~= d.push(y));
    }
}

/// A map with one more job is listed with that job in its place.
proof fn lemma_lists_with(q: Seq<JobView>, m: Map<i32, Job>, job: Job)
    requires
        lists(q, m),
    ensures
        lists(with_job(q, job@), m.insert(job.id, job)),
{
    let all = with_job(q, job@);
    let after = m.insert(job.id, job);
    let below = |j: JobView| j.id < job@.id;
    let above = |j: JobView| j.id > job@.id;
    let low = q.filter(below);
    let high = q.filter(above);
    lemma_with_job_ascends(q, job@);
    assert forall|j: JobView| #[trigger] all.contains(j) <==> has(after, j) by {
        if all.contains(j) {
            let i = choose|i: int| 0 <= i < all.len() && all[i] == j;
            if i < low.len() {
                assert(low[i] == j);
                q.lemma_filter_pred(below, i);
                assert(low.contains(j));
                q.lemma_filter_contains_rev(below, j);
            } else if i > low.len() {
                let k = i - low.len() - 1;
                assert(high[k] == j);
                q.lemma_filter_pred(above, k);
                assert(high.contains(j));
                q.lemma_filter_contains_rev(above, j);
            }
        }
        if has(after, j) {
            if j.id == job.id {
                assert(all[low.len() as int] == j);
            } else {
                assert(q.contains(j));
                let i = choose|i: int| 0 <= i < q.len() && q[i] == j;
                if j.id < job.id {
                    q.lemma_filter_contains(below, i);
                    let k = choose|k: int| 0 <= k < low.len() && low[k] == j;
                    assert(all[k] == j);
                } else {
                    q.lemma_filter_contains(above, i);
                    let k = choose|k: int| 0 <= k < high.len() && high[k] == j;
                    assert(all[low.len() + 1 + k] == j);
                }
            }
        }
    }
}

/// Every map has a listing, and only one.
proof fn lemma_listing(m: Map<i32, Job>)
    requires
        keyed(m),
    ensures
        lists(listing(m), m),
        forall|q: Seq<JobView>| #[trigger] lists(q, m) ==> q == listing(m),
    decreases m.dom().len(),
{
    if m.dom().len() == 0 {
        let none = Seq::<JobView>::empty();
        assert(m.dom() =~= Set::empty());
        assert(lists(none, m));
    } else {
        let id = m.dom().choose();
        assert(m.contains_key(id));
        let rest = m.remove(id);
        lemma_listing(rest);
        lemma_lists_with(listing(rest), rest, m[id]);
        assert(rest.insert(id, m[id]) =~= m);
        assert(lists(with_job(listing(rest), m[id]@), m));
    }
    assert forall|q: Seq<JobView>| #[trigger] lists(q, m) implies q == listing(m) by {
        lemma_same_list(q, listing(m));
    }
}

/// What is found in the listing is what stands in the map.
proof fn lemma_found(m: Map<i32, Job>, id: i32)
    requires
        keyed(m),
    ensures
        job_with(listing(m), id) == (if m.contains_key(id) {
            Some(m[id]@)
        } else {
            None
        }),
{
    let q = listing(m);
    lemma_listing(m);
    law_found_job_is_there(q, id);
    lemma_job_with_id(q, id);
    if m.contains_key(id) {
        assert(has(m, m[id]@));
        assert(q.contains(m[id]@));
        let i = choose|i: int| 0 <= i < q.len() && q[i] == m[id]@;
        lemma_job_is_found(q, i);
    }
}

/// A map in which one job changed is listed with that job changed.
proof fn lemma_lists_changed(m: Map<i32, Job>, job: Job, change: spec_fn(JobView) -> JobView)
    requires
        keyed(m),
        m.contains_key(job.id),
        change(m[job.id]@) == job@,
        forall|j: JobView| j.id != job.id ==> #[trigger] change(j) == j,
    ensures
        keyed(m.insert(job.id, job)),
        listing(m.insert(job.id, job)) == listing(m).map_values(change),
{
    let q = listing(m);
    let after = m.insert(job.id, job);
    let r = q.map_values(change);
    lemma_listing(m);
    assert forall|i: int| 0 <= i < q.len() implies (#[trigger] r[i]).id == q[i].id && has(
        after,
        r[i],
    ) by {
        assert(q.contains(q[i]));
        if q[i].id == job.id {
            assert(q[i] == m[job.id]@);
        }
    }
    assert(ascending(r));
    assert forall|j: JobView| #[trigger] r.contains(j) <==> has(after, j) by {
        if has(after, j) {
            let before = if j.id == job.id {
                m[job.id]@
            } else {
                j
            };
            assert(has(m, before));
            assert(q.contains(before));
            let i = choose|i: int| 0 <= i < q.len() && q[i] == before;
            assert(r[i] == j);
        }
    }
    assert(keyed(after));
    assert(lists(r, after));
    lemma_listing(after);
}

/// A change of a job that is not there changes nothing.
proof fn lemma_unchanged(m: Map<i32, Job>, id: i32, change: spec_fn(JobView) -> JobView)
    requires
        keyed(m),
        !m.contains_key(id),
        forall|j: JobView| j.id != id ==> #[trigger] change(j) == j,
    ensures
        listing(m).map_values(change) == listing(m),
{
    let q = listing(m);
    lemma_listing(m);
    assert forall|i: int| 0 <= i < q.len() implies change(#[trigger] q[i]) == q[i] by {
        assert(q.contains(q[i]));
    }
    assert(q.map_values(change) =~= q);
}

// --------------------------------------------------------------- the table

impl View for JobTable {
    type V = Seq<JobView>;

    /// The jobs, by ascending ids.
    closed spec fn view(&self) -> Seq<JobView> {
        listing(self.jobs@)
    }
}

/// Jobs that were looked up, as mathematical values.
pub open spec fn looked_up(jobs: Seq<&Job>) -> Seq<JobView> {
    jobs.map_values(|j: &Job| j@)
}

/// Whether ids ascend.
spec fn ids_ascend(ids: Seq<i32>) -> bool {
    forall|i: int, k: int| 0 <= i < k < ids.len() ==> ids[i] < ids[k]
}

/// The first keys and the one after them.
proof fn lemma_next_key(keys: Seq<i32>, n: int)
    requires
        0 <= n < keys.len(),
        keys.no_duplicates(),
    ensures
        !keys.take(n).contains(keys[n]),
        forall|k: i32| #[trigger]
            keys.take(n + 1).contains(k) <==> k == keys[n] || keys.take(n).contains(k),
        n + 1 == keys.len() ==> keys.take(n + 1) == keys,
{
    assert(keys.take(n + 1) =~= keys.take(n).push(keys[n]));
    assert forall|k: i32| #[trigger]
        keys.take(n + 1).contains(k) <==> k == keys[n] || keys.take(n).contains(k) by {
        if keys.take(n).contains(k) {
            let i = choose|i: int| 0 <= i < n && keys.take(n)[i] == k;
            assert(keys.take(n + 1)[i] == k);
        }
        if k == keys[n] {
            assert(keys.take(n + 1)[n] == k);
        }
    }
}

/// Adds an id in its place.
fn add_id(ids: &mut Vec<i32>, id: i32)
    requires
        ids_ascend(old(ids)@),
        !old(ids)@.contains(id),
    ensures
        ids_ascend(final(ids)@),
        forall|k: i32| #[trigger] final(ids)@.contains(k) <==> k == id || old(ids)@.contains(k),
{
    let ghost before = ids@;
    let mut at: usize = 0;
    while at < ids.len() && ids[at] < id
        invariant
            ids@ == before,
            at <= before.len(),
            forall|i: int| 0 <= i < at ==> before[i] < id,
        decreases before.len() - at,
    {
        at += 1;
    }
    ids.insert(at, id);
    proof {
        let after = ids@;
        assert(after == before.insert(at as int, id));
        assert forall|i: int| at <= i < before.len() implies before[i] > id by {
            assert(before.contains(before[i]));
            assert(before[at as int] != id) by {
                assert(before.contains(before[at as int]));
            }
        }
        assert forall|k: i32| #[trigger] after.contains(k) <==> k == id || before.contains(k) by {
            if before.contains(k) {
                let i = choose|i: int| 0 <= i < before.len() && before[i] == k;
                if i < at {
                    assert(after[i] == k);
                } else {
                    assert(after[i + 1] == k);
                }
            }
            if k == id {
                assert(after[at as int] == k);
            }
        }
    }
}

impl JobTable {
    /// Every job stands under its id.
    #[verifier::type_invariant]
    spec fn well_formed(self) -> bool {
        keyed(self.jobs@)
    }

    /// A table without jobs.
    pub fn new() -> (r: JobTable)
        ensures
            r@ == Seq::<JobView>::empty(),
    {
        let r = JobTable { jobs: HashMap::new() };
        proof {
            lemma_listing(r.jobs@);
            assert(lists(Seq::empty(), r.jobs@));
        }
        r
    }

    /// The job with that id.
    pub fn get(&self, id: i32) -> (r: Option<&Job>)
        ensures
            opt_job(r) == job_with(self@, id),
    {
        proof {
            use_type_invariant(self);
            lemma_found(self.jobs@, id);
        }
        self.jobs.get(&id)
    }

    /// Adds a job; a job of the same id gives way to it.
    pub fn insert(&mut self, job: Job)
        ensures
            final(self)@ == with_job(old(self)@, job@),
            ascending(final(self)@),
    {
        proof {
            use_type_invariant(&*self);
        }
        let ghost m = self.jobs@;
        let mut jobs: HashMap<i32, Job> = HashMap::new();
        core::mem::swap(&mut jobs, &mut self.jobs);
        jobs.insert(job.id, job);
        proof {
            assert(keyed(jobs@));
            lemma_listing(m);
            lemma_lists_with(listing(m), m, job);
            lemma_listing(jobs@);
        }
        self.jobs = jobs;
    }

    /// Puts a job into another state; a canceled job stays canceled.
    pub fn restate(&mut self, id: i32, state: i32, message: &str)
        ensures
            final(self)@ == with_restated(old(self)@, id, state, message@),
            ascending(final(self)@),
    {
        proof {
            use_type_invariant(&*self);
        }
        let ghost m = self.jobs@;
        let ghost change = |j: JobView|
            if j.id == id {
                restated(j, state, message@)
            } else {
                j
            };
        let mut jobs: HashMap<i32, Job> = HashMap::new();
        core::mem::swap(&mut jobs, &mut self.jobs);
        match jobs.remove(&id) {
            Some(found) => {
                let mut job = found;
                if !(job.state == J_CANCELED && state != J_CANCELED) {
                    job.state = state;
                    job.message = message.to_owned();
                }
                proof {
                    lemma_lists_changed(m, job, change);
                    assert(m.remove(id).insert(id, job) =~= m.insert(id, job));
                }
                jobs.insert(id, job);
            },
            None => {
                proof {
                    assert(m.remove(id) =~= m);
                    lemma_unchanged(m, id, change);
                }
            },
        }
        proof {
            lemma_listing(jobs@);
        }
        self.jobs = jobs;
    }

    /// Takes the attributes that the job waited to use; nothing where it waits
    /// for no document, or is not there.
    pub fn take_pending(&mut self, id: i32) -> (r: Option<Vec<Attr>>)
        ensures
            final(self)@ == with_taken(old(self)@, id),
            ascending(final(self)@),
            pending_view(r) == (match job_with(old(self)@, id) {
                Some(j) => j.pending_attrs,
                None => None,
            }),
    {
        proof {
            use_type_invariant(&*self);
            lemma_found(self.jobs@, id);
        }
        let ghost m = self.jobs@;
        let ghost change = |j: JobView|
            if j.id == id {
                JobView { pending_attrs: None, ..j }
            } else {
                j
            };
        let mut taken: Option<Vec<Attr>> = None;
        let mut jobs: HashMap<i32, Job> = HashMap::new();
        core::mem::swap(&mut jobs, &mut self.jobs);
        match jobs.remove(&id) {
            Some(found) => {
                let mut job = found;
                taken = job.pending_attrs.take();
                proof {
                    lemma_lists_changed(m, job, change);
                    assert(m.remove(id).insert(id, job) =~= m.insert(id, job));
                }
                jobs.insert(id, job);
            },
            None => {
                proof {
                    assert(m.remove(id) =~= m);
                    lemma_unchanged(m, id, change);
                }
            },
        }
        proof {
            lemma_listing(jobs@);
        }
        self.jobs = jobs;
        taken
    }

    /// All ids, in ascending order.
    fn ids(&self) -> (r: Vec<i32>)
        ensures
            ids_ascend(r@),
            forall|id: i32| #[trigger] r@.contains(id) <==> self.jobs@.contains_key(id),
    {
        let mut ids: Vec<i32> = Vec::new();
        for id in it: self.jobs.keys()
            invariant
                it.seq().unref().to_set() == self.jobs@.dom(),
                it.seq().unref().no_duplicates(),
                ids_ascend(ids@),
                forall|k: i32| #[trigger]
                    ids@.contains(k) <==> it.seq().unref().take(it.index() as int).contains(k),
                it.index() == it.seq().len() ==> forall|k: i32| #[trigger]
                    ids@.contains(k) <==> self.jobs@.contains_key(k),
        {
            proof {
                lemma_next_key(it.seq().unref(), it.index() as int);
            }
            add_id(&mut ids, *id);
        }
        ids
    }

    /// All jobs, by ascending ids.
    pub fn list(&self) -> (r: Vec<&Job>)
        ensures
            looked_up(r@) == self@,
            ascending(self@),
    {
        proof {
            use_type_invariant(self);
            lemma_listing(self.jobs@);
        }
        let ids = self.ids();
        let mut out: Vec<&Job> = Vec::new();
        let mut i: usize = 0;
        while i < ids.len()
            invariant
                i <= ids@.len(),
                out@.len() == i,
                forall|id: i32| #[trigger]
                    ids@.contains(id) <==> self.jobs@.contains_key(id),
                forall|k: int| 0 <= k < i ==> *(#[trigger] out@[k]) == self.jobs@[ids@[k]],
            decreases ids@.len() - i,
        {
            let id = ids[i];
            assert(ids@.contains(id));
            match self.jobs.get(&id) {
                Some(job) => {
                    out.push(job);
                },
                None => {
                    assert(false);
                },
            }
            i += 1;
        }
        proof {
            let q = looked_up(out@);
            let m = self.jobs@;
            assert forall|k: int| 0 <= k < q.len() implies (#[trigger] q[k]).id == ids@[k]
                && has(m, q[k]) by {
                assert(ids@.contains(ids@[k]));
            }
            assert forall|j: JobView| #[trigger] q.contains(j) <==> has(m, j) by {
                if has(m, j) {
                    assert(ids@.contains(j.id));
                    let k = choose|k: int| 0 <= k < ids@.len() && ids@[k] == j.id;
                    assert(q[k] == j);
                }
            }
            assert(lists(q, m));
        }
        out
    }
}

} // verus!
