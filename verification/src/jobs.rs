//! The jobs that the virtual printer knows, and how their states change.

use crate::ipp::{attr_views, Attr, AttrView};
use crate::table::{looked_up, JobTable};
use vstd::prelude::*;

verus! {

// IPP job states
pub const J_PENDING: i32 = 3;

pub const J_HELD: i32 = 4;

pub const J_PROCESSING: i32 = 5;

pub const J_STOPPED: i32 = 6;

pub const J_CANCELED: i32 = 7;

pub const J_ABORTED: i32 = 8;

pub const J_COMPLETED: i32 = 9;

/// The name of a job state.
pub open spec fn state_text(s: i32) -> Seq<char> {
    if s == J_PENDING {
        "pending"@
    } else if s == J_HELD {
        "pending-held"@
    } else if s == J_PROCESSING {
        "processing"@
    } else if s == J_STOPPED {
        "stopped"@
    } else if s == J_CANCELED {
        "canceled"@
    } else if s == J_ABORTED {
        "aborted"@
    } else if s == J_COMPLETED {
        "completed"@
    } else {
        "unknown"@
    }
}

/// The name of a job state.
pub fn state_name(s: i32) -> (r: &'static str)
    ensures
        r@ == state_text(s),
{
    if s == J_PENDING {
        "pending"
    } else if s == J_HELD {
        "pending-held"
    } else if s == J_PROCESSING {
        "processing"
    } else if s == J_STOPPED {
        "stopped"
    } else if s == J_CANCELED {
        "canceled"
    } else if s == J_ABORTED {
        "aborted"
    } else if s == J_COMPLETED {
        "completed"
    } else {
        "unknown"
    }
}

/// Why a job is in its state: the job-state-reasons keyword.
pub open spec fn reason_text(state: i32) -> Seq<char> {
    if state == J_STOPPED {
        "media-needed"@
    } else if state == J_COMPLETED {
        "job-completed-successfully"@
    } else if state == J_CANCELED {
        "job-canceled-by-user"@
    } else if state == J_ABORTED {
        "aborted-by-system"@
    } else {
        "none"@
    }
}

/// Why a job is in its state: the job-state-reasons keyword.
pub fn job_reason(state: i32) -> (r: &'static str)
    ensures
        r@ == reason_text(state),
{
    if state == J_STOPPED {
        "media-needed"
    } else if state == J_COMPLETED {
        "job-completed-successfully"
    } else if state == J_CANCELED {
        "job-canceled-by-user"
    } else if state == J_ABORTED {
        "aborted-by-system"
    } else {
        "none"
    }
}

// -------------------------------------------------------------- the table

/// One job.
#[derive(Debug)]
pub struct Job {
    pub id: i32,
    pub name: String,
    pub user: String,
    pub state: i32,
    pub message: String,
    /// set for Create-Job jobs awaiting their Send-Document
    pub pending_attrs: Option<Vec<Attr>>,
}

/// All jobs, the id of the next one, and whether a flip of the stack was
/// requested.
#[derive(Debug)]
pub struct Spooler {
    pub jobs: JobTable,
    pub next_id: i32,
    pub flip_requested: bool,
}

/// A job as a mathematical value.
#[verifier::ext_equal]
pub struct JobView {
    pub id: i32,
    pub name: Seq<char>,
    pub user: Seq<char>,
    pub state: i32,
    pub message: Seq<char>,
    pub pending_attrs: Option<Seq<AttrView>>,
}

/// The spooler as a mathematical value: the jobs are in the order of their ids.
#[verifier::ext_equal]
pub struct SpoolerView {
    pub jobs: Seq<JobView>,
    pub next_id: i32,
    pub flip_requested: bool,
}

/// Optional attributes as a mathematical value.
pub open spec fn pending_view(p: Option<Vec<Attr>>) -> Option<Seq<AttrView>> {
    match p {
        Some(a) => Some(attr_views(a@)),
        None => None,
    }
}

impl View for Job {
    type V = JobView;

    open spec fn view(&self) -> JobView {
        JobView {
            id: self.id,
            name: self.name@,
            user: self.user@,
            state: self.state,
            message: self.message@,
            pending_attrs: pending_view(self.pending_attrs),
        }
    }
}

impl View for Spooler {
    type V = SpoolerView;

    open spec fn view(&self) -> SpoolerView {
        SpoolerView {
            jobs: self.jobs@,
            next_id: self.next_id,
            flip_requested: self.flip_requested,
        }
    }
}

/// Jobs ascend by their ids.
pub open spec fn ascending(jobs: Seq<JobView>) -> bool {
    forall|i: int, j: int| 0 <= i < j < jobs.len() ==> jobs[i].id < jobs[j].id
}

/// The job with that id.
pub open spec fn job_with(jobs: Seq<JobView>, id: i32) -> Option<JobView>
    decreases jobs.len(),
{
    if jobs.len() == 0 {
        None
    } else if jobs[0].id == id {
        Some(jobs[0])
    } else {
        job_with(jobs.drop_first(), id)
    }
}

/// The jobs with one more, in its place; a job of the same id gives way to it.
pub open spec fn with_job(jobs: Seq<JobView>, job: JobView) -> Seq<JobView> {
    jobs.filter(|j: JobView| j.id < job.id) + seq![job] + jobs.filter(
        |j: JobView| j.id > job.id,
    )
}

/// The id after `id`; after the greatest comes the least.
pub open spec fn id_after(id: i32) -> i32 {
    if id == i32::MAX {
        i32::MIN
    } else {
        (id + 1) as i32
    }
}

/// The job in another state. A canceled job stays canceled.
pub open spec fn restated(j: JobView, state: i32, message: Seq<char>) -> JobView {
    if j.state == J_CANCELED && state != J_CANCELED {
        j
    } else {
        JobView { state, message, ..j }
    }
}

/// The jobs with that one in another state, where it is not canceled.
pub open spec fn with_restated(
    jobs: Seq<JobView>,
    id: i32,
    state: i32,
    message: Seq<char>,
) -> Seq<JobView> {
    jobs.map_values(
        |j: JobView|
            if j.id == id {
                restated(j, state, message)
            } else {
                j
            },
    )
}

/// The jobs, that one without the attributes that it waited to use.
pub open spec fn with_taken(jobs: Seq<JobView>, id: i32) -> Seq<JobView> {
    jobs.map_values(
        |j: JobView|
            if j.id == id {
                JobView { pending_attrs: None, ..j }
            } else {
                j
            },
    )
}

/// Whether a job is in that state.
pub open spec fn any_in_state(jobs: Seq<JobView>, state: i32) -> bool {
    exists|i: int| 0 <= i < jobs.len() && (#[trigger] jobs[i]).state == state
}

impl SpoolerView {
    /// A new pending job.
    pub open spec fn fresh(
        self,
        name: Seq<char>,
        user: Seq<char>,
        pending_attrs: Option<Seq<AttrView>>,
    ) -> JobView {
        JobView {
            id: self.next_id,
            name,
            user,
            state: J_PENDING,
            message: seq![],
            pending_attrs,
        }
    }

    /// The spooler with a new pending job.
    pub open spec fn with_new(
        self,
        name: Seq<char>,
        user: Seq<char>,
        pending_attrs: Option<Seq<AttrView>>,
    ) -> SpoolerView {
        SpoolerView {
            jobs: with_job(self.jobs, self.fresh(name, user, pending_attrs)),
            next_id: id_after(self.next_id),
            ..self
        }
    }

    /// The spooler with the job in another state, where it is not canceled.
    pub open spec fn with_state(self, id: i32, state: i32, message: Seq<char>) -> SpoolerView {
        SpoolerView { jobs: with_restated(self.jobs, id, state, message), ..self }
    }

    /// The spooler without the attributes that the job waited to use.
    pub open spec fn with_taken(self, id: i32) -> SpoolerView {
        SpoolerView { jobs: with_taken(self.jobs, id), ..self }
    }

    /// Whether the job is canceled; a job that is not there counts as canceled.
    pub open spec fn is_canceled(self, id: i32) -> bool {
        match job_with(self.jobs, id) {
            Some(j) => j.state == J_CANCELED,
            None => true,
        }
    }

    /// The name of the job, or an empty one.
    pub open spec fn name_of(self, id: i32) -> Seq<char> {
        match job_with(self.jobs, id) {
            Some(j) => j.name,
            None => seq![],
        }
    }

    /// The user of the job, or an empty one.
    pub open spec fn user_of(self, id: i32) -> Seq<char> {
        match job_with(self.jobs, id) {
            Some(j) => j.user,
            None => seq![],
        }
    }

    /// The ids ascend: no id occurs twice, and the jobs are in their order.
    pub open spec fn in_order(self) -> bool {
        ascending(self.jobs)
    }
}

/// An optional job as a mathematical value.
pub open spec fn opt_job(j: Option<&Job>) -> Option<JobView> {
    match j {
        Some(j) => Some(j@),
        None => None,
    }
}

impl Spooler {
    /// A spooler without jobs.
    pub fn new() -> (r: Spooler)
        ensures
            r@ == (SpoolerView { jobs: seq![], next_id: 1, flip_requested: false }),
            r@.in_order(),
    {
        Spooler { jobs: JobTable::new(), next_id: 1, flip_requested: false }
    }

    /// The job with that id.
    pub fn job(&self, id: i32) -> (r: Option<&Job>)
        ensures
            opt_job(r) == job_with(self@.jobs, id),
    {
        self.jobs.get(id)
    }

    /// All jobs, by ascending ids.
    pub fn list(&self) -> (r: Vec<&Job>)
        ensures
            looked_up(r@) == self@.jobs,
            self@.in_order(),
    {
        self.jobs.list()
    }

    /// Adds a pending job and returns its id.
    pub fn new_job(&mut self, name: String, user: String, pending_attrs: Option<Vec<Attr>>) -> (r:
        i32)
        ensures
            r == old(self)@.next_id,
            final(self)@ == old(self)@.with_new(name@, user@, pending_view(pending_attrs)),
            final(self)@.in_order(),
    {
        let id = self.next_id;
        self.next_id = id.wrapping_add(1);
        self.jobs.insert(
            Job { id, name, user, state: J_PENDING, message: String::new(), pending_attrs },
        );
        id
    }

    /// Puts a job into another state; a canceled job stays canceled.
    pub fn set_job_state(&mut self, id: i32, state: i32, message: &str)
        ensures
            final(self)@ == old(self)@.with_state(id, state, message@),
            final(self)@.in_order(),
    {
        self.jobs.restate(id, state, message);
    }

    /// Takes the attributes that the job waited to use; nothing where it waits
    /// for no document, or is not there.
    pub fn take_pending(&mut self, id: i32) -> (r: Option<Vec<Attr>>)
        ensures
            final(self)@ == old(self)@.with_taken(id),
            final(self)@.in_order(),
            pending_view(r) == (match job_with(old(self)@.jobs, id) {
                Some(j) => j.pending_attrs,
                None => None,
            }),
    {
        self.jobs.take_pending(id)
    }

    /// Whether the job is canceled; a job that is not there counts as canceled.
    pub fn job_canceled(&self, id: i32) -> (r: bool)
        ensures
            r == self@.is_canceled(id),
    {
        match self.job(id) {
            Some(j) => j.state == J_CANCELED,
            None => true,
        }
    }

    /// The name of the job, or an empty one.
    pub fn job_name(&self, id: i32) -> (r: String)
        ensures
            r@ == self@.name_of(id),
    {
        match self.job(id) {
            Some(j) => j.name.clone(),
            None => String::new(),
        }
    }

    /// The user of the job, or an empty one.
    pub fn job_user(&self, id: i32) -> (r: String)
        ensures
            r@ == self@.user_of(id),
    {
        match self.job(id) {
            Some(j) => j.user.clone(),
            None => String::new(),
        }
    }

    /// Whether a job is in that state.
    pub fn any_in(&self, state: i32) -> (r: bool)
        ensures
            r == any_in_state(self@.jobs, state),
    {
        let jobs = self.list();
        let mut i: usize = 0;
        while i < jobs.len()
            invariant
                i <= jobs@.len(),
                looked_up(jobs@) == self@.jobs,
                forall|k: int| 0 <= k < i ==> (#[trigger] self@.jobs[k]).state != state,
            decreases jobs@.len() - i,
        {
            assert(self@.jobs[i as int] == jobs@[i as int]@);
            if jobs[i].state == state {
                return true;
            }
            i += 1;
        }
        false
    }

    /// Requests the flip; true if a job waits for it.
    pub fn trigger_flip(&mut self) -> (r: bool)
        ensures
            r == any_in_state(old(self)@.jobs, J_STOPPED),
            final(self)@ == (SpoolerView { flip_requested: true, ..old(self)@ }),
    {
        let waiting = self.any_in(J_STOPPED);
        self.flip_requested = true;
        waiting
    }
}

// ------------------------------------------------------------------- laws

proof fn lemma_job_with_concat(a: Seq<JobView>, b: Seq<JobView>, id: i32)
    ensures
        job_with(a + b, id) == (match job_with(a, id) {
            Some(j) => Some(j),
            None => job_with(b, id),
        }),
    decreases a.len(),
{
    if a.len() == 0 {
        assert(a + b =~= b);
    } else {
        assert((a + b).drop_first() =~= a.drop_first() + b);
        lemma_job_with_concat(a.drop_first(), b, id);
    }
}

proof fn lemma_job_with_map(jobs: Seq<JobView>, f: spec_fn(JobView) -> JobView, id: i32)
    requires
        forall|j: JobView| (#[trigger] f(j)).id == j.id,
    ensures
        job_with(jobs.map_values(f), id) == (match job_with(jobs, id) {
            Some(j) => Some(f(j)),
            None => None,
        }),
    decreases jobs.len(),
{
    if jobs.len() > 0 {
        assert(jobs.map_values(f).drop_first() =~= jobs.drop_first().map_values(f));
        lemma_job_with_map(jobs.drop_first(), f, id);
    }
}

proof fn lemma_job_with_absent(jobs: Seq<JobView>, id: i32)
    requires
        forall|i: int| 0 <= i < jobs.len() ==> (#[trigger] jobs[i]).id != id,
    ensures
        job_with(jobs, id) is None,
    decreases jobs.len(),
{
    if jobs.len() > 0 {
        assert(jobs[0].id != id);
        let rest = jobs.drop_first();
        assert forall|i: int| 0 <= i < rest.len() implies (#[trigger] rest[i]).id != id by {
            assert(rest[i] == jobs[i + 1]);
        }
        lemma_job_with_absent(rest, id);
    }
}

proof fn lemma_job_with_filter(jobs: Seq<JobView>, keep: spec_fn(JobView) -> bool, id: i32)
    requires
        forall|j: JobView| j.id == id ==> #[trigger] keep(j),
    ensures
        job_with(jobs.filter(keep), id) == job_with(jobs, id),
    decreases jobs.len(),
{
    reveal(Seq::filter);
    if jobs.len() > 0 {
        let front = jobs.drop_last();
        let last = seq![jobs.last()];
        lemma_job_with_filter(front, keep, id);
        assert(jobs =~= front + last);
        lemma_job_with_concat(front, last, id);
        if keep(jobs.last()) {
            assert(jobs.filter(keep) =~= front.filter(keep) + last);
            lemma_job_with_concat(front.filter(keep), last, id);
        } else {
            assert(last[0].id != id);
            lemma_job_with_absent(last, id);
        }
    }
}

/// A job that is put into another state is found in it, unless it was canceled;
/// every other job is found as it was.
pub proof fn law_state_is_set(sp: SpoolerView, id: i32, state: i32, message: Seq<char>, other: i32)
    ensures
        job_with(sp.with_state(id, state, message).jobs, other) == (match job_with(
            sp.jobs,
            other,
        ) {
            Some(j) => Some(
                if other == id {
                    restated(j, state, message)
                } else {
                    j
                },
            ),
            None => None,
        }),
{
    let f = |j: JobView|
        if j.id == id {
            restated(j, state, message)
        } else {
            j
        };
    lemma_job_with_map(sp.jobs, f, other);
    lemma_job_with_id(sp.jobs, other);
}

/// The job that is found under an id has that id.
pub proof fn lemma_job_with_id(jobs: Seq<JobView>, id: i32)
    ensures
        job_with(jobs, id) matches Some(j) ==> j.id == id,
    decreases jobs.len(),
{
    if jobs.len() > 0 && jobs[0].id != id {
        lemma_job_with_id(jobs.drop_first(), id);
    }
}

/// Where a job is, one is found under its id.
pub proof fn lemma_job_is_found(jobs: Seq<JobView>, i: int)
    requires
        0 <= i < jobs.len(),
    ensures
        job_with(jobs, jobs[i].id) is Some,
    decreases jobs.len(),
{
    if i > 0 && jobs[0].id != jobs[i].id {
        assert(jobs.drop_first()[i - 1] == jobs[i]);
        lemma_job_is_found(jobs.drop_first(), i - 1);
    }
}

/// A job that is found is there: its state is one that a job is in.
pub proof fn law_found_job_is_there(jobs: Seq<JobView>, id: i32)
    ensures
        job_with(jobs, id) matches Some(j) ==> jobs.contains(j) && any_in_state(jobs, j.state),
    decreases jobs.len(),
{
    if jobs.len() > 0 {
        if jobs[0].id == id {
            assert(jobs.contains(jobs[0]));
        } else {
            let rest = jobs.drop_first();
            law_found_job_is_there(rest, id);
            if let Some(j) = job_with(rest, id) {
                let k = choose|k: int| 0 <= k < rest.len() && rest[k] == j;
                assert(jobs[k + 1] == j);
            }
        }
    }
}

/// A canceled job stays canceled, whatever state any job is put into.
pub proof fn law_canceled_stays_canceled(
    sp: SpoolerView,
    id: i32,
    state: i32,
    message: Seq<char>,
    other: i32,
)
    requires
        sp.is_canceled(other),
    ensures
        sp.with_state(id, state, message).is_canceled(other),
{
    law_state_is_set(sp, id, state, message, other);
}

/// The attributes that a job waited to use are taken once; every other job is
/// found as it was, and so is the rest of this one.
pub proof fn law_pending_is_taken(sp: SpoolerView, id: i32, other: i32)
    ensures
        job_with(sp.with_taken(id).jobs, other) == (match job_with(sp.jobs, other) {
            Some(j) => Some(
                if other == id {
                    JobView { pending_attrs: None, ..j }
                } else {
                    j
                },
            ),
            None => None,
        }),
{
    let f = |j: JobView|
        if j.id == id {
            JobView { pending_attrs: None, ..j }
        } else {
            j
        };
    lemma_job_with_map(sp.jobs, f, other);
    lemma_job_with_id(sp.jobs, other);
}

proof fn lemma_filter_lacks(jobs: Seq<JobView>, keep: spec_fn(JobView) -> bool, id: i32)
    requires
        forall|j: JobView| #[trigger] keep(j) ==> j.id != id,
    ensures
        job_with(jobs.filter(keep), id) is None,
{
    let kept = jobs.filter(keep);
    assert forall|i: int| 0 <= i < kept.len() implies (#[trigger] kept[i]).id != id by {
        jobs.lemma_filter_pred(keep, i);
    }
    lemma_job_with_absent(kept, id);
}

/// A new job is found under the id that it was given; every other job is found
/// as it was.
pub proof fn law_new_job_is_found(
    sp: SpoolerView,
    name: Seq<char>,
    user: Seq<char>,
    pending_attrs: Option<Seq<AttrView>>,
    other: i32,
)
    ensures
        job_with(sp.with_new(name, user, pending_attrs).jobs, other) == if other == sp.next_id {
            Some(sp.fresh(name, user, pending_attrs))
        } else {
            job_with(sp.jobs, other)
        },
{
    let id = sp.next_id;
    let job = sp.fresh(name, user, pending_attrs);
    let below = |j: JobView| j.id < job.id;
    let above = |j: JobView| j.id > job.id;
    let low = sp.jobs.filter(below);
    let high = sp.jobs.filter(above);
    lemma_job_with_concat(low + seq![job], high, other);
    lemma_job_with_concat(low, seq![job], other);
    if other < id {
        lemma_job_with_filter(sp.jobs, below, other);
        lemma_filter_lacks(sp.jobs, above, other);
    } else if other > id {
        lemma_job_with_filter(sp.jobs, above, other);
        lemma_filter_lacks(sp.jobs, below, other);
    } else {
        lemma_filter_lacks(sp.jobs, below, other);
    }
    assert(seq![job][0] == job);
    if other != id {
        lemma_job_with_absent(seq![job], other);
    }
}

/// Jobs that are picked from ascending ones ascend.
pub proof fn lemma_filter_ascends(jobs: Seq<JobView>, keep: spec_fn(JobView) -> bool)
    requires
        ascending(jobs),
    ensures
        ascending(jobs.filter(keep)),
        forall|i: int|
            0 <= i < jobs.filter(keep).len() ==> (#[trigger] jobs.filter(keep)[i]).id
                <= jobs.last().id,
    decreases jobs.len(),
{
    reveal(Seq::filter);
    if jobs.len() > 0 {
        let front = jobs.drop_last();
        lemma_filter_ascends(front, keep);
        if front.len() > 0 {
            assert(front.last().id < jobs.last().id);
        } else {
            assert(front.filter(keep) =~= seq![]);
        }
    }
}

/// A job that takes its place among ascending jobs leaves them ascending.
pub proof fn lemma_with_job_ascends(jobs: Seq<JobView>, job: JobView)
    requires
        ascending(jobs),
    ensures
        ascending(with_job(jobs, job)),
{
    let below = |j: JobView| j.id < job.id;
    let above = |j: JobView| j.id > job.id;
    let low = jobs.filter(below);
    let high = jobs.filter(above);
    lemma_filter_ascends(jobs, below);
    lemma_filter_ascends(jobs, above);
    let all = with_job(jobs, job);
    assert forall|i: int| 0 <= i < low.len() implies (#[trigger] low[i]).id < job.id by {
        jobs.lemma_filter_pred(below, i);
    }
    assert forall|i: int| 0 <= i < high.len() implies (#[trigger] high[i]).id > job.id by {
        jobs.lemma_filter_pred(above, i);
    }
    assert forall|i: int, j: int| 0 <= i < j < all.len() implies all[i].id < all[j].id by {
        let n = low.len() as int;
        if j < n {
            assert(all[i] == low[i] && all[j] == low[j]);
        } else if i < n && j == n {
            assert(all[i] == low[i] && all[j] == job);
        } else if i < n {
            assert(all[i] == low[i] && all[j] == high[j - n - 1]);
        } else if i == n {
            assert(all[i] == job && all[j] == high[j - n - 1]);
        } else {
            assert(all[i] == high[i - n - 1] && all[j] == high[j - n - 1]);
        }
    }
}

/// The jobs keep the order of their ids, and no id occurs twice, whatever
/// happens to them.
pub proof fn law_order_is_kept(
    sp: SpoolerView,
    id: i32,
    state: i32,
    message: Seq<char>,
    name: Seq<char>,
    user: Seq<char>,
    pending_attrs: Option<Seq<AttrView>>,
)
    requires
        sp.in_order(),
    ensures
        sp.with_new(name, user, pending_attrs).in_order(),
        sp.with_state(id, state, message).in_order(),
        sp.with_taken(id).in_order(),
{
    lemma_with_job_ascends(sp.jobs, sp.fresh(name, user, pending_attrs));
}

/// Ids are not given twice, as long as there are any: while all ids are below
/// the next one, they stay so, and the next one is new.
pub proof fn law_ids_are_new(
    sp: SpoolerView,
    name: Seq<char>,
    user: Seq<char>,
    pending_attrs: Option<Seq<AttrView>>,
)
    requires
        forall|i: int| 0 <= i < sp.jobs.len() ==> (#[trigger] sp.jobs[i]).id < sp.next_id,
        sp.next_id < i32::MAX,
    ensures
        job_with(sp.jobs, sp.next_id) is None,
        ({
            let after = sp.with_new(name, user, pending_attrs);
            forall|i: int| 0 <= i < after.jobs.len() ==> (#[trigger] after.jobs[i]).id < after.next_id
        }),
{
    lemma_job_with_absent(sp.jobs, sp.next_id);
    let job = sp.fresh(name, user, pending_attrs);
    let below = |j: JobView| j.id < job.id;
    let above = |j: JobView| j.id > job.id;
    let low = sp.jobs.filter(below);
    let high = sp.jobs.filter(above);
    let after = sp.with_new(name, user, pending_attrs);
    assert forall|i: int| 0 <= i < after.jobs.len() implies (#[trigger] after.jobs[i]).id
        < after.next_id by {
        if i < low.len() {
            sp.jobs.lemma_filter_pred(below, i);
            assert(after.jobs[i] == low[i]);
        } else if i > low.len() {
            let k = i - low.len() - 1;
            assert(after.jobs[i] == high[k]);
            assert(high.contains(high[k]));
            sp.jobs.lemma_filter_contains_rev(above, high[k]);
        }
    }
}

/// A job is found under its id, wherever it stands; nothing is found under an id
/// that no job has.
pub proof fn law_jobs_are_found_by_id(jobs: Seq<JobView>, i: int, id: i32)
    ensures
        ascending(jobs) && 0 <= i < jobs.len() ==> job_with(jobs, jobs[i].id) == Some(jobs[i]),
        (forall|k: int| 0 <= k < jobs.len() ==> (#[trigger] jobs[k]).id != id) ==> job_with(
            jobs,
            id,
        ) is None,
    decreases jobs.len(),
{
    if forall|k: int| 0 <= k < jobs.len() ==> (#[trigger] jobs[k]).id != id {
        lemma_job_with_absent(jobs, id);
    }
    if ascending(jobs) && 0 < i < jobs.len() {
        let rest = jobs.drop_first();
        assert(jobs[0].id < jobs[i].id);
        assert(rest[i - 1] == jobs[i]);
        assert forall|a: int, b: int| 0 <= a < b < rest.len() implies rest[a].id < rest[b].id by {
            assert(jobs[a + 1].id < jobs[b + 1].id);
        }
        law_jobs_are_found_by_id(rest, i - 1, id);
    }
}

/// A new job is pending: it has the next id, the name, the user and the attributes
/// that it was given, and no message. The id after it is one more, and the least
/// after the greatest.
pub proof fn law_new_job_is_pending(
    sp: SpoolerView,
    name: Seq<char>,
    user: Seq<char>,
    pending_attrs: Option<Seq<AttrView>>,
)
    ensures
        ({
            let after = sp.with_new(name, user, pending_attrs);
            &&& job_with(after.jobs, sp.next_id) matches Some(j) && j.id == sp.next_id && j.name
                == name && j.user == user && j.state == 3 && j.message.len() == 0
                && j.pending_attrs == pending_attrs
            &&& sp.next_id < i32::MAX ==> after.next_id == sp.next_id + 1
            &&& sp.next_id == i32::MAX ==> after.next_id == i32::MIN
            &&& after.flip_requested == sp.flip_requested
        }),
{
    law_new_job_is_found(sp, name, user, pending_attrs, sp.next_id);
}

/// A job that is put into a state has that state and that message, and is otherwise
/// as it was. Only a canceled job takes no other state.
pub proof fn law_state_and_message_are_set(
    sp: SpoolerView,
    id: i32,
    state: i32,
    message: Seq<char>,
    j: JobView,
)
    requires
        job_with(sp.jobs, id) == Some(j),
    ensures
        ({
            let after = sp.with_state(id, state, message);
            &&& job_with(after.jobs, id) matches Some(k) && k.id == j.id && k.name == j.name
                && k.user == j.user && k.pending_attrs == j.pending_attrs && (if j.state != 7
                || state == 7 {
                k.state == state && k.message == message
            } else {
                k.state == 7 && k.message == j.message
            })
            &&& after.jobs.len() == sp.jobs.len()
            &&& after.next_id == sp.next_id
            &&& after.flip_requested == sp.flip_requested
        }),
{
    law_state_is_set(sp, id, state, message, id);
}

/// What is said of a job: it counts as canceled if it is, or is not there, and its
/// name and its user are its own, or empty where it is not there.
pub proof fn law_what_is_said_of_a_job(sp: SpoolerView, id: i32)
    ensures
        match job_with(sp.jobs, id) {
            Some(j) => (sp.is_canceled(id) <==> j.state == 7) && sp.name_of(id) == j.name
                && sp.user_of(id) == j.user,
            None => sp.is_canceled(id) && sp.name_of(id).len() == 0 && sp.user_of(id).len() == 0,
        },
{
}

/// The states of a job have the names of RFC 8011, and those that say why have a
/// reason.
pub proof fn law_states_have_names(s: i32)
    ensures
        state_text(3) == "pending"@,
        state_text(4) == "pending-held"@,
        state_text(5) == "processing"@,
        state_text(6) == "stopped"@,
        state_text(7) == "canceled"@,
        state_text(8) == "aborted"@,
        state_text(9) == "completed"@,
        s < 3 || s > 9 ==> state_text(s) == "unknown"@,
        reason_text(6) == "media-needed"@,
        reason_text(7) == "job-canceled-by-user"@,
        reason_text(8) == "aborted-by-system"@,
        reason_text(9) == "job-completed-successfully"@,
        s < 6 || s > 9 ==> reason_text(s) == "none"@,
{
}

} // verus!
