//! What the virtual printer answers: IPP operations on jobs, and the HTTP
//! requests that carry them.

use crate::http::{Reply, ReplyView};
use crate::ipp::{
    attr_views, attrs_in, boolean_attr, first_named, int_attr, lemma_first_named_at, opt_view,
    parse, parse_msg, response_msg, str_attr, value_view, Attr, AttrView, Group, GroupView, Msg, MsgView, ERR_BAD_REQUEST, ERR_NOT_FOUND,
    ERR_NOT_POSSIBLE, ERR_OP_NOT_SUPPORTED, G_JOB, G_OPERATION, OK, OP_CANCEL_JOB, OP_CREATE_JOB,
    OP_GET_JOBS, OP_GET_JOB_ATTRS, OP_GET_PRINTER_ATTRS, OP_PRINT_JOB, OP_SEND_DOCUMENT,
    OP_VALIDATE_JOB, T_ENUM, T_INTEGER, T_KEYWORD, T_NAME, T_TEXT, T_URI,
};
use crate::jobs::{
    any_in_state, ascending, job_reason, job_with, law_new_job_is_found, law_order_is_kept,
    law_pending_is_taken, law_state_is_set, lemma_filter_ascends, lemma_job_with_id, reason_text,
    state_name, state_text, Job, JobView, Spooler, SpoolerView, J_ABORTED, J_CANCELED, J_PENDING, J_STOPPED,
};
use crate::table::looked_up;
use crate::text::{
    bytes_of, decimal, decimal_int, push_decimal, push_decimal_int, same, same_bytes,
};
use crate::wire::{law_int_reads_back, law_str_reads_back};
use vstd::prelude::*;
use vstd::string::StringExecFns;
use vstd::utf8::*;

verus! {

// ------------------------------------------------------ reading a request

/// The first value of the attribute as text, or `default`.
pub open spec fn text_or(a: Option<AttrView>, default: Seq<char>) -> Seq<char> {
    match a {
        Some(a) => match a.first_str() {
            Some(s) => s,
            None => default,
        },
        None => default,
    }
}

/// The first value of the attribute as a number.
pub open spec fn number_of(a: Option<AttrView>) -> Option<i32> {
    match a {
        Some(a) => a.first_int(),
        None => None,
    }
}

/// The first value of the attribute as text, or `default`.
pub fn attr_text(a: Option<&Attr>, default: &str) -> (r: String)
    ensures
        r@ == text_or(opt_view(a), default@),
{
    match a {
        Some(a) => match a.first_str() {
            Some(s) => s.to_owned(),
            None => default.to_owned(),
        },
        None => default.to_owned(),
    }
}

/// The first value of the attribute as a number.
pub fn attr_number(a: Option<&Attr>) -> (r: Option<i32>)
    ensures
        r == number_of(opt_view(a)),
{
    match a {
        Some(a) => a.first_int(),
        None => None,
    }
}

/// Who sent the request.
pub open spec fn user_in(req: MsgView) -> Seq<char> {
    text_or(req.find_in(G_OPERATION, "requesting-user-name"@), "anonymous"@)
}

/// What the request calls its job, as an operation attribute or else as a job
/// attribute.
pub open spec fn job_name_in(req: MsgView) -> Seq<char> {
    text_or(
        match req.find_in(G_OPERATION, "job-name"@) {
            Some(a) => Some(a),
            None => req.find_in(G_JOB, "job-name"@),
        },
        "untitled"@,
    )
}

/// The job that the request is about.
pub open spec fn job_id_in(req: MsgView) -> Option<i32> {
    number_of(req.find_in(G_OPERATION, "job-id"@))
}

/// Whether the document is the job's last; so it is unless the request denies it.
pub open spec fn is_last_document(req: MsgView) -> bool {
    match req.find_in(G_OPERATION, "last-document"@) {
        Some(a) => a.values.len() == 0 || a.values[0].1 == seq![1u8],
        None => true,
    }
}

/// Who sent the request.
pub fn req_user(req: &Msg) -> (r: String)
    ensures
        r@ == user_in(req@),
{
    attr_text(req.find_in(G_OPERATION, "requesting-user-name"), "anonymous")
}

/// What the request calls its job.
pub fn req_job_name(req: &Msg) -> (r: String)
    ensures
        r@ == job_name_in(req@),
{
    let a = match req.find_in(G_OPERATION, "job-name") {
        Some(a) => Some(a),
        None => req.find_in(G_JOB, "job-name"),
    };
    attr_text(a, "untitled")
}

/// The job that the request is about.
pub fn req_job_id(req: &Msg) -> (r: Option<i32>)
    ensures
        r == job_id_in(req@),
{
    attr_number(req.find_in(G_OPERATION, "job-id"))
}

/// The job attributes of the request.
pub fn job_attrs_of(req: &Msg) -> (r: Vec<Attr>)
    ensures
        attr_views(r@) == attrs_in(req@.groups, G_JOB),
{
    req.attrs_of(G_JOB)
}

/// Whether the document is the job's last.
fn last_document(req: &Msg) -> (r: bool)
    ensures
        r == is_last_document(req@),
{
    match req.find_in(G_OPERATION, "last-document") {
        Some(a) => {
            if a.values.len() == 0 {
                true
            } else {
                assert(a@.values[0] == value_view(a.values@[0]));
                let one: [u8; 1] = [1];
                assert(one@ =~= seq![1u8]);
                same_bytes(&a.values[0].1, &one)
            }
        },
        None => true,
    }
}

// ------------------------------------------------------ describing a job

/// The address of a job.
pub open spec fn job_uri_text(port: u16, id: i32) -> Seq<char> {
    "ipp://127.0.0.1:"@ + decimal(port as nat) + "/jobs/"@ + decimal_int(id as int)
}

/// The attributes that every answer about a job gives.
pub open spec fn job_attrs(port: u16, id: i32, state: i32, message: Seq<char>) -> Seq<AttrView> {
    seq![
        int_attr(T_INTEGER, "job-id"@, id),
        str_attr(T_URI, "job-uri"@, job_uri_text(port, id)),
        int_attr(T_ENUM, "job-state"@, state),
        str_attr(T_KEYWORD, "job-state-reasons"@, reason_text(state)),
        str_attr(T_TEXT, "job-state-message"@, message),
    ]
}

/// All that an answer to a query says of a job.
pub open spec fn job_details(port: u16, j: JobView) -> GroupView {
    GroupView {
        tag: G_JOB,
        attrs: job_attrs(port, j.id, j.state, j.message) + seq![
            str_attr(T_NAME, "job-name"@, j.name),
            str_attr(T_NAME, "job-originating-user-name"@, j.user),
        ],
    }
}

/// A successful response about a job that was just accepted.
pub open spec fn accepted(port: u16, request_id: u32, id: i32) -> MsgView {
    with_group(
        response_msg(OK, request_id),
        GroupView { tag: G_JOB, attrs: job_attrs(port, id, J_PENDING, ""@) },
    )
}

/// The message with one more group.
pub open spec fn with_group(m: MsgView, g: GroupView) -> MsgView {
    MsgView { groups: m.groups.push(g), ..m }
}

/// The attributes that every answer about a job gives.
pub fn job_group(port: u16, id: i32, state: i32, message: &str) -> (r: Group)
    ensures
        r@ == (GroupView { tag: G_JOB, attrs: job_attrs(port, id, state, message@) }),
{
    let mut uri = "ipp://127.0.0.1:".to_owned();
    push_decimal(&mut uri, port as u64);
    uri.append("/jobs/");
    push_decimal_int(&mut uri, id);
    let mut attrs: Vec<Attr> = Vec::new();
    attrs.push(Attr::integer(T_INTEGER, "job-id", id));
    attrs.push(Attr::str(T_URI, "job-uri", uri.as_str()));
    attrs.push(Attr::integer(T_ENUM, "job-state", state));
    attrs.push(Attr::str(T_KEYWORD, "job-state-reasons", job_reason(state)));
    attrs.push(Attr::str(T_TEXT, "job-state-message", message));
    let g = Group { tag: G_JOB, attrs };
    assert(g@.attrs =~= job_attrs(port, id, state, message@));
    g
}

/// The attributes that every answer about a job gives, of a job in the table.
pub fn job_group_from(port: u16, j: &Job) -> (r: Group)
    ensures
        r@ == (GroupView { tag: G_JOB, attrs: job_attrs(port, j@.id, j@.state, j@.message) }),
{
    job_group(port, j.id, j.state, j.message.as_str())
}

/// All that an answer to a query says of a job.
fn details_of(port: u16, j: &Job) -> (r: Group)
    ensures
        r@ == job_details(port, j@),
{
    let mut g = job_group_from(port, j);
    g.attrs.push(Attr::str(T_NAME, "job-name", j.name.as_str()));
    g.attrs.push(Attr::str(T_NAME, "job-originating-user-name", j.user.as_str()));
    assert(g@.attrs =~= job_details(port, j@).attrs);
    g
}

/// A successful response about a job that was just accepted.
fn accept(port: u16, request_id: u32, id: i32) -> (r: Msg)
    ensures
        r@ == accepted(port, request_id, id),
{
    let mut resp = Msg::response(OK, request_id);
    resp.groups.push(job_group(port, id, J_PENDING, ""));
    assert(resp@.groups =~= accepted(port, request_id, id).groups);
    resp
}

// ------------------------------------------------------------- operations

/// A document to print.
#[derive(Debug)]
pub struct PrintTask {
    pub id: i32,
    pub data: Vec<u8>,
    pub attrs: Vec<Attr>,
}

/// A document to print as a mathematical value.
#[verifier::ext_equal]
pub struct TaskView {
    pub id: i32,
    pub data: Seq<u8>,
    pub attrs: Seq<AttrView>,
}

impl View for PrintTask {
    type V = TaskView;

    open spec fn view(&self) -> TaskView {
        TaskView { id: self.id, data: self.data@, attrs: attr_views(self.attrs@) }
    }
}

/// What comes of an operation.
#[derive(Debug)]
pub enum Outcome {
    /// answer
    Reply(Msg),
    /// answer, and print a document
    Print(Msg, PrintTask),
    /// answer, and wake whoever waits for the flip, since a job was canceled
    Canceled(Msg),
    /// ask the real printer for its attributes, then answer
    AskPrinter,
}

/// What comes of an operation as a mathematical value.
pub enum OutcomeView {
    Reply(MsgView),
    Print(MsgView, TaskView),
    Canceled(MsgView),
    AskPrinter,
}

impl View for Outcome {
    type V = OutcomeView;

    open spec fn view(&self) -> OutcomeView {
        match self {
            Outcome::Reply(m) => OutcomeView::Reply(m@),
            Outcome::Print(m, t) => OutcomeView::Print(m@, t@),
            Outcome::Canceled(m) => OutcomeView::Canceled(m@),
            Outcome::AskPrinter => OutcomeView::AskPrinter,
        }
    }
}

/// Answers with a bare status.
pub open spec fn refuse(status: u16, req: MsgView) -> OutcomeView {
    OutcomeView::Reply(response_msg(status, req.request_id))
}

/// Print-Job: a document makes a job, which is printed.
pub open spec fn print_job(sp: SpoolerView, port: u16, req: MsgView) -> (SpoolerView, OutcomeView) {
    if req.data.len() == 0 {
        (sp, refuse(ERR_BAD_REQUEST, req))
    } else {
        (
            sp.with_new(job_name_in(req), user_in(req), None),
            OutcomeView::Print(
                accepted(port, req.request_id, sp.next_id),
                TaskView {
                    id: sp.next_id,
                    data: req.data,
                    attrs: attrs_in(req.groups, G_JOB),
                },
            ),
        )
    }
}

/// Create-Job: a job that waits for its document.
pub open spec fn create_job(sp: SpoolerView, port: u16, req: MsgView) -> (
    SpoolerView,
    OutcomeView,
) {
    (
        sp.with_new(job_name_in(req), user_in(req), Some(attrs_in(req.groups, G_JOB))),
        OutcomeView::Reply(accepted(port, req.request_id, sp.next_id)),
    )
}

/// Send-Document: the one document of a job that waits for it. A further
/// document to come, or an empty one, aborts the job.
pub open spec fn send_document(sp: SpoolerView, port: u16, req: MsgView) -> (
    SpoolerView,
    OutcomeView,
) {
    match job_id_in(req) {
        None => (sp, refuse(ERR_BAD_REQUEST, req)),
        Some(id) => match job_with(sp.jobs, id) {
            None => (sp, refuse(ERR_NOT_FOUND, req)),
            Some(j) => match j.pending_attrs {
                None => (sp, refuse(ERR_NOT_POSSIBLE, req)),
                Some(attrs) => {
                    let taken = sp.with_taken(id);
                    if !is_last_document(req) {
                        (
                            taken.with_state(id, J_ABORTED, "multi-document jobs not supported"@),
                            refuse(ERR_OP_NOT_SUPPORTED, req),
                        )
                    } else if req.data.len() == 0 {
                        (
                            taken.with_state(id, J_ABORTED, "empty document"@),
                            refuse(ERR_BAD_REQUEST, req),
                        )
                    } else {
                        (
                            taken,
                            OutcomeView::Print(
                                accepted(port, req.request_id, id),
                                TaskView { id, data: req.data, attrs },
                            ),
                        )
                    }
                },
            },
        },
    }
}

/// Whether a job is over.
pub open spec fn is_done(j: JobView) -> bool {
    j.state >= J_CANCELED
}

/// The jobs that a Get-Jobs request asks for.
pub open spec fn jobs_listed(jobs: Seq<JobView>, completed: bool) -> Seq<JobView> {
    jobs.filter(|j: JobView| is_done(j) == completed)
}

/// Whether a Get-Jobs request asks for the jobs that are over.
pub open spec fn asks_completed(req: MsgView) -> bool {
    text_or(req.find_in(G_OPERATION, "which-jobs"@), "not-completed"@) == "completed"@
}

/// Get-Jobs: the jobs that are over, or those that are not, by their ids.
pub open spec fn get_jobs(sp: SpoolerView, port: u16, req: MsgView) -> MsgView {
    let resp = response_msg(OK, req.request_id);
    MsgView {
        groups: resp.groups + jobs_listed(sp.jobs, asks_completed(req)).map_values(
            |j: JobView| job_details(port, j),
        ),
        ..resp
    }
}

/// Get-Job-Attributes: one job.
pub open spec fn get_job_attrs(sp: SpoolerView, port: u16, req: MsgView) -> MsgView {
    match job_id_in(req) {
        None => response_msg(ERR_NOT_FOUND, req.request_id),
        Some(id) => match job_with(sp.jobs, id) {
            None => response_msg(ERR_NOT_FOUND, req.request_id),
            Some(j) => with_group(response_msg(OK, req.request_id), job_details(port, j)),
        },
    }
}

/// Cancel-Job: a job that is not over.
pub open spec fn cancel_job(sp: SpoolerView, req: MsgView) -> (SpoolerView, OutcomeView) {
    match job_id_in(req) {
        None => (sp, refuse(ERR_BAD_REQUEST, req)),
        Some(id) => match job_with(sp.jobs, id) {
            None => (sp, refuse(ERR_NOT_FOUND, req)),
            Some(j) => if is_done(j) {
                (sp, refuse(ERR_NOT_POSSIBLE, req))
            } else {
                (
                    sp.with_state(id, J_CANCELED, "canceled"@),
                    OutcomeView::Canceled(response_msg(OK, req.request_id)),
                )
            },
        },
    }
}

/// What comes of a request, and what the spooler is after it.
pub open spec fn ipp_outcome(sp: SpoolerView, port: u16, req: MsgView) -> (
    SpoolerView,
    OutcomeView,
) {
    if req.op_status == OP_GET_PRINTER_ATTRS {
        (sp, OutcomeView::AskPrinter)
    } else if req.op_status == OP_VALIDATE_JOB {
        (sp, refuse(OK, req))
    } else if req.op_status == OP_PRINT_JOB {
        print_job(sp, port, req)
    } else if req.op_status == OP_CREATE_JOB {
        create_job(sp, port, req)
    } else if req.op_status == OP_SEND_DOCUMENT {
        send_document(sp, port, req)
    } else if req.op_status == OP_GET_JOBS {
        (sp, OutcomeView::Reply(get_jobs(sp, port, req)))
    } else if req.op_status == OP_GET_JOB_ATTRS {
        (sp, OutcomeView::Reply(get_job_attrs(sp, port, req)))
    } else if req.op_status == OP_CANCEL_JOB {
        cancel_job(sp, req)
    } else {
        (sp, refuse(ERR_OP_NOT_SUPPORTED, req))
    }
}

/// Print-Job.
pub fn op_print_job(sp: &mut Spooler, port: u16, req: Msg) -> (r: Outcome)
    ensures
        (final(sp)@, r@) == print_job(old(sp)@, port, req@),
{
    if req.data.len() == 0 {
        return Outcome::Reply(Msg::response(ERR_BAD_REQUEST, req.request_id));
    }
    let id = sp.new_job(req_job_name(&req), req_user(&req), None);
    let attrs = job_attrs_of(&req);
    let resp = accept(port, req.request_id, id);
    Outcome::Print(resp, PrintTask { id, data: req.data, attrs })
}

/// Create-Job.
pub fn op_create_job(sp: &mut Spooler, port: u16, req: &Msg) -> (r: Outcome)
    ensures
        (final(sp)@, r@) == create_job(old(sp)@, port, req@),
{
    let id = sp.new_job(req_job_name(req), req_user(req), Some(job_attrs_of(req)));
    Outcome::Reply(accept(port, req.request_id, id))
}

/// Send-Document.
pub fn op_send_document(sp: &mut Spooler, port: u16, req: Msg) -> (r: Outcome)
    ensures
        (final(sp)@, r@) == send_document(old(sp)@, port, req@),
{
    let id = match req_job_id(&req) {
        Some(i) => i,
        None => {
            return Outcome::Reply(Msg::response(ERR_BAD_REQUEST, req.request_id));
        },
    };
    let waits = match sp.job(id) {
        Some(j) => j.pending_attrs.is_some(),
        None => {
            return Outcome::Reply(Msg::response(ERR_NOT_FOUND, req.request_id));
        },
    };
    if !waits {
        return Outcome::Reply(Msg::response(ERR_NOT_POSSIBLE, req.request_id));
    }
    let attrs = match sp.take_pending(id) {
        Some(a) => a,
        None => {
            return Outcome::Reply(Msg::response(ERR_NOT_POSSIBLE, req.request_id));
        },
    };
    if !last_document(&req) {
        sp.set_job_state(id, J_ABORTED, "multi-document jobs not supported");
        return Outcome::Reply(Msg::response(ERR_OP_NOT_SUPPORTED, req.request_id));
    }
    if req.data.len() == 0 {
        sp.set_job_state(id, J_ABORTED, "empty document");
        return Outcome::Reply(Msg::response(ERR_BAD_REQUEST, req.request_id));
    }
    let resp = accept(port, req.request_id, id);
    Outcome::Print(resp, PrintTask { id, data: req.data, attrs })
}

/// Get-Jobs.
pub fn op_get_jobs(sp: &Spooler, port: u16, req: &Msg) -> (r: Msg)
    ensures
        r@ == get_jobs(sp@, port, req@),
        ascending(jobs_listed(sp@.jobs, asks_completed(req@))),
{
    let which = attr_text(req.find_in(G_OPERATION, "which-jobs"), "not-completed");
    let completed = same(which.as_str(), "completed");
    let mut resp = Msg::response(OK, req.request_id);
    let ghost base = resp@;
    let ghost all = sp@.jobs;
    let jobs = sp.list();
    let ghost wanted = |j: JobView| is_done(j) == completed;
    let ghost shown = |j: JobView| job_details(port, j);
    let mut i: usize = 0;
    assert(all.take(0).filter(wanted).map_values(shown) =~= seq![]) by {
        reveal(Seq::filter);
    }
    assert(base.groups + Seq::<GroupView>::empty() =~= base.groups);
    while i < jobs.len()
        invariant
            i <= jobs@.len(),
            all == looked_up(jobs@),
            wanted == (|j: JobView| is_done(j) == completed),
            shown == (|j: JobView| job_details(port, j)),
            resp@ == (MsgView {
                groups: base.groups + all.take(i as int).filter(wanted).map_values(shown),
                ..base
            }),
        decreases jobs@.len() - i,
    {
        let ghost before = resp@.groups;
        reveal(Seq::filter);
        assert(all.take(i + 1).drop_last() =~= all.take(i as int));
        assert(all.take(i + 1).last() == jobs@[i as int]@);
        let done = jobs[i].state >= J_CANCELED;
        if completed == done {
            resp.groups.push(details_of(port, jobs[i]));
            assert(resp@.groups =~= before.push(job_details(port, all[i as int])));
            assert(all.take(i + 1).filter(wanted) =~= all.take(i as int).filter(wanted).push(
                all[i as int],
            ));
            assert(resp@.groups =~= base.groups + all.take(i + 1).filter(wanted).map_values(
                shown,
            ));
        }
        i += 1;
    }
    assert(all.take(i as int) =~= all);
    proof {
        law_listing_ascends(all, completed);
    }
    resp
}

/// Get-Job-Attributes.
pub fn op_get_job_attrs(sp: &Spooler, port: u16, req: &Msg) -> (r: Msg)
    ensures
        r@ == get_job_attrs(sp@, port, req@),
{
    match req_job_id(req) {
        None => Msg::response(ERR_NOT_FOUND, req.request_id),
        Some(id) => match sp.job(id) {
            None => Msg::response(ERR_NOT_FOUND, req.request_id),
            Some(j) => {
                let mut resp = Msg::response(OK, req.request_id);
                let ghost base = resp@;
                resp.groups.push(details_of(port, j));
                assert(resp@.groups =~= base.groups.push(job_details(port, j@)));
                resp
            },
        },
    }
}

/// Cancel-Job.
pub fn op_cancel_job(sp: &mut Spooler, req: &Msg) -> (r: Outcome)
    ensures
        (final(sp)@, r@) == cancel_job(old(sp)@, req@),
{
    let id = match req_job_id(req) {
        Some(i) => i,
        None => {
            return Outcome::Reply(Msg::response(ERR_BAD_REQUEST, req.request_id));
        },
    };
    let state = match sp.job(id) {
        Some(j) => j.state,
        None => {
            return Outcome::Reply(Msg::response(ERR_NOT_FOUND, req.request_id));
        },
    };
    if state < J_CANCELED {
        sp.set_job_state(id, J_CANCELED, "canceled");
        Outcome::Canceled(Msg::response(OK, req.request_id))
    } else {
        Outcome::Reply(Msg::response(ERR_NOT_POSSIBLE, req.request_id))
    }
}

/// Carries out a request.
pub fn handle_ipp(sp: &mut Spooler, port: u16, req: Msg) -> (r: Outcome)
    ensures
        (final(sp)@, r@) == ipp_outcome(old(sp)@, port, req@),
{
    if req.op_status == OP_GET_PRINTER_ATTRS {
        Outcome::AskPrinter
    } else if req.op_status == OP_VALIDATE_JOB {
        Outcome::Reply(Msg::response(OK, req.request_id))
    } else if req.op_status == OP_PRINT_JOB {
        op_print_job(sp, port, req)
    } else if req.op_status == OP_CREATE_JOB {
        op_create_job(sp, port, &req)
    } else if req.op_status == OP_SEND_DOCUMENT {
        op_send_document(sp, port, req)
    } else if req.op_status == OP_GET_JOBS {
        Outcome::Reply(op_get_jobs(sp, port, &req))
    } else if req.op_status == OP_GET_JOB_ATTRS {
        Outcome::Reply(op_get_job_attrs(sp, port, &req))
    } else if req.op_status == OP_CANCEL_JOB {
        op_cancel_job(sp, &req)
    } else {
        Outcome::Reply(Msg::response(ERR_OP_NOT_SUPPORTED, req.request_id))
    }
}

// ------------------------------------------------------------------- HTTP

/// One line of the status page.
pub open spec fn job_line(j: JobView) -> Seq<char> {
    "job "@ + decimal_int(j.id as int) + " \""@ + j.name + "\" ("@ + j.user + "): "@ + state_text(
        j.state,
    ) + " "@ + j.message + "\n"@
}

/// The lines of the status page.
pub open spec fn job_lines(jobs: Seq<JobView>) -> Seq<char>
    decreases jobs.len(),
{
    if jobs.len() == 0 {
        seq![]
    } else {
        job_lines(jobs.drop_last()) + job_line(jobs.last())
    }
}

/// The status page: who prints where, how to go on, and every job by its id.
pub open spec fn page_text(jobs: Seq<JobView>, name: Seq<char>, uri: Seq<char>) -> Seq<char> {
    "ipp-duplexd '"@ + name + "' -> "@ + uri
        + "\nGET /flip to continue after flipping the stack\n\n"@ + job_lines(jobs)
}

/// Appends one line of the status page.
fn push_job_line(out: &mut String, j: &Job)
    ensures
        final(out)@ == old(out)@ + job_line(j@),
{
    let mut line = "job ".to_owned();
    push_decimal_int(&mut line, j.id);
    line.append(" \"");
    line.append(j.name.as_str());
    line.append("\" (");
    line.append(j.user.as_str());
    line.append("): ");
    line.append(state_name(j.state));
    line.append(" ");
    line.append(j.message.as_str());
    line.append("\n");
    out.append(line.as_str());
}

/// The status page.
pub fn status_page(sp: &Spooler, name: &str, uri: &str) -> (r: String)
    ensures
        r@ == page_text(sp@.jobs, name@, uri@),
        ascending(sp@.jobs),
{
    let mut out = "ipp-duplexd '".to_owned();
    out.append(name);
    out.append("' -> ");
    out.append(uri);
    out.append("\nGET /flip to continue after flipping the stack\n\n");
    let ghost head = out@;
    let ghost all = sp@.jobs;
    let jobs = sp.list();
    let mut i: usize = 0;
    assert(head + job_lines(all.take(0)) =~= head);
    while i < jobs.len()
        invariant
            i <= jobs@.len(),
            all == looked_up(jobs@),
            out@ == head + job_lines(all.take(i as int)),
        decreases jobs@.len() - i,
    {
        assert(all.take(i + 1).drop_last() =~= all.take(i as int));
        assert(all.take(i + 1).last() == jobs@[i as int]@);
        push_job_line(&mut out, jobs[i]);
        i += 1;
        assert(out@ =~= head + job_lines(all.take(i as int)));
    }
    assert(all.take(i as int) =~= all);
    out
}

/// What comes of an HTTP request.
#[derive(Debug)]
pub enum Response {
    /// answer
    Done(Reply),
    /// answer, and print a document
    Print(Reply, PrintTask),
    /// answer, and wake whoever waits for the flip
    Wake(Reply),
    /// ask the real printer for its attributes, then answer the request of that id
    AskPrinter(u32),
}

/// What comes of an HTTP request as a mathematical value.
pub enum ResponseView {
    Done(ReplyView),
    Print(ReplyView, TaskView),
    Wake(ReplyView),
    AskPrinter(u32),
}

impl View for Response {
    type V = ResponseView;

    open spec fn view(&self) -> ResponseView {
        match self {
            Response::Done(r) => ResponseView::Done(r@),
            Response::Print(r, t) => ResponseView::Print(r@, t@),
            Response::Wake(r) => ResponseView::Wake(r@),
            Response::AskPrinter(id) => ResponseView::AskPrinter(*id),
        }
    }
}

/// The answer that carries an IPP response.
pub open spec fn ipp_reply(m: MsgView) -> ReplyView {
    ReplyView { status: "200 OK"@, content_type: "application/ipp"@, body: m.encode() }
}

/// An answer in plain text.
pub open spec fn text_reply(status: Seq<char>, text: Seq<char>) -> ReplyView {
    ReplyView { status, content_type: "text/plain"@, body: encode_utf8(text) }
}

/// What comes of an HTTP request, and what the spooler is after it.
pub open spec fn http_outcome(
    sp: SpoolerView,
    name: Seq<char>,
    uri: Seq<char>,
    port: u16,
    method: Seq<char>,
    path: Seq<char>,
    body: Seq<u8>,
) -> (SpoolerView, ResponseView) {
    if method == "POST"@ {
        match parse_msg(body) {
            Err(e) => (sp, ResponseView::Done(text_reply("400 Bad Request"@, e))),
            Ok(req) => {
                let (next, out) = ipp_outcome(sp, port, req);
                (
                    next,
                    match out {
                        OutcomeView::Reply(m) => ResponseView::Done(ipp_reply(m)),
                        OutcomeView::Print(m, t) => ResponseView::Print(ipp_reply(m), t),
                        OutcomeView::Canceled(m) => ResponseView::Wake(ipp_reply(m)),
                        OutcomeView::AskPrinter => ResponseView::AskPrinter(req.request_id),
                    },
                )
            },
        }
    } else if method == "GET"@ {
        if path == "/flip"@ {
            (
                SpoolerView { flip_requested: true, ..sp },
                ResponseView::Wake(
                    text_reply(
                        "200 OK"@,
                        if any_in_state(sp.jobs, J_STOPPED) {
                            "ok, printing the backs\n"@
                        } else {
                            "no job is waiting for a flip\n"@
                        },
                    ),
                ),
            )
        } else {
            (sp, ResponseView::Done(text_reply("200 OK"@, page_text(sp.jobs, name, uri))))
        }
    } else {
        (sp, ResponseView::Done(text_reply("405 Method Not Allowed"@, "nope\n"@)))
    }
}

/// The answer that carries an IPP response.
pub fn reply_with(m: &Msg) -> (r: Reply)
    ensures
        r@ == ipp_reply(m@),
{
    Reply::new("200 OK", "application/ipp", m.encode())
}

/// An answer in plain text.
fn plain_reply(status: &str, text: &str) -> (r: Reply)
    ensures
        r@ == text_reply(status@, text@),
{
    Reply::new(status, "text/plain", bytes_of(text))
}

/// Carries out an HTTP request.
pub fn respond(
    sp: &mut Spooler,
    name: &str,
    uri: &str,
    port: u16,
    method: &str,
    path: &str,
    body: &[u8],
) -> (r: Response)
    ensures
        (final(sp)@, r@) == http_outcome(
            old(sp)@,
            name@,
            uri@,
            port,
            method@,
            path@,
            body@,
        ),
{
    if same(method, "POST") {
        match parse(body) {
            Err(e) => Response::Done(plain_reply("400 Bad Request", e.as_str())),
            Ok(req) => {
                let request_id = req.request_id;
                match handle_ipp(sp, port, req) {
                    Outcome::Reply(m) => Response::Done(reply_with(&m)),
                    Outcome::Print(m, t) => Response::Print(reply_with(&m), t),
                    Outcome::Canceled(m) => Response::Wake(reply_with(&m)),
                    Outcome::AskPrinter => Response::AskPrinter(request_id),
                }
            },
        }
    } else if same(method, "GET") {
        if same(path, "/flip") {
            let waiting = sp.trigger_flip();
            Response::Wake(
                plain_reply(
                    "200 OK",
                    if waiting {
                        "ok, printing the backs\n"
                    } else {
                        "no job is waiting for a flip\n"
                    },
                ),
            )
        } else {
            let page = status_page(sp, name, uri);
            Response::Done(plain_reply("200 OK", page.as_str()))
        }
    } else {
        Response::Done(plain_reply("405 Method Not Allowed", "nope\n"))
    }
}

// ------------------------------------------------------------------- laws

/// The status and the request id of what comes of a request, where it is
/// answered at once.
pub open spec fn answered(out: OutcomeView) -> Option<(u16, u32)> {
    match out {
        OutcomeView::Reply(m) => Some((m.op_status, m.request_id)),
        OutcomeView::Print(m, _) => Some((m.op_status, m.request_id)),
        OutcomeView::Canceled(m) => Some((m.op_status, m.request_id)),
        OutcomeView::AskPrinter => None,
    }
}

/// Every answer names the request that it answers.
pub proof fn law_answers_name_their_request(sp: SpoolerView, port: u16, req: MsgView)
    ensures
        answered(ipp_outcome(sp, port, req).1) matches Some((_, id)) ==> id == req.request_id,
{
}

/// A request that is refused changes nothing, except that a Send-Document may
/// abort the job that it was for.
pub proof fn law_refusal_changes_nothing(sp: SpoolerView, port: u16, req: MsgView)
    requires
        req.op_status != OP_SEND_DOCUMENT,
        answered(ipp_outcome(sp, port, req).1) matches Some((status, _)) && status != OK,
    ensures
        ipp_outcome(sp, port, req).0 == sp,
{
}

/// A document that is refused is not printed, and the job that it was for is
/// found aborted where it waited for a document, unless it was canceled.
pub proof fn law_refused_document_aborts(sp: SpoolerView, port: u16, req: MsgView, id: i32)
    requires
        job_id_in(req) == Some(id),
        job_with(sp.jobs, id) matches Some(j) && j.pending_attrs is Some && j.state != J_CANCELED,
        !is_last_document(req) || req.data.len() == 0,
    ensures
        send_document(sp, port, req).1 is Reply,
        job_with(send_document(sp, port, req).0.jobs, id) matches Some(j) && j.state == J_ABORTED
            && j.pending_attrs is None,
{
    law_pending_is_taken(sp, id, id);
    let taken = sp.with_taken(id);
    law_state_is_set(taken, id, J_ABORTED, "multi-document jobs not supported"@, id);
    law_state_is_set(taken, id, J_ABORTED, "empty document"@, id);
}

/// A job gets one document: after a Send-Document, whatever came of it, another
/// one for the same job is not possible.
pub proof fn law_one_document_per_job(
    sp: SpoolerView,
    port: u16,
    first: MsgView,
    second: MsgView,
    id: i32,
)
    requires
        job_id_in(first) == Some(id),
        job_id_in(second) == Some(id),
        job_with(sp.jobs, id) is Some,
    ensures
        send_document(send_document(sp, port, first).0, port, second).1 == refuse(
            ERR_NOT_POSSIBLE,
            second,
        ),
{
    law_pending_is_taken(sp, id, id);
    let taken = sp.with_taken(id);
    law_state_is_set(taken, id, J_ABORTED, "multi-document jobs not supported"@, id);
    law_state_is_set(taken, id, J_ABORTED, "empty document"@, id);
}

/// A document that is accepted becomes a job that is found pending under the id
/// in the answer, with the name and the user of the request, and that document
/// is what is printed.
pub proof fn law_accepted_job_is_found(sp: SpoolerView, port: u16, req: MsgView, query: MsgView)
    requires
        req.data.len() > 0,
        job_id_in(query) == Some(sp.next_id),
    ensures
        ({
            let (after, out) = print_job(sp, port, req);
            &&& out matches OutcomeView::Print(_, task) && task.id == sp.next_id && task.data
                == req.data
            &&& job_with(after.jobs, sp.next_id) == Some(
                sp.fresh(job_name_in(req), user_in(req), None),
            )
            &&& get_job_attrs(after, port, query) == with_group(
                response_msg(OK, query.request_id),
                job_details(port, sp.fresh(job_name_in(req), user_in(req), None)),
            )
        }),
{
    law_new_job_is_found(sp, job_name_in(req), user_in(req), None, sp.next_id);
}

/// Create-Job and then Send-Document print what Print-Job prints: the document,
/// with the job attributes that the job was created with.
pub proof fn law_created_job_takes_its_document(
    sp: SpoolerView,
    port: u16,
    create: MsgView,
    send: MsgView,
)
    requires
        job_id_in(send) == Some(sp.next_id),
        is_last_document(send),
        send.data.len() > 0,
    ensures
        send_document(create_job(sp, port, create).0, port, send).1 matches OutcomeView::Print(
            _,
            task,
        ) && task.id == sp.next_id && task.data == send.data && task.attrs == attrs_in(
            create.groups,
            G_JOB,
        ),
{
    law_new_job_is_found(
        sp,
        job_name_in(create),
        user_in(create),
        Some(attrs_in(create.groups, G_JOB)),
        sp.next_id,
    );
}

/// A job that is not over is canceled when it is asked for, and then is found
/// canceled; to cancel it again is not possible.
pub proof fn law_cancel(sp: SpoolerView, first: MsgView, second: MsgView, id: i32)
    requires
        job_id_in(first) == Some(id),
        job_id_in(second) == Some(id),
        job_with(sp.jobs, id) matches Some(j) && !is_done(j),
    ensures
        ({
            let (after, out) = cancel_job(sp, first);
            &&& out == OutcomeView::Canceled(response_msg(OK, first.request_id))
            &&& after.is_canceled(id)
            &&& cancel_job(after, second) == (after, refuse(ERR_NOT_POSSIBLE, second))
        }),
{
    law_state_is_set(sp, id, J_CANCELED, "canceled"@, id);
}

/// Whatever is asked of it, the spooler keeps its jobs in the order of their ids.
pub proof fn law_requests_keep_order(sp: SpoolerView, port: u16, req: MsgView)
    requires
        sp.in_order(),
    ensures
        ipp_outcome(sp, port, req).0.in_order(),
{
    let name = job_name_in(req);
    let user = user_in(req);
    let attrs = attrs_in(req.groups, G_JOB);
    law_order_is_kept(sp, 0, 0, ""@, name, user, None);
    law_order_is_kept(sp, 0, 0, ""@, name, user, Some(attrs));
    if let Some(id) = job_id_in(req) {
        law_order_is_kept(sp, id, J_CANCELED, "canceled"@, name, user, None);
        let taken = sp.with_taken(id);
        law_order_is_kept(
            taken,
            id,
            J_ABORTED,
            "multi-document jobs not supported"@,
            name,
            user,
            None,
        );
        law_order_is_kept(taken, id, J_ABORTED, "empty document"@, name, user, None);
    }
}

/// No HTTP request changes the order either.
pub proof fn law_http_keeps_order(
    sp: SpoolerView,
    name: Seq<char>,
    uri: Seq<char>,
    port: u16,
    method: Seq<char>,
    path: Seq<char>,
    body: Seq<u8>,
)
    requires
        sp.in_order(),
    ensures
        http_outcome(sp, name, uri, port, method, path, body).0.in_order(),
{
    if let Ok(req) = parse_msg(body) {
        law_requests_keep_order(sp, port, req);
    }
}

/// Jobs are listed by ascending ids, those that are over and the others.
pub proof fn law_listing_ascends(jobs: Seq<JobView>, completed: bool)
    requires
        ascending(jobs),
    ensures
        ascending(jobs_listed(jobs, completed)),
{
    lemma_filter_ascends(jobs, |j: JobView| is_done(j) == completed);
}

/// Whatever is asked of the spooler, a canceled job stays canceled. (The id of
/// the next job is a new job's.)
pub proof fn law_requests_revive_no_job(sp: SpoolerView, port: u16, req: MsgView, id: i32)
    requires
        id != sp.next_id,
        job_with(sp.jobs, id) matches Some(j) && j.state == J_CANCELED,
    ensures
        job_with(ipp_outcome(sp, port, req).0.jobs, id) matches Some(j) && j.state == J_CANCELED,
{
    let name = job_name_in(req);
    let user = user_in(req);
    law_new_job_is_found(sp, name, user, None, id);
    law_new_job_is_found(sp, name, user, Some(attrs_in(req.groups, G_JOB)), id);
    if let Some(asked) = job_id_in(req) {
        law_state_is_set(sp, asked, J_CANCELED, "canceled"@, id);
        law_pending_is_taken(sp, asked, id);
        let taken = sp.with_taken(asked);
        law_state_is_set(taken, asked, J_ABORTED, "multi-document jobs not supported"@, id);
        law_state_is_set(taken, asked, J_ABORTED, "empty document"@, id);
    }
}

/// Every job is listed once, among the jobs that are over or among the others.
pub proof fn law_jobs_are_listed_once(jobs: Seq<JobView>, i: int)
    requires
        0 <= i < jobs.len(),
    ensures
        jobs_listed(jobs, is_done(jobs[i])).contains(jobs[i]),
        !jobs_listed(jobs, !is_done(jobs[i])).contains(jobs[i]),
        jobs_listed(jobs, true).len() + jobs_listed(jobs, false).len() == jobs.len(),
{
    let j = jobs[i];
    let same_kind = |k: JobView| is_done(k) == is_done(j);
    let other_kind = |k: JobView| is_done(k) == !is_done(j);
    jobs.lemma_filter_contains(same_kind, i);
    let others = jobs_listed(jobs, !is_done(j));
    if others.contains(j) {
        let k = choose|k: int| 0 <= k < others.len() && others[k] == j;
        jobs.lemma_filter_pred(other_kind, k);
    }
    lemma_listed_len(jobs);
}

proof fn lemma_listed_len(jobs: Seq<JobView>)
    ensures
        jobs_listed(jobs, true).len() + jobs_listed(jobs, false).len() == jobs.len(),
    decreases jobs.len(),
{
    reveal(Seq::filter);
    if jobs.len() > 0 {
        lemma_listed_len(jobs.drop_last());
    }
}

/// The first value of an attribute reads as a text or as a number; where there is
/// none, the text is the default.
pub proof fn law_values_are_read(a: AttrView, default: Seq<char>)
    ensures
        text_or(None, default) == default,
        number_of(None) is None,
        a.first_str() is None ==> text_or(Some(a), default) == default,
        a.first_str() matches Some(s) ==> text_or(Some(a), default) == s,
        number_of(Some(a)) == a.first_int(),
{
}

/// Who sent a request, what it calls its job and which job it is about are the
/// operation attributes of these names; a name may be a job attribute, too.
pub proof fn law_request_is_read(req: MsgView)
    ensures
        match req.find_in(0x01, "requesting-user-name"@) {
            Some(a) => match a.first_str() {
                Some(s) => user_in(req) == s,
                None => user_in(req) == "anonymous"@,
            },
            None => user_in(req) == "anonymous"@,
        },
        match (req.find_in(0x01, "job-name"@), req.find_in(0x02, "job-name"@)) {
            (Some(a), _) | (None, Some(a)) => match a.first_str() {
                Some(s) => job_name_in(req) == s,
                None => job_name_in(req) == "untitled"@,
            },
            (None, None) => job_name_in(req) == "untitled"@,
        },
        match req.find_in(0x01, "job-id"@) {
            Some(a) => job_id_in(req) == a.first_int(),
            None => job_id_in(req) is None,
        },
{
}

/// A document is the last one unless the request says that it is not.
pub proof fn law_last_document_is_read(req: MsgView)
    ensures
        req.find_in(0x01, "last-document"@) is None ==> is_last_document(req),
        req.find_in(0x01, "last-document"@) == Some(boolean_attr("last-document"@, true))
            ==> is_last_document(req),
        req.find_in(0x01, "last-document"@) == Some(boolean_attr("last-document"@, false))
            ==> !is_last_document(req),
        req.find_in(0x01, "last-document"@) matches Some(a) ==> (is_last_document(req)
            <==> a.values.len() == 0 || (a.values[0].1.len() == 1 && a.values[0].1[0] == 1)),
{
    assert(seq![0u8] != seq![1u8]) by {
        assert(seq![0u8][0] != seq![1u8][0]);
    }
    if let Some(a) = req.find_in(0x01, "last-document"@) {
        if a.values.len() > 0 && a.values[0].1.len() == 1 && a.values[0].1[0] == 1 {
            assert(a.values[0].1 =~= seq![1u8]);
        }
    }
}

proof fn lemma_job_names_differ()
    ensures
        "job-id"@ != "job-uri"@,
        "job-id"@ != "job-state"@,
        "job-id"@ != "job-state-reasons"@,
        "job-id"@ != "job-state-message"@,
        "job-id"@ != "job-name"@,
        "job-id"@ != "job-originating-user-name"@,
        "job-uri"@ != "job-state"@,
        "job-uri"@ != "job-state-reasons"@,
        "job-uri"@ != "job-state-message"@,
        "job-uri"@ != "job-name"@,
        "job-uri"@ != "job-originating-user-name"@,
        "job-state"@ != "job-state-reasons"@,
        "job-state"@ != "job-state-message"@,
        "job-state"@ != "job-name"@,
        "job-state"@ != "job-originating-user-name"@,
        "job-state-reasons"@ != "job-state-message"@,
        "job-state-reasons"@ != "job-name"@,
        "job-state-reasons"@ != "job-originating-user-name"@,
        "job-state-message"@ != "job-name"@,
        "job-state-message"@ != "job-originating-user-name"@,
        "job-name"@ != "job-originating-user-name"@,
{
    reveal_strlit("job-id");
    reveal_strlit("job-uri");
    reveal_strlit("job-state");
    reveal_strlit("job-state-reasons");
    reveal_strlit("job-state-message");
    reveal_strlit("job-name");
    reveal_strlit("job-originating-user-name");
    assert("job-id"@.len() == 6);
    assert("job-uri"@.len() == 7);
    assert("job-state"@.len() == 9);
    assert("job-state-reasons"@.len() == 17);
    assert("job-state-message"@.len() == 17);
    assert("job-name"@.len() == 8);
    assert("job-originating-user-name"@.len() == 25);
    assert("job-state-reasons"@[10] != "job-state-message"@[10]);
}

/// Whether attributes describe a job: its id, its address, its state with the
/// reason, and its message read back from them.
pub open spec fn describes(attrs: Seq<AttrView>, port: u16, j: JobView) -> bool {
    &&& first_named(attrs, "job-id"@) matches Some(a) && a.first_int() == Some(j.id)
    &&& first_named(attrs, "job-uri"@) matches Some(a) && a.first_str() == Some(
        "ipp://127.0.0.1:"@ + decimal(port as nat) + "/jobs/"@ + decimal_int(j.id as int),
    )
    &&& first_named(attrs, "job-state"@) matches Some(a) && a.first_int() == Some(j.state)
    &&& first_named(attrs, "job-state-reasons"@) matches Some(a) && a.first_str() == Some(
        reason_text(j.state),
    )
    &&& first_named(attrs, "job-state-message"@) matches Some(a) && a.first_str() == Some(
        j.message,
    )
}

proof fn lemma_describes(attrs: Seq<AttrView>, more: Seq<AttrView>, port: u16, j: JobView)
    requires
        attrs == job_attrs(port, j.id, j.state, j.message) + more,
    ensures
        describes(attrs, port, j),
{
    lemma_job_names_differ();
    assert(attrs[0].name == "job-id"@);
    assert(attrs[1].name == "job-uri"@);
    assert(attrs[2].name == "job-state"@);
    assert(attrs[3].name == "job-state-reasons"@);
    assert(attrs[4].name == "job-state-message"@);
    lemma_first_named_at(attrs, "job-id"@, 0);
    lemma_first_named_at(attrs, "job-uri"@, 1);
    lemma_first_named_at(attrs, "job-state"@, 2);
    lemma_first_named_at(attrs, "job-state-reasons"@, 3);
    lemma_first_named_at(attrs, "job-state-message"@, 4);
    law_int_reads_back(T_INTEGER, "job-id"@, j.id);
    law_str_reads_back(T_URI, "job-uri"@, job_uri_text(port, j.id));
    law_int_reads_back(T_ENUM, "job-state"@, j.state);
    law_str_reads_back(T_KEYWORD, "job-state-reasons"@, reason_text(j.state));
    law_str_reads_back(T_TEXT, "job-state-message"@, j.message);
}

/// Whether attributes describe a job with its name and its user.
pub open spec fn describes_in_full(attrs: Seq<AttrView>, port: u16, j: JobView) -> bool {
    &&& describes(attrs, port, j)
    &&& first_named(attrs, "job-name"@) matches Some(a) && a.first_str() == Some(j.name)
    &&& first_named(attrs, "job-originating-user-name"@) matches Some(a) && a.first_str() == Some(
        j.user,
    )
}

/// The group about a job describes that job in full.
pub proof fn law_job_is_described(port: u16, j: JobView)
    ensures
        job_details(port, j).tag == 0x02,
        describes_in_full(job_details(port, j).attrs, port, j),
{
    let attrs = job_details(port, j).attrs;
    lemma_describes(
        attrs,
        seq![
            str_attr(T_NAME, "job-name"@, j.name),
            str_attr(T_NAME, "job-originating-user-name"@, j.user),
        ],
        port,
        j,
    );
    lemma_job_names_differ();
    assert(attrs[0].name == "job-id"@);
    assert(attrs[1].name == "job-uri"@);
    assert(attrs[2].name == "job-state"@);
    assert(attrs[3].name == "job-state-reasons"@);
    assert(attrs[4].name == "job-state-message"@);
    assert(attrs[5].name == "job-name"@);
    assert(attrs[6].name == "job-originating-user-name"@);
    lemma_first_named_at(attrs, "job-name"@, 5);
    lemma_first_named_at(attrs, "job-originating-user-name"@, 6);
    law_str_reads_back(T_NAME, "job-name"@, j.name);
    law_str_reads_back(T_NAME, "job-originating-user-name"@, j.user);
}

/// Get-Job-Attributes describes the job that is asked for, in one group, and says
/// that it is not found where there is none. It changes nothing.
pub proof fn law_job_query_is_answered(sp: SpoolerView, port: u16, req: MsgView)
    requires
        req.op_status == 0x0009,
    ensures
        ({
            let (after, out) = ipp_outcome(sp, port, req);
            let found = match job_id_in(req) {
                Some(id) => job_with(sp.jobs, id),
                None => None,
            };
            &&& after == sp
            &&& out matches OutcomeView::Reply(m) && m.request_id == req.request_id && match found {
                Some(j) => m.op_status == 0 && m.groups.len() == 2 && m.groups[1].tag == 0x02
                    && describes_in_full(m.groups[1].attrs, port, j),
                None => m.op_status == 0x0406 && m.groups.len() == 1,
            }
        }),
{
    if let Some(id) = job_id_in(req) {
        if let Some(j) = job_with(sp.jobs, id) {
            law_job_is_described(port, j);
        }
    }
}

/// Get-Jobs describes each job of the kind that is asked for, in a group of its own,
/// by ascending ids: those that are over, in state 7 or above, where the request
/// asks for completed jobs, and the others where it does not. It changes nothing.
pub proof fn law_jobs_query_is_answered(sp: SpoolerView, port: u16, req: MsgView, i: int)
    requires
        req.op_status == 0x000a,
    ensures
        ({
            let (after, out) = ipp_outcome(sp, port, req);
            let completed = req.find_in(0x01, "which-jobs"@) matches Some(a) && a.first_str()
                == Some("completed"@);
            let kind = sp.jobs.filter(|j: JobView| (j.state >= 7) == completed);
            &&& after == sp
            &&& out matches OutcomeView::Reply(m) && m.op_status == 0 && m.request_id
                == req.request_id && m.groups.len() == 1 + kind.len() && (0 <= i < kind.len()
                ==> m.groups[i + 1].tag == 0x02 && describes_in_full(
                m.groups[i + 1].attrs,
                port,
                kind[i],
            ))
        }),
{
    reveal_strlit("completed");
    reveal_strlit("not-completed");
    assert("completed"@.len() == 9);
    assert("not-completed"@.len() == 13);
    let completed = req.find_in(0x01, "which-jobs"@) matches Some(a) && a.first_str() == Some(
        "completed"@,
    );
    assert(asks_completed(req) == completed);
    let kind = sp.jobs.filter(|j: JobView| (j.state >= 7) == completed);
    assert((|j: JobView| (j.state >= 7) == completed) =~= (|j: JobView| is_done(j) == completed));
    assert(kind == jobs_listed(sp.jobs, completed));
    let m = get_jobs(sp, port, req);
    if 0 <= i < kind.len() {
        law_job_is_described(port, kind[i]);
        assert(m.groups[i + 1] == job_details(port, kind[i]));
    }
}

/// Print-Job makes a pending job of the document and prints it: the document, the
/// job's name, its user and its options are those of the request, and the answer
/// describes the new job. A request without a document is refused.
pub proof fn law_document_is_printed(sp: SpoolerView, port: u16, req: MsgView)
    requires
        req.op_status == 0x0002,
    ensures
        ({
            let (after, out) = ipp_outcome(sp, port, req);
            &&& req.data.len() == 0 ==> after == sp && (out matches OutcomeView::Reply(m)
                && m.op_status == 0x0400 && m.request_id == req.request_id)
            &&& req.data.len() > 0 ==> (job_with(after.jobs, sp.next_id) matches Some(j) && j.name
                == job_name_in(req) && j.user == user_in(req) && j.state == 3 && j.pending_attrs
                is None && (out matches OutcomeView::Print(m, task) && accepts_job(
                m,
                req,
                port,
                j,
            ) && task.id == sp.next_id && task.data == req.data && task.attrs == attrs_in(
                req.groups,
                0x02,
            )))
        }),
{
    if req.data.len() > 0 {
        law_new_job_is_found(sp, job_name_in(req), user_in(req), None, sp.next_id);
        let j = sp.fresh(job_name_in(req), user_in(req), None);
        lemma_accepts(port, req, j);
    }
}

/// Whether a response accepts a job: it answers the request with success and
/// describes the job as a pending one.
pub open spec fn accepts_job(m: MsgView, req: MsgView, port: u16, j: JobView) -> bool {
    &&& m.op_status == 0
    &&& m.request_id == req.request_id
    &&& m.groups.len() == 2
    &&& m.groups[1].tag == 0x02
    &&& describes(m.groups[1].attrs, port, (JobView { state: 3, message: seq![], ..j }))
}

proof fn lemma_accepts(port: u16, req: MsgView, j: JobView)
    ensures
        accepts_job(accepted(port, req.request_id, j.id), req, port, j),
{
    reveal_strlit("");
    assert(""@ =~= seq![]);
    let attrs = job_attrs(port, j.id, J_PENDING, ""@);
    let none = Seq::<AttrView>::empty();
    assert(attrs =~= attrs + none);
    lemma_describes(attrs, none, port, (JobView { state: 3, message: seq![], ..j }));
}

/// Create-Job makes a pending job that waits for its document, with the name, the
/// user and the options of the request, and the answer describes it.
pub proof fn law_job_is_created(sp: SpoolerView, port: u16, req: MsgView)
    requires
        req.op_status == 0x0005,
    ensures
        ({
            let (after, out) = ipp_outcome(sp, port, req);
            job_with(after.jobs, sp.next_id) matches Some(j) && j.name == job_name_in(req)
                && j.user == user_in(req) && j.state == 3 && j.pending_attrs == Some(
                attrs_in(req.groups, 0x02),
            ) && (out matches OutcomeView::Reply(m) && accepts_job(m, req, port, j))
        }),
{
    let attrs = Some(attrs_in(req.groups, G_JOB));
    law_new_job_is_found(sp, job_name_in(req), user_in(req), attrs, sp.next_id);
    lemma_accepts(port, req, sp.fresh(job_name_in(req), user_in(req), attrs));
}

/// Send-Document prints the document of a job that waits for one, with the options
/// that the job was created with. It is refused without a job id, for a job that is
/// not there and for one that does not wait; a further document to come, or an empty
/// one, is refused and ends the wait.
pub proof fn law_document_is_sent(sp: SpoolerView, port: u16, req: MsgView)
    requires
        req.op_status == 0x0006,
    ensures
        ({
            let (after, out) = ipp_outcome(sp, port, req);
            let refused = |status: u16| out matches OutcomeView::Reply(m) && m.op_status == status
                && m.request_id == req.request_id;
            match job_id_in(req) {
                None => after == sp && refused(0x0400),
                Some(id) => match job_with(sp.jobs, id) {
                    None => after == sp && refused(0x0406),
                    Some(j) => match j.pending_attrs {
                        None => after == sp && refused(0x0409),
                        Some(attrs) => {
                            &&& job_with(after.jobs, id) matches Some(k) && k.pending_attrs is None
                            &&& !is_last_document(req) ==> refused(0x0501)
                            &&& is_last_document(req) && req.data.len() == 0 ==> refused(0x0400)
                            &&& is_last_document(req) && req.data.len() > 0 ==> (
                            out matches OutcomeView::Print(m, task) && accepts_job(m, req, port, j)
                                && task.id == id && task.data == req.data && task.attrs == attrs)
                        },
                    },
                },
            }
        }),
{
    if let Some(id) = job_id_in(req) {
        if let Some(j) = job_with(sp.jobs, id) {
            law_pending_is_taken(sp, id, id);
            let taken = sp.with_taken(id);
            law_state_is_set(taken, id, J_ABORTED, "multi-document jobs not supported"@, id);
            law_state_is_set(taken, id, J_ABORTED, "empty document"@, id);
            lemma_job_with_id(sp.jobs, id);
            lemma_accepts(port, req, j);
        }
    }
}

/// Cancel-Job cancels a job that is not over. It is refused without a job id, for a
/// job that is not there and for one that is over, in state 7 or above.
pub proof fn law_job_is_canceled(sp: SpoolerView, port: u16, req: MsgView)
    requires
        req.op_status == 0x0008,
    ensures
        ({
            let (after, out) = ipp_outcome(sp, port, req);
            let refused = |status: u16| out matches OutcomeView::Reply(m) && m.op_status == status
                && m.request_id == req.request_id;
            match job_id_in(req) {
                None => after == sp && refused(0x0400),
                Some(id) => match job_with(sp.jobs, id) {
                    None => after == sp && refused(0x0406),
                    Some(j) => if j.state >= 7 {
                        after == sp && refused(0x0409)
                    } else {
                        (job_with(after.jobs, id) matches Some(k) && k.state == 7 && k.message
                            == "canceled"@) && (out matches OutcomeView::Canceled(m) && m.op_status
                            == 0 && m.request_id == req.request_id)
                    },
                },
            }
        }),
{
    if let Some(id) = job_id_in(req) {
        law_state_is_set(sp, id, J_CANCELED, "canceled"@, id);
    }
}

/// Get-Printer-Attributes asks the real printer, Validate-Job succeeds, and an
/// operation that is not one of the eight is not supported. None of them changes
/// anything.
pub proof fn law_other_operations(sp: SpoolerView, port: u16, req: MsgView)
    ensures
        ({
            let (after, out) = ipp_outcome(sp, port, req);
            let replied = |status: u16| out matches OutcomeView::Reply(m) && m.op_status == status
                && m.request_id == req.request_id;
            let op = req.op_status;
            &&& op == 0x000b ==> after == sp && out == OutcomeView::AskPrinter
            &&& op == 0x0004 ==> after == sp && replied(0)
            &&& op != 0x0002 && op != 0x0004 && op != 0x0005 && op != 0x0006 && op != 0x0008 && op
                != 0x0009 && op != 0x000a && op != 0x000b ==> after == sp && replied(0x0501)
        }),
{
}

/// An IPP request is carried out and its answer sent as application/ipp; bytes that
/// are none are answered with a 400 that says why.
pub proof fn law_posts_are_answered(
    sp: SpoolerView,
    name: Seq<char>,
    uri: Seq<char>,
    port: u16,
    path: Seq<char>,
    body: Seq<u8>,
)
    ensures
        ({
            let (after, out) = http_outcome(sp, name, uri, port, "POST"@, path, body);
            match parse_msg(body) {
                Err(e) => after == sp && (out matches ResponseView::Done(r) && r.status
                    == "400 Bad Request"@ && r.content_type == "text/plain"@ && r.body
                    == encode_utf8(e)),
                Ok(req) => after == ipp_outcome(sp, port, req).0 && match ipp_outcome(
                    sp,
                    port,
                    req,
                ).1 {
                    OutcomeView::Reply(m) => out matches ResponseView::Done(r) && carries(r, m),
                    OutcomeView::Print(m, t) => out matches ResponseView::Print(r, u) && carries(
                        r,
                        m,
                    ) && u == t,
                    OutcomeView::Canceled(m) => out matches ResponseView::Wake(r) && carries(r, m),
                    OutcomeView::AskPrinter => out == ResponseView::AskPrinter(req.request_id),
                },
            }
        }),
{
}

/// Whether an HTTP answer carries an IPP response.
pub open spec fn carries(r: ReplyView, m: MsgView) -> bool {
    r.status == "200 OK"@ && r.content_type == "application/ipp"@ && r.body == m.encode()
}

/// To fetch /flip requests the flip, tells whether a job waits for it, and wakes
/// whoever does; any other page is the status page and changes nothing; a method
/// that is neither GET nor POST is not allowed.
pub proof fn law_pages_are_served(
    sp: SpoolerView,
    name: Seq<char>,
    uri: Seq<char>,
    port: u16,
    method: Seq<char>,
    path: Seq<char>,
    body: Seq<u8>,
)
    requires
        method != "POST"@,
    ensures
        ({
            let (after, out) = http_outcome(sp, name, uri, port, method, path, body);
            &&& after.jobs == sp.jobs
            &&& after.next_id == sp.next_id
            &&& after.flip_requested == (sp.flip_requested || (method == "GET"@ && path
                == "/flip"@))
            &&& method == "GET"@ && path == "/flip"@ ==> (out matches ResponseView::Wake(r)
                && r.status == "200 OK"@ && r.body == encode_utf8(
                if exists|i: int| 0 <= i < sp.jobs.len() && (#[trigger] sp.jobs[i]).state == 6 {
                    "ok, printing the backs\n"@
                } else {
                    "no job is waiting for a flip\n"@
                },
            ))
            &&& method == "GET"@ && path != "/flip"@ ==> (out matches ResponseView::Done(r)
                && r.status == "200 OK"@ && r.content_type == "text/plain"@ && r.body
                == encode_utf8(page_text(sp.jobs, name, uri)))
            &&& method != "GET"@ ==> (out matches ResponseView::Done(r) && r.status
                == "405 Method Not Allowed"@)
        }),
{
}

/// The status page names the printers and the way to go on, and has a line for each
/// job, in order, with its id, its name, its user, its state and its message.
pub proof fn law_status_page_lists_the_jobs(
    jobs: Seq<JobView>,
    j: JobView,
    name: Seq<char>,
    uri: Seq<char>,
)
    ensures
        page_text(Seq::<JobView>::empty(), name, uri) == "ipp-duplexd '"@ + name + "' -> "@ + uri
            + "\nGET /flip to continue after flipping the stack\n\n"@,
        page_text(jobs.push(j), name, uri) == page_text(jobs, name, uri) + "job "@ + decimal_int(
            j.id as int,
        ) + " \""@ + j.name + "\" ("@ + j.user + "): "@ + state_text(j.state) + " "@ + j.message
            + "\n"@,
{
    let none = Seq::<JobView>::empty();
    assert(page_text(none, name, uri) =~= "ipp-duplexd '"@ + name + "' -> "@ + uri
        + "\nGET /flip to continue after flipping the stack\n\n"@);
    assert(jobs.push(j).drop_last() =~= jobs);
    assert(jobs.push(j).last() == j);
    assert(page_text(jobs.push(j), name, uri) =~= page_text(jobs, name, uri) + "job "@
        + decimal_int(j.id as int) + " \""@ + j.name + "\" ("@ + j.user + "): "@ + state_text(
        j.state,
    ) + " "@ + j.message + "\n"@);
}

/// A request touches the job that it is about, or the one that it makes, and no
/// other; it never requests a flip.
pub proof fn law_requests_touch_one_job(sp: SpoolerView, port: u16, req: MsgView, other: i32)
    requires
        other != sp.next_id,
        job_id_in(req) != Some(other),
    ensures
        ({
            let after = ipp_outcome(sp, port, req).0;
            &&& job_with(after.jobs, other) == job_with(sp.jobs, other)
            &&& after.flip_requested == sp.flip_requested
            &&& req.op_status != 0x0002 && req.op_status != 0x0005 ==> after.next_id == sp.next_id
        }),
{
    let name = job_name_in(req);
    let user = user_in(req);
    law_new_job_is_found(sp, name, user, None, other);
    law_new_job_is_found(sp, name, user, Some(attrs_in(req.groups, G_JOB)), other);
    if let Some(asked) = job_id_in(req) {
        law_state_is_set(sp, asked, J_CANCELED, "canceled"@, other);
        law_pending_is_taken(sp, asked, other);
        let taken = sp.with_taken(asked);
        law_state_is_set(taken, asked, J_ABORTED, "multi-document jobs not supported"@, other);
        law_state_is_set(taken, asked, J_ABORTED, "empty document"@, other);
    }
}

/// A document that is refused says why in the message of its job, which is found
/// aborted unless it was canceled.
pub proof fn law_refused_document_says_why(sp: SpoolerView, port: u16, req: MsgView, id: i32)
    requires
        req.op_status == 0x0006,
        job_id_in(req) == Some(id),
        job_with(sp.jobs, id) matches Some(j) && j.pending_attrs is Some && j.state != 7,
    ensures
        !is_last_document(req) ==> (job_with(ipp_outcome(sp, port, req).0.jobs, id) matches Some(k)
            && k.state == 8 && k.message == "multi-document jobs not supported"@),
        is_last_document(req) && req.data.len() == 0 ==> (job_with(
            ipp_outcome(sp, port, req).0.jobs,
            id,
        ) matches Some(k) && k.state == 8 && k.message == "empty document"@),
{
    law_pending_is_taken(sp, id, id);
    let taken = sp.with_taken(id);
    law_state_is_set(taken, id, J_ABORTED, "multi-document jobs not supported"@, id);
    law_state_is_set(taken, id, J_ABORTED, "empty document"@, id);
}

} // verus!
