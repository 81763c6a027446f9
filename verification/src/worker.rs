//! One job from its document to the printed stack, as a machine: it is handed
//! what happened and answers with what to do next.

use crate::config::{Blank, Config, ConfigView};
use crate::ipp::{
    attr_views, be32, find_attr, first_named, from_be32, int_attr, msg_result, read_int, signed,
    str_attr, unsigned, value_view, Attr, AttrView, Msg, MsgView,
};
use crate::jobs::{Spooler, SpoolerView, J_ABORTED, J_COMPLETED, J_PROCESSING, J_STOPPED};
use crate::pages::{Cmd, CmdView, Doc, Pick, PickView};
use crate::remote::{
    cancel_msg, cancel_request, forward_message, forward_msg, forward_result, forwarded,
    law_only_eight_attributes_are_kept_back, law_pass_is_sent_as_it_is, state_msg, state_request,
    wait_remote, watch, Watch, WatchView,
};
use crate::server::{attr_number, attr_text, number_of, text_or};
use crate::text::{decimal, decimal_int, push_decimal, push_decimal_int, same};
use crate::uri::{law_number_of_decimal, lemma_decimal};
use crate::wire::{law_int_reads_back, law_str_reads_back};
use vstd::prelude::*;
use vstd::string::StringExecFns;

verus! {

// ------------------------------------------------------ what a job asks for

/// The ranges that a page-ranges attribute holds: of each value of eight bytes,
/// the two numbers in it.
pub open spec fn ranges_in(values: Seq<(u8, Seq<u8>)>) -> Seq<(i32, i32)>
    decreases values.len(),
{
    if values.len() == 0 {
        seq![]
    } else {
        let before = ranges_in(values.drop_last());
        let v = values.last().1;
        if v.len() == 8 {
            before.push(
                (
                    signed(from_be32(v[0], v[1], v[2], v[3])),
                    signed(from_be32(v[4], v[5], v[6], v[7])),
                ),
            )
        } else {
            before
        }
    }
}

/// The page ranges that a job asks for; none means all pages.
pub open spec fn ranges_of(attrs: Seq<AttrView>) -> Seq<(i32, i32)> {
    match first_named(attrs, "page-ranges"@) {
        Some(a) => ranges_in(a.values),
        None => seq![],
    }
}

/// The number of copies that a job asks for, from 1 to 999.
pub open spec fn copies_of(attrs: Seq<AttrView>) -> u32 {
    match number_of(first_named(attrs, "copies"@)) {
        Some(n) => if n < 1 {
            1
        } else if n > 999 {
            999
        } else {
            n as u32
        },
        None => 1,
    }
}

/// Whether a job is to be passed through as it is; otherwise it gets the manual
/// duplex treatment.
pub open spec fn one_sided(attrs: Seq<AttrView>) -> bool {
    text_or(first_named(attrs, "sides"@), "two-sided-long-edge"@) == "one-sided"@
}

/// The page ranges that a job asks for.
pub fn job_ranges(attrs: &Vec<Attr>) -> (r: Vec<(i32, i32)>)
    ensures
        r@ == ranges_of(attr_views(attrs@)),
{
    let mut out: Vec<(i32, i32)> = Vec::new();
    match find_attr(attrs, "page-ranges") {
        Some(a) => {
            let ghost values = a@.values;
            let mut i: usize = 0;
            assert(values.take(0) =~= seq![]);
            while i < a.values.len()
                invariant
                    i <= a.values@.len(),
                    values == a@.values,
                    out@ == ranges_in(values.take(i as int)),
                decreases a.values@.len() - i,
            {
                assert(values.take(i + 1).drop_last() =~= values.take(i as int));
                assert(values.take(i + 1).last() == value_view(a.values@[i as int]));
                let v = &a.values[i].1;
                if v.len() == 8 {
                    out.push((read_int(v[0], v[1], v[2], v[3]), read_int(v[4], v[5], v[6], v[7])));
                }
                i += 1;
            }
            assert(values.take(i as int) =~= values);
        },
        None => {},
    }
    out
}

/// The number of copies that a job asks for.
pub fn job_copies(attrs: &Vec<Attr>) -> (r: u32)
    ensures
        r == copies_of(attr_views(attrs@)),
{
    match attr_number(find_attr(attrs, "copies")) {
        Some(n) => if n < 1 {
            1
        } else if n > 999 {
            999
        } else {
            n as u32
        },
        None => 1,
    }
}

/// Whether a job is to be passed through as it is.
pub fn is_one_sided(attrs: &Vec<Attr>) -> (r: bool)
    ensures
        r == one_sided(attr_views(attrs@)),
{
    let sides = attr_text(find_attr(attrs, "sides"), "two-sided-long-edge");
    same(sides.as_str(), "one-sided")
}

/// The name of a job's directory. The process is part of it: two daemons both
/// have a first job.
pub open spec fn work_dir_text(pid: u32, id: i32) -> Seq<char> {
    "ipp-duplexd-"@ + decimal(pid as nat) + "-job-"@ + decimal_int(id as int)
}

/// The name of a job's directory.
pub fn work_dir_name(pid: u32, id: i32) -> (r: String)
    ensures
        r@ == "ipp-duplexd-"@ + decimal(pid as nat) + "-job-"@ + decimal_int(id as int),
        r@ == work_dir_text(pid, id),
{
    let mut s = "ipp-duplexd-".to_owned();
    push_decimal(&mut s, pid as u64);
    s.append("-job-");
    push_decimal_int(&mut s, id);
    s
}

// ------------------------------------------------------------- the machine

/// What is printed in one go.
#[derive(Clone, Copy, Debug, PartialEq, Eq, Structural)]
pub enum Pass {
    Whole,
    Odd,
    Even,
}

/// What a job waits for.
#[derive(Clone, Copy, Debug, PartialEq, Eq, Structural)]
pub enum Stage {
    /// the document to be saved
    Saving,
    /// the page ranges to be picked out
    Ranging,
    /// the copies to be made
    Copying,
    /// the pages to be counted
    Counting,
    /// the odd pages to be picked out
    SplittingOdd,
    /// the even pages to be picked out
    SplittingEven,
    /// the blank page to be saved
    SavingBlank,
    /// the blank page to be added
    Padding,
    /// the even pages to be turned
    Turning,
    /// the stack to be flipped
    Flipping,
    /// the real printer to accept a pass
    Forwarding(Pass),
    /// the real printer to be back, for a pass that could not be sent
    Holding(Pass),
    /// the next look at a pass: its id there, and the failures in a row
    Watching(Pass, i32, u32),
    /// the state of a pass
    Asking(Pass, i32, u32),
    /// the real printer to cancel a pass
    Canceling(Pass),
    /// nothing more
    Over,
}

/// What happened.
#[derive(Debug)]
pub enum Event {
    /// what was to be done is done
    Done,
    /// so many pages were counted
    Pages(u32),
    /// the real printer replied
    Reply(Msg),
    /// what was to be done failed
    Failed(String),
    /// the real printer could not be reached, so that nothing was sent to it
    Unreachable(String),
    /// the stack may be flipped by now, so many seconds after it was asked for
    Tick(u64),
}

/// What happened as a mathematical value.
#[verifier::ext_equal]
pub enum EventView {
    Done,
    Pages(u32),
    Reply(MsgView),
    Failed(Seq<char>),
    Unreachable(Seq<char>),
    Tick(u64),
}

impl View for Event {
    type V = EventView;

    open spec fn view(&self) -> EventView {
        match self {
            Event::Done => EventView::Done,
            Event::Pages(n) => EventView::Pages(*n),
            Event::Reply(m) => EventView::Reply(m@),
            Event::Failed(e) => EventView::Failed(e@),
            Event::Unreachable(e) => EventView::Unreachable(e@),
            Event::Tick(s) => EventView::Tick(*s),
        }
    }
}

/// What to do next.
#[derive(Debug)]
pub enum Action {
    /// save the document in a new directory
    Save,
    /// save the blank page
    SaveBlank,
    /// run qpdf
    Run(Cmd),
    /// count the pages of a document
    Count(Doc),
    /// send a document to the real printer, with this job name and user
    Forward { doc: Doc, name: String, user: String },
    /// send a request to the real printer
    Ask(Msg),
    /// send a request to the real printer; a failure does not matter
    Cancel(Msg),
    /// wait so many seconds
    Sleep(u64),
    /// ask for the flip, in a dialog too if so, and look whether it is done
    AskFlip { dialog: bool },
    /// wait a little, or until somebody calls, and look whether it is done
    AwaitFlip,
    /// nothing; the job is over, with an error where it failed
    Finish(Option<String>),
}

/// What to do next as a mathematical value.
#[verifier::ext_equal]
pub enum ActionView {
    Save,
    SaveBlank,
    Run(CmdView),
    Count(Doc),
    Forward { doc: Doc, name: Seq<char>, user: Seq<char> },
    Ask(MsgView),
    Cancel(MsgView),
    Sleep(u64),
    AskFlip { dialog: bool },
    AwaitFlip,
    Finish(Option<Seq<char>>),
}

impl View for Action {
    type V = ActionView;

    open spec fn view(&self) -> ActionView {
        match self {
            Action::Save => ActionView::Save,
            Action::SaveBlank => ActionView::SaveBlank,
            Action::Run(cmd) => ActionView::Run(cmd@),
            Action::Count(doc) => ActionView::Count(*doc),
            Action::Forward { doc, name, user } => ActionView::Forward {
                doc: *doc,
                name: name@,
                user: user@,
            },
            Action::Ask(m) => ActionView::Ask(m@),
            Action::Cancel(m) => ActionView::Cancel(m@),
            Action::Sleep(s) => ActionView::Sleep(*s),
            Action::AskFlip { dialog } => ActionView::AskFlip { dialog: *dialog },
            Action::AwaitFlip => ActionView::AwaitFlip,
            Action::Finish(e) => ActionView::Finish(
                match e {
                    Some(e) => Some(e@),
                    None => None,
                },
            ),
        }
    }
}

/// A job on its way.
#[derive(Debug)]
pub struct Worker {
    pub id: i32,
    pub attrs: Vec<Attr>,
    pub stage: Stage,
    /// the whole document, as it is to be printed
    pub doc: Doc,
    /// the pages of the even pass, as far as they are made
    pub even: Doc,
    pub npages: u32,
}

/// A job on its way as a mathematical value.
#[verifier::ext_equal]
pub struct WorkerView {
    pub id: i32,
    pub attrs: Seq<AttrView>,
    pub stage: Stage,
    pub doc: Doc,
    pub even: Doc,
    pub npages: u32,
}

impl View for Worker {
    type V = WorkerView;

    open spec fn view(&self) -> WorkerView {
        WorkerView {
            id: self.id,
            attrs: attr_views(self.attrs@),
            stage: self.stage,
            doc: self.doc,
            even: self.even,
            npages: self.npages,
        }
    }
}

/// Whether the event is an answer to what a job in that stage waits for.
pub open spec fn answers(ev: EventView, stage: Stage) -> bool {
    match stage {
        Stage::Counting => ev is Pages || ev is Failed,
        Stage::Flipping => ev is Tick,
        Stage::Forwarding(_) | Stage::Asking(_, _, _) | Stage::Canceling(_) => ev is Reply
            || ev is Failed || ev is Unreachable,
        Stage::Holding(_) | Stage::Watching(_, _, _) => ev is Done,
        Stage::Over => false,
        _ => ev is Done || ev is Failed,
    }
}

/// What the user is told to do about the stack.
pub open spec fn flip_hint(cfg: ConfigView, port: u16) -> Seq<char> {
    if cfg.auto_continue > 0 {
        "backs print in "@ + decimal(cfg.auto_continue as nat) + "s"@
    } else if cfg.gui {
        "click OK in the dialog"@
    } else {
        "then: curl http://127.0.0.1:"@ + decimal(port as nat) + "/flip"@
    }
}

/// The message of a job while a pass of it is printed.
pub open spec fn message_of(pass: Pass) -> Seq<char> {
    match pass {
        Pass::Whole => "printing (pass-through)"@,
        Pass::Odd => "printing odd pages"@,
        Pass::Even => "printing even pages"@,
    }
}

/// What a pass adds to the name of its job.
pub open spec fn suffix_of(pass: Pass) -> Seq<char> {
    match pass {
        Pass::Whole => ""@,
        Pass::Odd => " [odd pages]"@,
        Pass::Even => " [even pages]"@,
    }
}

/// A job, the table of jobs, and what to do next.
pub type StepView = (WorkerView, SpoolerView, ActionView);

impl WorkerView {
    /// The Print-Job request for a pass of the job.
    pub open spec fn pass_msg(
        self,
        cfg: ConfigView,
        name: Seq<char>,
        user: Seq<char>,
        data: Seq<u8>,
    ) -> MsgView {
        forward_msg(cfg.printer.uri, name, user, self.attrs, data)
    }

    /// The job in another stage.
    pub open spec fn at(self, stage: Stage) -> WorkerView {
        WorkerView { stage, ..self }
    }

    /// A job whose turn has come. One that was canceled meanwhile is over.
    pub open spec fn begun(id: i32, attrs: Seq<AttrView>, sp: SpoolerView) -> StepView {
        let w = WorkerView {
            id,
            attrs,
            stage: Stage::Saving,
            doc: Doc::Input,
            even: Doc::Even,
            npages: 0,
        };
        if sp.is_canceled(id) {
            (w.at(Stage::Over), sp, ActionView::Finish(None))
        } else {
            (w, sp.with_state(id, J_PROCESSING, "preparing"@), ActionView::Save)
        }
    }

    /// The job failed.
    pub open spec fn failed(self, sp: SpoolerView, e: Seq<char>) -> StepView {
        (
            self.at(Stage::Over),
            sp.with_state(self.id, J_ABORTED, e),
            ActionView::Finish(Some(e)),
        )
    }

    /// The job is printed.
    pub open spec fn printed(self, sp: SpoolerView, message: Seq<char>) -> StepView {
        (
            self.at(Stage::Over),
            sp.with_state(self.id, J_COMPLETED, message),
            ActionView::Finish(None),
        )
    }

    /// A command comes next.
    pub open spec fn runs(self, sp: SpoolerView, stage: Stage, cmd: CmdView) -> StepView {
        (self.at(stage), sp, ActionView::Run(cmd))
    }

    /// The document of a pass.
    pub open spec fn doc_of(self, pass: Pass) -> Doc {
        match pass {
            Pass::Whole => self.doc,
            Pass::Odd => Doc::Odd,
            Pass::Even => self.even,
        }
    }

    /// A pass goes to the real printer, under the job's name with a suffix.
    pub open spec fn forwards(self, sp: SpoolerView, pass: Pass) -> StepView {
        (
            self.at(Stage::Forwarding(pass)),
            sp.with_state(self.id, J_PROCESSING, message_of(pass)),
            ActionView::Forward {
                doc: self.doc_of(pass),
                name: sp.name_of(self.id) + suffix_of(pass),
                user: sp.user_of(self.id),
            },
        )
    }

    /// The real printer could not be reached: the pass is held until it is back.
    pub open spec fn held(self, sp: SpoolerView, cfg: ConfigView, pass: Pass) -> StepView {
        (self.at(Stage::Holding(pass)), sp, ActionView::Sleep(cfg.poll))
    }

    /// Another try to send a pass that was held, unless the job was canceled.
    pub open spec fn tries(self, sp: SpoolerView, pass: Pass) -> StepView {
        if sp.is_canceled(self.id) {
            (self.at(Stage::Over), sp, ActionView::Finish(None))
        } else {
            self.forwards(sp, pass)
        }
    }

    /// The document is saved: page ranges first.
    pub open spec fn saved(self, sp: SpoolerView) -> StepView {
        let ranges = ranges_of(self.attrs);
        if ranges.len() > 0 {
            self.runs(
                sp,
                Stage::Ranging,
                CmdView::Select {
                    from: self.doc,
                    pick: PickView::Ranges(ranges),
                    to: Doc::Ranged,
                },
            )
        } else {
            self.ranged(sp)
        }
    }

    /// The page ranges are applied: copies next, all of them before the split,
    /// so that one flip covers them.
    pub open spec fn ranged(self, sp: SpoolerView) -> StepView {
        if copies_of(self.attrs) > 1 {
            self.runs(
                sp,
                Stage::Copying,
                CmdView::Repeat { from: self.doc, times: copies_of(self.attrs), to: Doc::Copies },
            )
        } else {
            self.prepared(sp)
        }
    }

    /// The document is as it is to be printed: all of it at once, or in two
    /// passes.
    pub open spec fn prepared(self, sp: SpoolerView) -> StepView {
        if one_sided(self.attrs) {
            self.forwards(sp, Pass::Whole)
        } else {
            (self.at(Stage::Counting), sp, ActionView::Count(self.doc))
        }
    }

    /// The pages are counted: the odd ones first.
    pub open spec fn counted(self, sp: SpoolerView, npages: u32) -> StepView {
        WorkerView { npages, ..self }.runs(
            sp,
            Stage::SplittingOdd,
            CmdView::Select { from: self.doc, pick: PickView::Odd, to: Doc::Odd },
        )
    }

    /// A look at the pass that is being printed. Where the job was canceled, so
    /// is the pass.
    pub open spec fn looks(
        self,
        sp: SpoolerView,
        cfg: ConfigView,
        pass: Pass,
        remote_id: i32,
        errors: u32,
    ) -> StepView {
        if sp.is_canceled(self.id) {
            (
                self.at(Stage::Canceling(pass)),
                sp,
                ActionView::Cancel(cancel_msg(cfg.printer.uri, remote_id)),
            )
        } else {
            (
                self.at(Stage::Asking(pass, remote_id, errors)),
                sp,
                ActionView::Ask(state_msg(cfg.printer.uri, remote_id)),
            )
        }
    }

    /// The real printer has replied to a pass.
    pub open spec fn accepted(
        self,
        sp: SpoolerView,
        cfg: ConfigView,
        pass: Pass,
        resp: MsgView,
    ) -> StepView {
        match forward_result(resp) {
            Ok(remote_id) => self.looks(sp, cfg, pass, remote_id, 0),
            Err(e) => self.failed(sp, e),
        }
    }

    /// The real printer has said how a pass goes, or did not reply.
    pub open spec fn told(
        self,
        sp: SpoolerView,
        cfg: ConfigView,
        pass: Pass,
        remote_id: i32,
        errors: u32,
        reply: Result<MsgView, Seq<char>>,
    ) -> StepView {
        match watch(remote_id, errors, reply) {
            WatchView::Again(errors) => (
                self.at(Stage::Watching(pass, remote_id, errors)),
                sp,
                ActionView::Sleep(cfg.poll),
            ),
            WatchView::Printed => self.passed(sp, pass),
            WatchView::Lost(e) => self.failed(sp, e),
        }
    }

    /// A pass is over. The even pages come after the odd ones, from the back:
    /// for an even page count these are the odd places of the reversed document,
    /// for an odd one the even places.
    pub open spec fn passed(self, sp: SpoolerView, pass: Pass) -> StepView {
        match pass {
            Pass::Odd => if self.npages <= 1 {
                self.printed(sp, "done (single page)"@)
            } else {
                self.runs(
                    sp,
                    Stage::SplittingEven,
                    CmdView::Select {
                        from: self.doc,
                        pick: if self.npages % 2 == 0 {
                            PickView::BackOdd
                        } else {
                            PickView::BackEven
                        },
                        to: Doc::Even,
                    },
                )
            },
            _ => self.printed(sp, "done"@),
        }
    }

    /// The even pages are picked out: an odd page count gets a blank page.
    pub open spec fn split(self, sp: SpoolerView, cfg: ConfigView, port: u16) -> StepView {
        let w = WorkerView { even: Doc::Even, ..self };
        if self.npages % 2 == 1 && cfg.blank != Blank::Nowhere {
            (w.at(Stage::SavingBlank), sp, ActionView::SaveBlank)
        } else {
            w.padded(sp, cfg, port)
        }
    }

    /// The blank page is there: it goes to its place.
    pub open spec fn pads(self, sp: SpoolerView, cfg: ConfigView) -> StepView {
        self.runs(
            sp,
            Stage::Padding,
            if cfg.blank == Blank::Trailing {
                CmdView::Join {
                    first: self.even,
                    first_pick: PickView::All,
                    second: Doc::Blank,
                    second_pick: PickView::First,
                    to: Doc::Padded,
                }
            } else {
                CmdView::Join {
                    first: Doc::Blank,
                    first_pick: PickView::First,
                    second: self.even,
                    second_pick: PickView::All,
                    to: Doc::Padded,
                }
            },
        )
    }

    /// The even pages are complete: they are turned.
    pub open spec fn padded(self, sp: SpoolerView, cfg: ConfigView, port: u16) -> StepView {
        if cfg.rotate_even == 180 {
            self.runs(
                sp,
                Stage::Turning,
                CmdView::Turn { from: self.even, to: Doc::Rotated },
            )
        } else {
            self.stops(sp, cfg, port)
        }
    }

    /// The even pages are ready: the job stops until the stack is flipped. A
    /// flip that was requested before does not count.
    pub open spec fn stops(self, sp: SpoolerView, cfg: ConfigView, port: u16) -> StepView {
        (
            self.at(Stage::Flipping),
            SpoolerView { flip_requested: false, ..sp }.with_state(
                self.id,
                J_STOPPED,
                "flip the stack; "@ + flip_hint(cfg, port),
            ),
            ActionView::AskFlip { dialog: cfg.gui && cfg.auto_continue == 0 },
        )
    }

    /// A look whether the stack is flipped: somebody said so, or the time for it
    /// is over.
    pub open spec fn flips(self, sp: SpoolerView, cfg: ConfigView, seconds: u64) -> StepView {
        if sp.is_canceled(self.id) {
            (self.at(Stage::Over), sp, ActionView::Finish(None))
        } else if sp.flip_requested || (cfg.auto_continue > 0 && seconds >= cfg.auto_continue) {
            self.forwards(SpoolerView { flip_requested: false, ..sp }, Pass::Even)
        } else {
            (self, sp, ActionView::AwaitFlip)
        }
    }

    /// What was to be done is done.
    pub open spec fn done(self, sp: SpoolerView, cfg: ConfigView, port: u16) -> StepView {
        match self.stage {
            Stage::Saving => self.saved(sp),
            Stage::Ranging => WorkerView { doc: Doc::Ranged, ..self }.ranged(sp),
            Stage::Copying => WorkerView { doc: Doc::Copies, ..self }.prepared(sp),
            Stage::SplittingOdd => self.forwards(sp, Pass::Odd),
            Stage::SplittingEven => self.split(sp, cfg, port),
            Stage::SavingBlank => self.pads(sp, cfg),
            Stage::Padding => WorkerView { even: Doc::Padded, ..self }.padded(sp, cfg, port),
            Stage::Turning => WorkerView { even: Doc::Rotated, ..self }.stops(sp, cfg, port),
            Stage::Holding(pass) => self.tries(sp, pass),
            Stage::Watching(pass, remote_id, errors) => self.looks(
                sp,
                cfg,
                pass,
                remote_id,
                errors,
            ),
            _ => (self, sp, ActionView::Finish(None)),
        }
    }

    /// What follows from an event that answers what the job waits for.
    pub open spec fn after(
        self,
        sp: SpoolerView,
        cfg: ConfigView,
        port: u16,
        ev: EventView,
    ) -> StepView {
        match ev {
            EventView::Done => self.done(sp, cfg, port),
            EventView::Pages(n) => self.counted(sp, n),
            EventView::Tick(seconds) => self.flips(sp, cfg, seconds),
            EventView::Reply(resp) => match self.stage {
                Stage::Forwarding(pass) => self.accepted(sp, cfg, pass, resp),
                Stage::Asking(pass, remote_id, errors) => self.told(
                    sp,
                    cfg,
                    pass,
                    remote_id,
                    errors,
                    Ok(resp),
                ),
                Stage::Canceling(pass) => self.passed(sp, pass),
                _ => (self, sp, ActionView::Finish(None)),
            },
            EventView::Failed(e) => match self.stage {
                Stage::Asking(pass, remote_id, errors) => self.told(
                    sp,
                    cfg,
                    pass,
                    remote_id,
                    errors,
                    Err(e),
                ),
                Stage::Canceling(pass) => self.passed(sp, pass),
                _ => self.failed(sp, e),
            },
            EventView::Unreachable(e) => match self.stage {
                Stage::Forwarding(pass) => self.held(sp, cfg, pass),
                Stage::Asking(pass, remote_id, errors) => self.told(
                    sp,
                    cfg,
                    pass,
                    remote_id,
                    errors,
                    Err(e),
                ),
                Stage::Canceling(pass) => self.passed(sp, pass),
                _ => (self, sp, ActionView::Finish(None)),
            },
        }
    }
}

/// What the user is told to do about the stack.
pub fn hint(cfg: &Config, port: u16) -> (r: String)
    ensures
        r@ == flip_hint(cfg@, port),
{
    if cfg.auto_continue > 0 {
        let mut s = "backs print in ".to_owned();
        push_decimal(&mut s, cfg.auto_continue);
        s.append("s");
        s
    } else if cfg.gui {
        "click OK in the dialog".to_owned()
    } else {
        let mut s = "then: curl http://127.0.0.1:".to_owned();
        push_decimal(&mut s, port as u64);
        s.append("/flip");
        s
    }
}

impl Worker {
    /// A job whose turn has come, and what to do first.
    pub fn begin(id: i32, attrs: Vec<Attr>, sp: &mut Spooler) -> (r: (Worker, Action))
        ensures
            (r.0@, final(sp)@, r.1@) == WorkerView::begun(id, attr_views(attrs@), old(sp)@),
    {
        let mut w = Worker {
            id,
            attrs,
            stage: Stage::Saving,
            doc: Doc::Input,
            even: Doc::Even,
            npages: 0,
        };
        if sp.job_canceled(id) {
            w.stage = Stage::Over;
            (w, Action::Finish(None))
        } else {
            sp.set_job_state(id, J_PROCESSING, "preparing");
            (w, Action::Save)
        }
    }

    /// Whether the event is an answer to what the job waits for.
    pub fn expects(&self, ev: &Event) -> (r: bool)
        ensures
            r == answers(ev@, self@.stage),
    {
        match self.stage {
            Stage::Counting => matches!(ev, Event::Pages(_) | Event::Failed(_)),
            Stage::Flipping => matches!(ev, Event::Tick(_)),
            Stage::Forwarding(_) | Stage::Asking(_, _, _) | Stage::Canceling(_) => matches!(
                ev,
                Event::Reply(_) | Event::Failed(_) | Event::Unreachable(_)
            ),
            Stage::Holding(_) | Stage::Watching(_, _, _) => matches!(ev, Event::Done),
            Stage::Over => false,
            _ => matches!(ev, Event::Done | Event::Failed(_)),
        }
    }

    /// The Print-Job request for a pass that is to be forwarded.
    pub fn forward_message(&self, cfg: &Config, name: &str, user: &str, data: Vec<u8>) -> (r: Msg)
        ensures
            r@ == forward_msg(cfg@.printer.uri, name@, user@, self@.attrs, data@),
            r@ == self@.pass_msg(cfg@, name@, user@, data@),
    {
        forward_message(cfg.printer.uri.as_str(), name, user, &self.attrs, data)
    }

    fn fail(&mut self, sp: &mut Spooler, e: String) -> (r: Action)
        ensures
            (final(self)@, final(sp)@, r@) == old(self)@.failed(old(sp)@, e@),
    {
        self.stage = Stage::Over;
        sp.set_job_state(self.id, J_ABORTED, e.as_str());
        Action::Finish(Some(e))
    }

    fn complete(&mut self, sp: &mut Spooler, message: &str) -> (r: Action)
        ensures
            (final(self)@, final(sp)@, r@) == old(self)@.printed(old(sp)@, message@),
    {
        self.stage = Stage::Over;
        sp.set_job_state(self.id, J_COMPLETED, message);
        Action::Finish(None)
    }

    fn run(&mut self, sp: &Spooler, stage: Stage, cmd: Cmd) -> (r: Action)
        ensures
            (final(self)@, sp@, r@) == old(self)@.runs(sp@, stage, cmd@),
    {
        self.stage = stage;
        Action::Run(cmd)
    }

    fn forward(&mut self, sp: &mut Spooler, pass: Pass) -> (r: Action)
        ensures
            (final(self)@, final(sp)@, r@) == old(self)@.forwards(old(sp)@, pass),
    {
        let (doc, message, suffix) = match pass {
            Pass::Whole => (self.doc, "printing (pass-through)", ""),
            Pass::Odd => (Doc::Odd, "printing odd pages", " [odd pages]"),
            Pass::Even => (self.even, "printing even pages", " [even pages]"),
        };
        self.stage = Stage::Forwarding(pass);
        let mut name = sp.job_name(self.id);
        name.append(suffix);
        let user = sp.job_user(self.id);
        sp.set_job_state(self.id, J_PROCESSING, message);
        Action::Forward { doc, name, user }
    }

    fn hold(&mut self, sp: &Spooler, cfg: &Config, pass: Pass) -> (r: Action)
        ensures
            (final(self)@, sp@, r@) == old(self)@.held(sp@, cfg@, pass),
    {
        self.stage = Stage::Holding(pass);
        Action::Sleep(cfg.poll)
    }

    fn try_again(&mut self, sp: &mut Spooler, pass: Pass) -> (r: Action)
        ensures
            (final(self)@, final(sp)@, r@) == old(self)@.tries(old(sp)@, pass),
    {
        if sp.job_canceled(self.id) {
            self.stage = Stage::Over;
            Action::Finish(None)
        } else {
            self.forward(sp, pass)
        }
    }

    fn on_saved(&mut self, sp: &mut Spooler) -> (r: Action)
        ensures
            (final(self)@, final(sp)@, r@) == old(self)@.saved(old(sp)@),
    {
        let ranges = job_ranges(&self.attrs);
        if ranges.len() > 0 {
            let from = self.doc;
            self.run(
                sp,
                Stage::Ranging,
                Cmd::Select { from, pick: Pick::Ranges(ranges), to: Doc::Ranged },
            )
        } else {
            self.on_ranged(sp)
        }
    }

    fn on_ranged(&mut self, sp: &mut Spooler) -> (r: Action)
        ensures
            (final(self)@, final(sp)@, r@) == old(self)@.ranged(old(sp)@),
    {
        let times = job_copies(&self.attrs);
        if times > 1 {
            let from = self.doc;
            self.run(sp, Stage::Copying, Cmd::Repeat { from, times, to: Doc::Copies })
        } else {
            self.on_prepared(sp)
        }
    }

    fn on_prepared(&mut self, sp: &mut Spooler) -> (r: Action)
        ensures
            (final(self)@, final(sp)@, r@) == old(self)@.prepared(old(sp)@),
    {
        if is_one_sided(&self.attrs) {
            self.forward(sp, Pass::Whole)
        } else {
            self.stage = Stage::Counting;
            Action::Count(self.doc)
        }
    }

    fn on_counted(&mut self, sp: &Spooler, npages: u32) -> (r: Action)
        ensures
            (final(self)@, sp@, r@) == old(self)@.counted(sp@, npages),
    {
        self.npages = npages;
        let from = self.doc;
        self.run(sp, Stage::SplittingOdd, Cmd::Select { from, pick: Pick::Odd, to: Doc::Odd })
    }

    fn look(
        &mut self,
        sp: &Spooler,
        cfg: &Config,
        pass: Pass,
        remote_id: i32,
        errors: u32,
    ) -> (r: Action)
        ensures
            (final(self)@, sp@, r@) == old(self)@.looks(sp@, cfg@, pass, remote_id, errors),
    {
        if sp.job_canceled(self.id) {
            self.stage = Stage::Canceling(pass);
            Action::Cancel(cancel_request(cfg.printer.uri.as_str(), remote_id))
        } else {
            self.stage = Stage::Asking(pass, remote_id, errors);
            Action::Ask(state_request(cfg.printer.uri.as_str(), remote_id))
        }
    }

    fn on_accepted(&mut self, sp: &mut Spooler, cfg: &Config, pass: Pass, resp: &Msg) -> (r: Action)
        ensures
            (final(self)@, final(sp)@, r@) == old(self)@.accepted(old(sp)@, cfg@, pass, resp@),
    {
        match forwarded(resp) {
            Ok(remote_id) => self.look(sp, cfg, pass, remote_id, 0),
            Err(e) => self.fail(sp, e),
        }
    }

    fn on_told(
        &mut self,
        sp: &mut Spooler,
        cfg: &Config,
        pass: Pass,
        remote_id: i32,
        errors: u32,
        reply: &Result<Msg, String>,
    ) -> (r: Action)
        ensures
            (final(self)@, final(sp)@, r@) == old(self)@.told(
                old(sp)@,
                cfg@,
                pass,
                remote_id,
                errors,
                msg_result(*reply),
            ),
    {
        match wait_remote(remote_id, errors, reply) {
            Watch::Again(errors) => {
                self.stage = Stage::Watching(pass, remote_id, errors);
                Action::Sleep(cfg.poll)
            },
            Watch::Printed => self.on_passed(sp, pass),
            Watch::Lost(e) => self.fail(sp, e),
        }
    }

    fn on_passed(&mut self, sp: &mut Spooler, pass: Pass) -> (r: Action)
        ensures
            (final(self)@, final(sp)@, r@) == old(self)@.passed(old(sp)@, pass),
    {
        match pass {
            Pass::Odd => if self.npages <= 1 {
                self.complete(sp, "done (single page)")
            } else {
                let from = self.doc;
                let pick = if self.npages % 2 == 0 {
                    Pick::BackOdd
                } else {
                    Pick::BackEven
                };
                self.run(sp, Stage::SplittingEven, Cmd::Select { from, pick, to: Doc::Even })
            },
            _ => self.complete(sp, "done"),
        }
    }

    fn on_split(&mut self, sp: &mut Spooler, cfg: &Config, port: u16) -> (r: Action)
        ensures
            (final(self)@, final(sp)@, r@) == old(self)@.split(old(sp)@, cfg@, port),
    {
        self.even = Doc::Even;
        if self.npages % 2 == 1 && cfg.blank != Blank::Nowhere {
            self.stage = Stage::SavingBlank;
            Action::SaveBlank
        } else {
            self.on_padded(sp, cfg, port)
        }
    }

    fn pad(&mut self, sp: &Spooler, cfg: &Config) -> (r: Action)
        ensures
            (final(self)@, sp@, r@) == old(self)@.pads(sp@, cfg@),
    {
        let even = self.even;
        let cmd = if cfg.blank == Blank::Trailing {
            Cmd::Join {
                first: even,
                first_pick: Pick::All,
                second: Doc::Blank,
                second_pick: Pick::First,
                to: Doc::Padded,
            }
        } else {
            Cmd::Join {
                first: Doc::Blank,
                first_pick: Pick::First,
                second: even,
                second_pick: Pick::All,
                to: Doc::Padded,
            }
        };
        self.run(sp, Stage::Padding, cmd)
    }

    fn on_padded(&mut self, sp: &mut Spooler, cfg: &Config, port: u16) -> (r: Action)
        ensures
            (final(self)@, final(sp)@, r@) == old(self)@.padded(old(sp)@, cfg@, port),
    {
        if cfg.rotate_even == 180 {
            let from = self.even;
            self.run(sp, Stage::Turning, Cmd::Turn { from, to: Doc::Rotated })
        } else {
            self.stop(sp, cfg, port)
        }
    }

    fn stop(&mut self, sp: &mut Spooler, cfg: &Config, port: u16) -> (r: Action)
        ensures
            (final(self)@, final(sp)@, r@) == old(self)@.stops(old(sp)@, cfg@, port),
    {
        sp.flip_requested = false;
        self.stage = Stage::Flipping;
        let mut message = "flip the stack; ".to_owned();
        message.append(hint(cfg, port).as_str());
        sp.set_job_state(self.id, J_STOPPED, message.as_str());
        Action::AskFlip { dialog: cfg.gui && cfg.auto_continue == 0 }
    }

    fn on_tick(&mut self, sp: &mut Spooler, cfg: &Config, seconds: u64) -> (r: Action)
        ensures
            (final(self)@, final(sp)@, r@) == old(self)@.flips(old(sp)@, cfg@, seconds),
    {
        if sp.job_canceled(self.id) {
            self.stage = Stage::Over;
            Action::Finish(None)
        } else if sp.flip_requested || (cfg.auto_continue > 0 && seconds >= cfg.auto_continue) {
            sp.flip_requested = false;
            self.forward(sp, Pass::Even)
        } else {
            Action::AwaitFlip
        }
    }

    fn on_done(&mut self, sp: &mut Spooler, cfg: &Config, port: u16) -> (r: Action)
        ensures
            (final(self)@, final(sp)@, r@) == old(self)@.done(old(sp)@, cfg@, port),
    {
        match self.stage {
            Stage::Saving => self.on_saved(sp),
            Stage::Ranging => {
                self.doc = Doc::Ranged;
                self.on_ranged(sp)
            },
            Stage::Copying => {
                self.doc = Doc::Copies;
                self.on_prepared(sp)
            },
            Stage::SplittingOdd => self.forward(sp, Pass::Odd),
            Stage::SplittingEven => self.on_split(sp, cfg, port),
            Stage::SavingBlank => self.pad(sp, cfg),
            Stage::Padding => {
                self.even = Doc::Padded;
                self.on_padded(sp, cfg, port)
            },
            Stage::Turning => {
                self.even = Doc::Rotated;
                self.stop(sp, cfg, port)
            },
            Stage::Holding(pass) => self.try_again(sp, pass),
            Stage::Watching(pass, remote_id, errors) => self.look(
                sp,
                cfg,
                pass,
                remote_id,
                errors,
            ),
            _ => Action::Finish(None),
        }
    }

    /// Takes what happened and says what to do next.
    pub fn process_job(&mut self, sp: &mut Spooler, cfg: &Config, port: u16, ev: Event) -> (r:
        Action)
        requires
            answers(ev@, old(self)@.stage),
        ensures
            (final(self)@, final(sp)@, r@) == old(self)@.after(old(sp)@, cfg@, port, ev@),
    {
        match ev {
            Event::Done => self.on_done(sp, cfg, port),
            Event::Pages(n) => self.on_counted(sp, n),
            Event::Tick(seconds) => self.on_tick(sp, cfg, seconds),
            Event::Reply(resp) => match self.stage {
                Stage::Forwarding(pass) => self.on_accepted(sp, cfg, pass, &resp),
                Stage::Asking(pass, remote_id, errors) => self.on_told(
                    sp,
                    cfg,
                    pass,
                    remote_id,
                    errors,
                    &Ok(resp),
                ),
                Stage::Canceling(pass) => self.on_passed(sp, pass),
                _ => Action::Finish(None),
            },
            Event::Failed(e) => match self.stage {
                Stage::Asking(pass, remote_id, errors) => self.on_told(
                    sp,
                    cfg,
                    pass,
                    remote_id,
                    errors,
                    &Err(e),
                ),
                Stage::Canceling(pass) => self.on_passed(sp, pass),
                _ => self.fail(sp, e),
            },
            Event::Unreachable(e) => match self.stage {
                Stage::Forwarding(pass) => self.hold(sp, cfg, pass),
                Stage::Asking(pass, remote_id, errors) => self.on_told(
                    sp,
                    cfg,
                    pass,
                    remote_id,
                    errors,
                    &Err(e),
                ),
                Stage::Canceling(pass) => self.on_passed(sp, pass),
                _ => Action::Finish(None),
            },
        }
    }
}

// ------------------------------------------------------------------- laws

/// A range as a page-ranges attribute carries it: both numbers in four bytes.
pub open spec fn range_value(tag: u8, lo: i32, hi: i32) -> (u8, Seq<u8>) {
    (tag, be32(unsigned(lo)) + be32(unsigned(hi)))
}

proof fn lemma_range_read(values: Seq<(u8, Seq<u8>)>, tag: u8, lo: i32, hi: i32)
    ensures
        ranges_in(values.push(range_value(tag, lo, hi))) == ranges_in(values).push((lo, hi)),
{
    let v = range_value(tag, lo, hi).1;
    let all = values.push(range_value(tag, lo, hi));
    assert(all.drop_last() =~= values);
    assert(all.last().1 == v);
    assert(v[0] == be32(unsigned(lo))[0] && v[1] == be32(unsigned(lo))[1]);
    assert(v[2] == be32(unsigned(lo))[2] && v[3] == be32(unsigned(lo))[3]);
    assert(v[4] == be32(unsigned(hi))[0] && v[5] == be32(unsigned(hi))[1]);
    assert(v[6] == be32(unsigned(hi))[2] && v[7] == be32(unsigned(hi))[3]);
    law_int_reads_back(tag, ""@, lo);
    law_int_reads_back(tag, ""@, hi);
    assert(int_attr(tag, ""@, lo).first_int() == Some(lo));
    assert(int_attr(tag, ""@, hi).first_int() == Some(hi));
}

proof fn lemma_ranges_read(ranges: Seq<(i32, i32)>, tag: u8)
    ensures
        ranges_in(ranges.map_values(|r: (i32, i32)| range_value(tag, r.0, r.1))) == ranges,
    decreases ranges.len(),
{
    let f = |r: (i32, i32)| range_value(tag, r.0, r.1);
    if ranges.len() == 0 {
        assert(ranges_in(ranges.map_values(f)) =~= ranges);
    } else {
        let front = ranges.drop_last();
        let r = ranges.last();
        lemma_ranges_read(front, tag);
        lemma_range_read(front.map_values(f), tag, r.0, r.1);
        assert(ranges.map_values(f) =~= front.map_values(f).push(range_value(tag, r.0, r.1)));
        assert(ranges =~= front.push(r));
    }
}

/// The ranges of a job are those that its page-ranges attribute was made of, all of
/// them, in order, single pages included. A job without the attribute has none.
pub proof fn law_ranges_read_back(attrs: Seq<AttrView>, tag: u8, ranges: Seq<(i32, i32)>)
    ensures
        first_named(attrs, "page-ranges"@) == Some(
            AttrView {
                name: "page-ranges"@,
                values: ranges.map_values(|r: (i32, i32)| range_value(tag, r.0, r.1)),
            },
        ) ==> ranges_of(attrs) == ranges,
        first_named(attrs, "page-ranges"@) is None ==> ranges_of(attrs).len() == 0,
{
    lemma_ranges_read(ranges, tag);
}

/// Every value of eight bytes is one range more, whatever stands beside it, and any
/// other value is none.
pub proof fn law_every_range_counts(
    values: Seq<(u8, Seq<u8>)>,
    tag: u8,
    lo: i32,
    hi: i32,
    other: (u8, Seq<u8>),
)
    requires
        other.1.len() != 8,
    ensures
        ranges_in(values.push(range_value(tag, lo, hi))) == ranges_in(values).push((lo, hi)),
        ranges_in(values.push(other)) == ranges_in(values),
{
    lemma_range_read(values, tag, lo, hi);
    assert(values.push(other).drop_last() =~= values);
    assert(values.push(other).last() == other);
}

/// The copies of a job are those that it asks for, at least one and at most 999;
/// a job that asks for none is printed once.
pub proof fn law_copies_read_back(attrs: Seq<AttrView>, tag: u8, n: i32)
    ensures
        first_named(attrs, "copies"@) == Some(int_attr(tag, "copies"@, n)) ==> copies_of(attrs)
            == (if n < 1 {
            1
        } else if n > 999 {
            999
        } else {
            n as int
        }),
        first_named(attrs, "copies"@) is None ==> copies_of(attrs) == 1,
        1 <= copies_of(attrs) <= 999,
{
    law_int_reads_back(tag, "copies"@, n);
}

/// A job is passed through exactly if it says that it is one-sided; one that says
/// nothing is printed on both sides.
pub proof fn law_sides_read_back(attrs: Seq<AttrView>, tag: u8, sides: Seq<char>)
    ensures
        first_named(attrs, "sides"@) == Some(str_attr(tag, "sides"@, sides)) ==> (one_sided(attrs)
            <==> sides == "one-sided"@),
        first_named(attrs, "sides"@) is None ==> !one_sided(attrs),
{
    law_str_reads_back(tag, "sides"@, sides);
    reveal_strlit("one-sided");
    reveal_strlit("two-sided-long-edge");
    assert("one-sided"@.len() == 9);
    assert("two-sided-long-edge"@.len() == 19);
}

proof fn lemma_decimal_prefix(m: nat, n: nat, a: Seq<char>, b: Seq<char>)
    requires
        decimal(m) + a == decimal(n) + b,
        a.len() == 0 || !('0' <= a[0] <= '9'),
        b.len() == 0 || !('0' <= b[0] <= '9'),
    ensures
        m == n,
        a == b,
{
    let x = decimal(m);
    let y = decimal(n);
    let s = x + a;
    lemma_decimal(m);
    lemma_decimal(n);
    assert(s == y + b);
    if x.len() < y.len() {
        assert(s[x.len() as int] == y[x.len() as int]);
        assert(s[x.len() as int] == a[0]);
    }
    if y.len() < x.len() {
        assert(s[y.len() as int] == x[y.len() as int]);
        assert((y + b)[y.len() as int] == b[0]);
    }
    assert(s.take(x.len() as int) =~= x);
    assert((y + b).take(y.len() as int) =~= y);
    law_number_of_decimal(m, m + n);
    law_number_of_decimal(n, m + n);
    assert(s.skip(x.len() as int) =~= a);
    assert((y + b).skip(y.len() as int) =~= b);
}

/// No two jobs share a directory, be they of one daemon or of two.
pub proof fn law_directories_are_apart(pid: u32, id: i32, other_pid: u32, other_id: i32)
    requires
        work_dir_text(pid, id) == work_dir_text(other_pid, other_id),
    ensures
        pid == other_pid,
        id == other_id,
{
    reveal_strlit("ipp-duplexd-");
    reveal_strlit("-job-");
    assert("ipp-duplexd-"@.len() == 12);
    assert("-job-"@.len() == 5);
    let a = "-job-"@ + decimal_int(id as int);
    let b = "-job-"@ + decimal_int(other_id as int);
    assert(work_dir_text(pid, id).skip(12) =~= decimal(pid as nat) + a);
    assert(work_dir_text(other_pid, other_id).skip(12) =~= decimal(other_pid as nat) + b);
    lemma_decimal_prefix(pid as nat, other_pid as nat, a, b);
    assert(a.skip(5) =~= decimal_int(id as int));
    assert(b.skip(5) =~= decimal_int(other_id as int));
    let x = decimal_int(id as int);
    let y = decimal_int(other_id as int);
    let none = Seq::<char>::empty();
    let p = if id < 0 {
        (-id) as nat
    } else {
        id as nat
    };
    let q = if other_id < 0 {
        (-other_id) as nat
    } else {
        other_id as nat
    };
    lemma_decimal(p);
    lemma_decimal(q);
    assert(id < 0 <==> x[0] == '-');
    assert(other_id < 0 <==> y[0] == '-');
    if id < 0 {
        assert(x.skip(1) =~= decimal(p) + none);
        assert(y.skip(1) =~= decimal(q) + none);
    } else {
        assert(x =~= decimal(p) + none);
        assert(y =~= decimal(q) + none);
    }
    lemma_decimal_prefix(p, q, none, none);
}

/// Whatever comes of an action is expected: work is done or fails, pages are counted
/// or not, a request is replied to, fails, or finds nobody, a sleep ends, and a wait
/// for the flip ends in a look at the clock. A job that is over expects nothing.
pub proof fn law_what_happens_is_expected(stage: Stage, ev: EventView)
    ensures
        match stage {
            Stage::Saving
            | Stage::Ranging
            | Stage::Copying
            | Stage::SplittingOdd
            | Stage::SplittingEven
            | Stage::SavingBlank
            | Stage::Padding
            | Stage::Turning => answers(ev, stage) <==> ev is Done || ev is Failed,
            Stage::Counting => answers(ev, stage) <==> ev is Pages || ev is Failed,
            Stage::Forwarding(_) | Stage::Asking(_, _, _) | Stage::Canceling(_) => answers(ev, stage)
                <==> ev is Reply || ev is Failed || ev is Unreachable,
            Stage::Holding(_) | Stage::Watching(_, _, _) => answers(ev, stage) <==> ev is Done,
            Stage::Flipping => answers(ev, stage) <==> ev is Tick,
            Stage::Over => !answers(ev, stage),
        },
{
}

/// A pass is sent to the printer that the daemon was given, with the document, the
/// name and the user as they are, and with the options of its own job, all but the
/// eight that would change its pages.
pub proof fn law_pass_has_the_options_of_its_job(
    w: WorkerView,
    cfg: ConfigView,
    name: Seq<char>,
    user: Seq<char>,
    data: Seq<u8>,
    option: Seq<char>,
)
    ensures
        ({
            let m = w.pass_msg(cfg, name, user, data);
            &&& m.op_status == 0x0002
            &&& m.data == data
            &&& m.find_in(0x01, "printer-uri"@) matches Some(a) && a.first_str() == Some(
                cfg.printer.uri,
            )
            &&& m.find_in(0x01, "job-name"@) matches Some(a) && a.first_str() == Some(name)
            &&& m.find_in(0x01, "requesting-user-name"@) matches Some(a) && a.first_str() == Some(
                user,
            )
            &&& option != "sides"@ && option != "copies"@ && option != "page-ranges"@ && option
                != "number-up"@ && option != "number-up-layout"@ && option != "page-border"@
                && option != "multiple-document-handling"@ && option != "job-hold-until"@
                ==> m.find_in(0x02, option) == first_named(w.attrs, option)
            &&& m.find_in(0x02, "sides"@) matches Some(a) && a.first_str() == Some("one-sided"@)
        }),
{
    law_pass_is_sent_as_it_is(cfg.printer.uri, name, user, w.attrs, data, option);
    law_pass_is_sent_as_it_is(cfg.printer.uri, name, user, w.attrs, data, "sides"@);
    law_only_eight_attributes_are_kept_back(w.attrs, option);
}

} // verus!
