//! What manual duplex printing amounts to: which pages go to the printer in
//! which order, and that every job on its way keeps to it.

use crate::config::{Blank, ConfigView};
use crate::dialog::{confirms, dialog_outcome, Dialog, Tool};
use crate::ipp::{first_named, int_attr, AttrView, MsgView};
use crate::jobs::{
    any_in_state, job_with, law_canceled_stays_canceled, law_found_job_is_there, law_order_is_kept,
    law_state_is_set, JobView, SpoolerView, J_ABORTED, J_COMPLETED, J_PROCESSING, J_STOPPED,
};
use crate::pages::{
    blank_pages, page_ranges, picked, repeated, turned, CmdView, Doc, PageView, PickView,
};
use crate::remote::{
    cancel_msg, law_accepted_pass_has_the_printers_id, law_cancel_request_is_about_the_pass,
    law_state_decides_the_watch, law_state_request_is_about_the_pass,
};
use crate::server::http_outcome;
use crate::text::decimal;
use crate::worker::{
    answers, copies_of, flip_hint, law_copies_read_back, law_ranges_read_back, message_of,
    one_sided, range_value, ranges_of, ActionView, EventView, Pass, Stage, WorkerView,
};
use vstd::prelude::*;

verus! {

// ------------------------------------------------------------- the passes

/// The pages that a job asks for: its ranges, or all.
pub open spec fn asked(input: Seq<PageView>, attrs: Seq<AttrView>) -> Seq<PageView> {
    if ranges_of(attrs).len() > 0 {
        page_ranges(input, ranges_of(attrs))
    } else {
        input
    }
}

/// The document as it is to be printed: the pages that a job asks for, as many
/// times as it asks for them.
pub open spec fn whole(input: Seq<PageView>, attrs: Seq<AttrView>) -> Seq<PageView> {
    repeated(asked(input, attrs), copies_of(attrs) as nat)
}

/// The front sides, in the order in which they are printed: the first page, the
/// third, and so on.
pub open spec fn fronts(pages: Seq<PageView>) -> Seq<PageView> {
    Seq::new((pages.len() + 1) / 2, |i: int| pages[2 * i])
}

/// The even pages, the last of them first.
pub open spec fn evens(pages: Seq<PageView>) -> Seq<PageView> {
    Seq::new(pages.len() / 2, |i: int| pages[2 * (pages.len() / 2 - 1 - i) + 1])
}

/// The even pages with the blank page of an odd page count.
pub open spec fn padded(pages: Seq<PageView>, blank: Blank) -> Seq<PageView> {
    if pages.len() % 2 == 0 {
        evens(pages)
    } else {
        match blank {
            Blank::Leading => blank_pages() + evens(pages),
            Blank::Trailing => evens(pages) + blank_pages(),
            Blank::Nowhere => evens(pages),
        }
    }
}

/// The back sides, in the order in which they are printed.
pub open spec fn backs(pages: Seq<PageView>, blank: Blank, rotate: u32) -> Seq<PageView> {
    if rotate == 180 {
        turned(padded(pages, blank))
    } else {
        padded(pages, blank)
    }
}

/// The pages of a pass.
pub open spec fn pass_pages(
    pass: Pass,
    input: Seq<PageView>,
    attrs: Seq<AttrView>,
    cfg: ConfigView,
) -> Seq<PageView> {
    let pages = whole(input, attrs);
    match pass {
        Pass::Whole => pages,
        Pass::Odd => fronts(pages),
        Pass::Even => backs(pages, cfg.blank, cfg.rotate_even),
    }
}

/// What is on the back of sheet number `k`, counted from 0: the page after the
/// one on its front, or nothing.
pub open spec fn back_of(pages: Seq<PageView>, k: int) -> PageView {
    if 2 * k + 1 < pages.len() {
        pages[2 * k + 1]
    } else {
        PageView { content: None, turned: false }
    }
}

/// With the blank page leading, the sheets pair up whatever the page count: the
/// odd pass puts page 2k+1 on sheet k, and the even pass, which meets the flipped
/// stack from its last sheet, has on each sheet the page that follows, or a blank
/// one where none does.
pub proof fn law_sheets_pair_up(pages: Seq<PageView>)
    ensures
        fronts(pages).len() == padded(pages, Blank::Leading).len(),
        forall|k: int|
            0 <= k < fronts(pages).len() ==> #[trigger] fronts(pages)[k] == pages[2 * k],
        forall|i: int|
            0 <= i < fronts(pages).len() ==> #[trigger] padded(pages, Blank::Leading)[i]
                == back_of(pages, fronts(pages).len() - 1 - i),
{
    let n = pages.len() as int;
    let m = fronts(pages).len() as int;
    let p = padded(pages, Blank::Leading);
    assert forall|i: int| 0 <= i < m implies #[trigger] p[i] == back_of(pages, m - 1 - i) by {
        if n % 2 == 0 {
            assert(p[i] == pages[2 * (n / 2 - 1 - i) + 1]);
        } else if i == 0 {
            assert(p[0] == blank_pages()[0]);
        } else {
            assert(p[i] == evens(pages)[i - 1]);
        }
    }
}

/// How many blank pages stand before the even pages.
pub open spec fn leading_blanks(n: nat, blank: Blank) -> int {
    if n % 2 == 1 && blank == Blank::Leading {
        1
    } else {
        0
    }
}

/// The place in the even pass of page number `i`, counted from 0, of `n` pages.
pub open spec fn even_place(n: nat, blank: Blank, i: int) -> int {
    n / 2 - 1 - i / 2 + leading_blanks(n, blank)
}

/// Every page is printed once, on one side or the other: page 2k+1 at place k of
/// the odd pass, and page 2k+2 at its place from the back of the even pass, after
/// the blank page where one leads. There are no other places but that of the
/// blank page.
pub proof fn law_every_page_is_printed(pages: Seq<PageView>, blank: Blank, i: int)
    requires
        0 <= i < pages.len(),
    ensures
        fronts(pages).len() == (pages.len() + 1) / 2,
        padded(pages, blank).len() == pages.len() / 2 + (if pages.len() % 2 == 1 && blank
            != Blank::Nowhere {
            1int
        } else {
            0int
        }),
        i % 2 == 0 ==> i / 2 < fronts(pages).len() && fronts(pages)[i / 2] == pages[i],
        i % 2 == 1 ==> ({
            let k = even_place(pages.len(), blank, i);
            0 <= k < padded(pages, blank).len() && padded(pages, blank)[k] == pages[i]
        }),
{
    if i % 2 == 1 {
        let e = evens(pages);
        let k = pages.len() / 2 - 1 - i / 2;
        assert(e[k] == pages[i]);
        assert(padded(pages, blank)[k + leading_blanks(pages.len(), blank)] == e[k]);
    }
}

/// No two pages share a place: of two front sides, and of two back sides.
pub proof fn law_places_are_apart(n: nat, blank: Blank, i: int, j: int)
    requires
        0 <= i < j < n,
        i % 2 == j % 2,
    ensures
        i / 2 < j / 2,
        even_place(n, blank, j) < even_place(n, blank, i),
{
}

/// Turning changes the pages' orientation, not what is on them: with
/// `--rotate-even 180` the even pass is turned page by page, with 0 it is as it
/// was.
pub proof fn law_rotation(pages: Seq<PageView>, blank: Blank, i: int)
    requires
        0 <= i < padded(pages, blank).len(),
    ensures
        backs(pages, blank, 0) == padded(pages, blank),
        backs(pages, blank, 180).len() == padded(pages, blank).len(),
        backs(pages, blank, 180)[i].content == padded(pages, blank)[i].content,
        backs(pages, blank, 180)[i].turned == !padded(pages, blank)[i].turned,
{
}

/// Copies are collated: place `i` of the whole document is the place of the
/// asked pages that `i` falls on when they are laid end to end.
pub proof fn law_copies_are_collated(pages: Seq<PageView>, times: nat, i: int)
    requires
        0 <= i < times * pages.len(),
    ensures
        repeated(pages, times).len() == times * pages.len(),
        repeated(pages, times)[i] == pages[i % (pages.len() as int)],
    decreases times,
{
    let n = pages.len() as int;
    let t = times as int;
    lemma_repeated_len(pages, times);
    assert(times > 0) by (nonlinear_arith)
        requires
            0 <= i < times * n,
            n >= 0,
    ;
    assert((t - 1) * n + n == t * n) by (nonlinear_arith);
    lemma_repeated_len(pages, (times - 1) as nat);
    let before = repeated(pages, (times - 1) as nat);
    if i < before.len() {
        law_copies_are_collated(pages, (times - 1) as nat, i);
        assert(repeated(pages, times)[i] == before[i]);
    } else {
        let k = i - (t - 1) * n;
        assert(repeated(pages, times)[i] == pages[k]);
        assert(i % n == k) by (nonlinear_arith)
            requires
                i == (t - 1) * n + k,
                0 <= k < n,
        ;
    }
}

proof fn lemma_repeated_len(pages: Seq<PageView>, times: nat)
    ensures
        repeated(pages, times).len() == times * pages.len(),
    decreases times,
{
    if times == 0 {
        assert(0 * pages.len() == 0);
    } else {
        lemma_repeated_len(pages, (times - 1) as nat);
        assert((times - 1) * pages.len() + pages.len() == times * pages.len()) by (nonlinear_arith)
            requires
                times > 0,
        ;
    }
}

/// What qpdf is asked to pick from the back is the even pages, the last first,
/// for an even page count and for an odd one.
pub proof fn law_picks_from_the_back(pages: Seq<PageView>)
    ensures
        picked(PickView::Odd, pages) == fronts(pages),
        pages.len() % 2 == 0 ==> picked(PickView::BackOdd, pages) == evens(pages),
        pages.len() % 2 == 1 ==> picked(PickView::BackEven, pages) == evens(pages),
{
    assert(picked(PickView::Odd, pages) =~= fronts(pages));
    if pages.len() % 2 == 0 {
        assert(picked(PickView::BackOdd, pages) =~= evens(pages));
    } else {
        assert(picked(PickView::BackEven, pages) =~= evens(pages));
    }
}

// ------------------------------------------------------- jobs on their way

/// The documents after an action was carried out.
pub open spec fn carried_out(
    docs: Map<Doc, Seq<PageView>>,
    action: ActionView,
    input: Seq<PageView>,
) -> Map<Doc, Seq<PageView>> {
    match action {
        ActionView::Save => docs.insert(Doc::Input, input),
        ActionView::SaveBlank => docs.insert(Doc::Blank, blank_pages()),
        ActionView::Run(cmd) => docs.insert(cmd.makes(), cmd.result(docs)),
        _ => docs,
    }
}

/// Whether an event says the truth about the action: a page count is that of the
/// document that was to be counted.
pub open spec fn truthful(
    ev: EventView,
    action: ActionView,
    docs: Map<Doc, Seq<PageView>>,
) -> bool {
    ev matches EventView::Pages(n) ==> (action matches ActionView::Count(doc) && n
        == docs[doc].len())
}

/// The document is as it is to be printed.
pub open spec fn has_whole(
    w: WorkerView,
    input: Seq<PageView>,
    docs: Map<Doc, Seq<PageView>>,
) -> bool {
    &&& w.doc == Doc::Input || w.doc == Doc::Ranged || w.doc == Doc::Copies
    &&& docs[w.doc] == whole(input, w.attrs)
}

/// The document is to be printed in two passes, and its pages are counted.
pub open spec fn has_count(
    w: WorkerView,
    input: Seq<PageView>,
    docs: Map<Doc, Seq<PageView>>,
) -> bool {
    &&& has_whole(w, input, docs)
    &&& !one_sided(w.attrs)
    &&& w.npages == whole(input, w.attrs).len()
}

/// What a pass needs to be under way.
pub open spec fn under_way(
    w: WorkerView,
    pass: Pass,
    input: Seq<PageView>,
    docs: Map<Doc, Seq<PageView>>,
) -> bool {
    match pass {
        Pass::Whole => one_sided(w.attrs),
        Pass::Odd => has_count(w, input, docs),
        Pass::Even => has_count(w, input, docs) && w.npages > 1,
    }
}

/// The documents of a job hold what they are meant to hold: in each stage, what
/// was made so far, and the action makes the next of it.
pub open spec fn on_track(
    w: WorkerView,
    action: ActionView,
    cfg: ConfigView,
    input: Seq<PageView>,
    docs: Map<Doc, Seq<PageView>>,
) -> bool {
    let pages = whole(input, w.attrs);
    match w.stage {
        Stage::Saving => w.doc == Doc::Input && action == ActionView::Save,
        Stage::Ranging => {
            &&& ranges_of(w.attrs).len() > 0
            &&& docs[Doc::Input] == input
            &&& action == ActionView::Run(
                CmdView::Select {
                    from: Doc::Input,
                    pick: PickView::Ranges(ranges_of(w.attrs)),
                    to: Doc::Ranged,
                },
            )
        },
        Stage::Copying => {
            &&& w.doc == Doc::Input || w.doc == Doc::Ranged
            &&& docs[w.doc] == asked(input, w.attrs)
            &&& action == ActionView::Run(
                CmdView::Repeat { from: w.doc, times: copies_of(w.attrs), to: Doc::Copies },
            )
        },
        Stage::Counting => {
            &&& has_whole(w, input, docs)
            &&& !one_sided(w.attrs)
            &&& action == ActionView::Count(w.doc)
        },
        Stage::SplittingOdd => {
            &&& has_count(w, input, docs)
            &&& action == ActionView::Run(
                CmdView::Select { from: w.doc, pick: PickView::Odd, to: Doc::Odd },
            )
        },
        Stage::SplittingEven => {
            &&& under_way(w, Pass::Even, input, docs)
            &&& action == ActionView::Run(
                CmdView::Select {
                    from: w.doc,
                    pick: if w.npages % 2 == 0 {
                        PickView::BackOdd
                    } else {
                        PickView::BackEven
                    },
                    to: Doc::Even,
                },
            )
        },
        Stage::SavingBlank => {
            &&& under_way(w, Pass::Even, input, docs)
            &&& w.even == Doc::Even
            &&& docs[Doc::Even] == evens(pages)
            &&& w.npages % 2 == 1
            &&& cfg.blank != Blank::Nowhere
            &&& action == ActionView::SaveBlank
        },
        Stage::Padding => {
            &&& under_way(w, Pass::Even, input, docs)
            &&& action matches ActionView::Run(cmd)
            &&& cmd.makes() == Doc::Padded
            &&& cmd.result(docs) == padded(pages, cfg.blank)
        },
        Stage::Turning => {
            &&& under_way(w, Pass::Even, input, docs)
            &&& docs[w.even] == padded(pages, cfg.blank)
            &&& cfg.rotate_even == 180
            &&& action == ActionView::Run(CmdView::Turn { from: w.even, to: Doc::Rotated })
        },
        Stage::Flipping => {
            &&& under_way(w, Pass::Even, input, docs)
            &&& docs[w.even] == backs(pages, cfg.blank, cfg.rotate_even)
            &&& action is AskFlip || action is AwaitFlip
        },
        Stage::Forwarding(pass) => {
            &&& under_way(w, pass, input, docs)
            &&& action matches ActionView::Forward { doc, .. }
            &&& doc == w.doc_of(pass)
            &&& docs[doc] == pass_pages(pass, input, w.attrs, cfg)
        },
        Stage::Holding(pass) => {
            &&& under_way(w, pass, input, docs)
            &&& docs[w.doc_of(pass)] == pass_pages(pass, input, w.attrs, cfg)
            &&& action is Sleep
        },
        Stage::Watching(pass, _, _) => under_way(w, pass, input, docs) && action is Sleep,
        Stage::Asking(pass, _, _) => under_way(w, pass, input, docs) && action is Ask,
        Stage::Canceling(pass) => under_way(w, pass, input, docs) && action is Cancel,
        Stage::Over => action is Finish,
    }
}

/// A job is on track when its turn comes.
pub proof fn law_begins_on_track(
    id: i32,
    attrs: Seq<AttrView>,
    sp: SpoolerView,
    cfg: ConfigView,
    input: Seq<PageView>,
    docs: Map<Doc, Seq<PageView>>,
)
    ensures
        ({
            let (w, _, action) = WorkerView::begun(id, attrs, sp);
            on_track(w, action, cfg, input, docs)
        }),
{
}

proof fn lemma_whole_of_one(input: Seq<PageView>, attrs: Seq<AttrView>)
    requires
        copies_of(attrs) == 1,
    ensures
        whole(input, attrs) == asked(input, attrs),
{
    let pages = asked(input, attrs);
    assert(repeated(pages, 1) == repeated(pages, 0) + pages);
    assert(repeated(pages, 0) + pages =~= pages);
}

proof fn lemma_prepared_on_track(
    w: WorkerView,
    sp: SpoolerView,
    cfg: ConfigView,
    input: Seq<PageView>,
    docs: Map<Doc, Seq<PageView>>,
)
    requires
        has_whole(w, input, docs),
    ensures
        ({
            let (after, _, action) = w.prepared(sp);
            on_track(after, action, cfg, input, docs)
        }),
{
}

proof fn lemma_ranged_on_track(
    w: WorkerView,
    sp: SpoolerView,
    cfg: ConfigView,
    input: Seq<PageView>,
    docs: Map<Doc, Seq<PageView>>,
)
    requires
        w.doc == Doc::Input || w.doc == Doc::Ranged,
        docs[w.doc] == asked(input, w.attrs),
    ensures
        ({
            let (after, _, action) = w.ranged(sp);
            on_track(after, action, cfg, input, docs)
        }),
{
    if copies_of(w.attrs) == 1 {
        lemma_whole_of_one(input, w.attrs);
        lemma_prepared_on_track(w, sp, cfg, input, docs);
    }
}

proof fn lemma_padded_on_track(
    w: WorkerView,
    sp: SpoolerView,
    cfg: ConfigView,
    port: u16,
    input: Seq<PageView>,
    docs: Map<Doc, Seq<PageView>>,
)
    requires
        under_way(w, Pass::Even, input, docs),
        docs[w.even] == padded(whole(input, w.attrs), cfg.blank),
    ensures
        ({
            let (after, _, action) = w.padded(sp, cfg, port);
            on_track(after, action, cfg, input, docs)
        }),
{
}

proof fn lemma_passed_on_track(
    w: WorkerView,
    sp: SpoolerView,
    pass: Pass,
    cfg: ConfigView,
    input: Seq<PageView>,
    docs: Map<Doc, Seq<PageView>>,
)
    requires
        under_way(w, pass, input, docs),
    ensures
        ({
            let (after, _, action) = w.passed(sp, pass);
            on_track(after, action, cfg, input, docs)
        }),
{
}

proof fn lemma_done_on_track(
    w: WorkerView,
    sp: SpoolerView,
    cfg: ConfigView,
    port: u16,
    action: ActionView,
    input: Seq<PageView>,
    docs: Map<Doc, Seq<PageView>>,
)
    requires
        on_track(w, action, cfg, input, docs),
        answers(EventView::Done, w.stage),
    ensures
        ({
            let (after, _, next) = w.done(sp, cfg, port);
            on_track(after, next, cfg, input, carried_out(docs, action, input))
        }),
{
    let now = carried_out(docs, action, input);
    let pages = whole(input, w.attrs);
    match w.stage {
        Stage::Saving => {
            if ranges_of(w.attrs).len() == 0 {
                lemma_ranged_on_track(w, sp, cfg, input, now);
            }
        },
        Stage::Ranging => {
            lemma_ranged_on_track(WorkerView { doc: Doc::Ranged, ..w }, sp, cfg, input, now);
        },
        Stage::Copying => {
            lemma_prepared_on_track(WorkerView { doc: Doc::Copies, ..w }, sp, cfg, input, now);
        },
        Stage::SplittingOdd => {
            law_picks_from_the_back(pages);
        },
        Stage::SplittingEven => {
            law_picks_from_the_back(pages);
            let after = WorkerView { even: Doc::Even, ..w };
            assert(now[Doc::Even] == evens(pages));
            if w.npages % 2 == 0 || cfg.blank == Blank::Nowhere {
                lemma_padded_on_track(after, sp, cfg, port, input, now);
            }
        },
        Stage::SavingBlank => {
            assert(now[Doc::Blank] == blank_pages());
            assert(picked(PickView::First, blank_pages()) =~= blank_pages());
        },
        Stage::Padding => {
            let after = WorkerView { even: Doc::Padded, ..w };
            lemma_padded_on_track(after, sp, cfg, port, input, now);
        },
        _ => {},
    }
}

/// Whatever happens, a job stays on track: each action is the next step towards
/// the passes that it is to print, and each command finds the documents that it
/// needs.
pub proof fn law_stays_on_track(
    w: WorkerView,
    sp: SpoolerView,
    cfg: ConfigView,
    port: u16,
    action: ActionView,
    ev: EventView,
    input: Seq<PageView>,
    docs: Map<Doc, Seq<PageView>>,
)
    requires
        on_track(w, action, cfg, input, docs),
        answers(ev, w.stage),
        truthful(ev, action, docs),
    ensures
        ({
            let (after, _, next) = w.after(sp, cfg, port, ev);
            on_track(
                after,
                next,
                cfg,
                input,
                if ev is Done {
                    carried_out(docs, action, input)
                } else {
                    docs
                },
            )
        }),
{
    match ev {
        EventView::Done => lemma_done_on_track(w, sp, cfg, port, action, input, docs),
        EventView::Pages(_) => {},
        EventView::Tick(_) => {},
        EventView::Reply(resp) => match w.stage {
            Stage::Asking(pass, _, _) => lemma_passed_on_track(w, sp, pass, cfg, input, docs),
            Stage::Canceling(pass) => lemma_passed_on_track(w, sp, pass, cfg, input, docs),
            _ => {},
        },
        EventView::Failed(_) | EventView::Unreachable(_) => match w.stage {
            Stage::Canceling(pass) => lemma_passed_on_track(w, sp, pass, cfg, input, docs),
            _ => {},
        },
    }
}

/// A document that goes to the real printer holds the pages of its pass: the
/// whole document of a one-sided job, the front sides and the back sides of any
/// other.
pub proof fn law_forwarded_pages(
    w: WorkerView,
    doc: Doc,
    name: Seq<char>,
    user: Seq<char>,
    cfg: ConfigView,
    input: Seq<PageView>,
    docs: Map<Doc, Seq<PageView>>,
)
    requires
        on_track(w, ActionView::Forward { doc, name, user }, cfg, input, docs),
    ensures
        w.stage matches Stage::Forwarding(pass) && docs[doc] == pass_pages(
            pass,
            input,
            w.attrs,
            cfg,
        ) && (pass == Pass::Whole <==> one_sided(w.attrs)),
{
}

/// A job that finds the real printer out of reach is not lost: it is held as it
/// is, and printed once the printer is back. The same document goes out again
/// with the next try, as often as it takes, unless the job is canceled.
pub proof fn law_printed_once_the_printer_is_back(
    w: WorkerView,
    sp: SpoolerView,
    cfg: ConfigView,
    port: u16,
    pass: Pass,
    e: Seq<char>,
    later: SpoolerView,
)
    requires
        w.stage == Stage::Forwarding(pass),
        !later.is_canceled(w.id),
    ensures
        ({
            let (held, now, wait) = w.after(sp, cfg, port, EventView::Unreachable(e));
            &&& held == w.at(Stage::Holding(pass))
            &&& now == sp
            &&& wait == ActionView::Sleep(cfg.poll)
            &&& answers(EventView::Done, held.stage)
            &&& held.after(later, cfg, port, EventView::Done) == w.forwards(later, pass)
            &&& held.after(later, cfg, port, EventView::Done).0 == w
        }),
{
}

/// The even pass goes to the real printer only after the flip: the job has
/// stopped for it, was not canceled, and somebody said that the stack is flipped
/// or the time for it is over. (A pass that was held went out before.)
pub proof fn law_backs_wait_for_the_flip(
    w: WorkerView,
    sp: SpoolerView,
    cfg: ConfigView,
    port: u16,
    ev: EventView,
)
    requires
        answers(ev, w.stage),
        w.stage != Stage::Holding(Pass::Even),
        w.after(sp, cfg, port, ev).0.stage == Stage::Forwarding(Pass::Even),
    ensures
        w.stage == Stage::Flipping,
        !sp.is_canceled(w.id),
        ev matches EventView::Tick(seconds) && (sp.flip_requested || (cfg.auto_continue > 0
            && seconds >= cfg.auto_continue)),
{
}

/// A flip that was requested before the job stopped does not count, and one flip
/// continues one job: the request is gone when the job stops and when it goes on.
/// No job requests a flip.
pub proof fn law_flip_is_used_once(
    w: WorkerView,
    sp: SpoolerView,
    cfg: ConfigView,
    port: u16,
    ev: EventView,
)
    requires
        answers(ev, w.stage),
    ensures
        ({
            let (after, now, _) = w.after(sp, cfg, port, ev);
            &&& after.stage == Stage::Forwarding(Pass::Even) && w.stage == Stage::Flipping
                ==> !now.flip_requested
            &&& after.stage == Stage::Flipping && w.stage != Stage::Flipping
                ==> !now.flip_requested
            &&& now.flip_requested ==> sp.flip_requested
        }),
{
}

/// A job that stops for the flip is found stopped, so that the virtual printer
/// says that it needs media, unless it was canceled.
pub proof fn law_waiting_job_is_stopped(
    w: WorkerView,
    sp: SpoolerView,
    cfg: ConfigView,
    port: u16,
    ev: EventView,
)
    requires
        answers(ev, w.stage),
        w.stage != Stage::Flipping,
        w.after(sp, cfg, port, ev).0.stage == Stage::Flipping,
        !sp.is_canceled(w.id),
    ensures
        job_with(w.after(sp, cfg, port, ev).1.jobs, w.id) matches Some(j) && j.state == J_STOPPED,
        any_in_state(w.after(sp, cfg, port, ev).1.jobs, J_STOPPED),
{
    let hint = "flip the stack; "@ + flip_hint(cfg, port);
    let cleared = SpoolerView { flip_requested: false, ..sp };
    law_state_is_set(cleared, w.id, J_STOPPED, hint, w.id);
    law_found_job_is_there(w.after(sp, cfg, port, ev).1.jobs, w.id);
}

/// A job that waits goes on with the even pages at the next look, once somebody
/// has fetched /flip or clicked OK in the dialog, whichever comes first.
pub proof fn law_flip_prints_the_backs(
    w: WorkerView,
    sp: SpoolerView,
    cfg: ConfigView,
    port: u16,
    body: Seq<u8>,
    tool: Tool,
    code: Option<i32>,
    seconds: u64,
)
    requires
        w.stage == Stage::Flipping,
        !sp.is_canceled(w.id),
        confirms(tool, code),
    ensures
        ({
            let fetched = http_outcome(
                sp,
                cfg.name,
                cfg.printer.uri,
                port,
                "GET"@,
                "/flip"@,
                body,
            ).0;
            let clicked = dialog_outcome(sp, tool, Dialog::Closed(code)).0;
            let calm = SpoolerView { flip_requested: false, ..sp };
            &&& w.after(fetched, cfg, port, EventView::Tick(seconds)) == w.forwards(
                calm,
                Pass::Even,
            )
            &&& w.after(clicked, cfg, port, EventView::Tick(seconds)) == w.forwards(
                calm,
                Pass::Even,
            )
        }),
{
    reveal_strlit("GET");
    reveal_strlit("POST");
    assert("GET"@[0] != "POST"@[0]);
}

/// A canceled job that waits for the flip or for the real printer is over at the
/// next look, and nothing more is printed of it. One whose pass is being printed
/// has that pass canceled at the next look.
pub proof fn law_cancel_works_mid_job(
    w: WorkerView,
    sp: SpoolerView,
    cfg: ConfigView,
    port: u16,
    ev: EventView,
)
    requires
        answers(ev, w.stage),
        sp.is_canceled(w.id),
    ensures
        ({
            let (after, now, next) = w.after(sp, cfg, port, ev);
            &&& w.stage == Stage::Flipping || w.stage is Holding ==> after.stage == Stage::Over
                && next == ActionView::Finish(None)
            &&& w.stage matches Stage::Watching(_, remote_id, _) ==> next == ActionView::Cancel(
                cancel_msg(cfg.printer.uri, remote_id),
            )
            &&& !(next is Ask)
        }),
{
}

/// Whatever happens to a job, no canceled job comes back to life.
pub proof fn law_canceled_for_good(
    w: WorkerView,
    sp: SpoolerView,
    cfg: ConfigView,
    port: u16,
    ev: EventView,
    id: i32,
)
    requires
        answers(ev, w.stage),
        sp.is_canceled(id),
    ensures
        w.after(sp, cfg, port, ev).1.is_canceled(id),
{
    let after = w.after(sp, cfg, port, ev).1;
    let cleared = SpoolerView { flip_requested: false, ..sp };
    assert(cleared.is_canceled(id));
    assert forall|state: i32, message: Seq<char>|
        #[trigger] sp.with_state(w.id, state, message).is_canceled(id) by {
        law_canceled_stays_canceled(sp, w.id, state, message, id);
    }
    assert forall|state: i32, message: Seq<char>|
        #[trigger] cleared.with_state(w.id, state, message).is_canceled(id) by {
        law_canceled_stays_canceled(cleared, w.id, state, message, id);
    }
}

/// Whatever happens to a job, the jobs keep the order of their ids.
pub proof fn law_steps_keep_order(
    w: WorkerView,
    sp: SpoolerView,
    cfg: ConfigView,
    port: u16,
    ev: EventView,
)
    requires
        sp.in_order(),
        answers(ev, w.stage),
    ensures
        w.after(sp, cfg, port, ev).1.in_order(),
{
    let cleared = SpoolerView { flip_requested: false, ..sp };
    assert(cleared.in_order());
    assert forall|state: i32, message: Seq<char>|
        #[trigger] sp.with_state(w.id, state, message).in_order() by {
        law_order_is_kept(sp, w.id, state, message, ""@, ""@, None);
    }
    assert forall|state: i32, message: Seq<char>|
        #[trigger] cleared.with_state(w.id, state, message).in_order() by {
        law_order_is_kept(cleared, w.id, state, message, ""@, ""@, None);
    }
}

/// A job whose turn comes leaves the jobs in the order of their ids, too.
pub proof fn law_begins_in_order(id: i32, attrs: Seq<AttrView>, sp: SpoolerView)
    requires
        sp.in_order(),
    ensures
        WorkerView::begun(id, attrs, sp).1.in_order(),
{
    law_order_is_kept(sp, id, J_PROCESSING, "preparing"@, ""@, ""@, None);
}

/// Work that fails ends the job: it is found aborted, with the error as its
/// message, unless it was canceled.
pub proof fn law_failure_aborts(
    w: WorkerView,
    sp: SpoolerView,
    cfg: ConfigView,
    port: u16,
    e: Seq<char>,
)
    requires
        answers(EventView::Failed(e), w.stage),
        !(w.stage is Asking),
        !(w.stage is Canceling),
        !sp.is_canceled(w.id),
    ensures
        ({
            let (after, now, next) = w.after(sp, cfg, port, EventView::Failed(e));
            &&& after.stage == Stage::Over
            &&& next == ActionView::Finish(Some(e))
            &&& job_with(now.jobs, w.id) matches Some(j) && j.state == J_ABORTED && j.message == e
        }),
{
    law_state_is_set(sp, w.id, J_ABORTED, e, w.id);
}

/// How much of a job is ahead of it.
pub open spec fn ahead(stage: Stage) -> nat {
    match stage {
        Stage::Saving => 17,
        Stage::Ranging => 16,
        Stage::Copying => 15,
        Stage::Counting => 14,
        Stage::SplittingOdd => 13,
        Stage::Forwarding(Pass::Odd) | Stage::Holding(Pass::Odd) => 12,
        Stage::Watching(Pass::Odd, _, _) | Stage::Asking(Pass::Odd, _, _) => 11,
        Stage::Canceling(Pass::Odd) => 10,
        Stage::SplittingEven => 9,
        Stage::SavingBlank => 8,
        Stage::Padding => 7,
        Stage::Turning => 6,
        Stage::Flipping => 5,
        Stage::Forwarding(_) | Stage::Holding(_) => 4,
        Stage::Watching(_, _, _) | Stage::Asking(_, _, _) => 3,
        Stage::Canceling(_) => 2,
        Stage::Over => 0,
    }
}

/// A job never goes back, and stands still only while it watches a pass, waits
/// for the flip, or waits for the real printer with a pass that could not be
/// sent. So the odd pages are printed before the even ones, and each pass once.
pub proof fn law_jobs_go_forward(
    w: WorkerView,
    sp: SpoolerView,
    cfg: ConfigView,
    port: u16,
    ev: EventView,
)
    requires
        answers(ev, w.stage),
    ensures
        ahead(w.after(sp, cfg, port, ev).0.stage) < ahead(w.stage) || (ahead(
            w.after(sp, cfg, port, ev).0.stage,
        ) == ahead(w.stage) && (w.stage is Watching || w.stage is Asking || w.stage is Flipping
            || w.stage is Holding || (w.stage is Forwarding && ev is Unreachable))),
{
}

// --------------------------------------------------- what a job comes to

/// The pages of a job are those of its ranges, or all of its pages, one copy behind
/// the other, as many as it asks for.
pub proof fn law_whole_document(
    input: Seq<PageView>,
    attrs: Seq<AttrView>,
    tag: u8,
    ranges: Seq<(i32, i32)>,
    copies: i32,
    i: int,
)
    requires
        first_named(attrs, "copies"@) == Some(int_attr(tag, "copies"@, copies)) || (first_named(
            attrs,
            "copies"@,
        ) is None && copies == 1),
        1 <= copies <= 999,
    ensures
        first_named(attrs, "page-ranges"@) is None ==> ({
            &&& whole(input, attrs).len() == copies * input.len()
            &&& 0 <= i < copies * input.len() ==> whole(input, attrs)[i] == input[i % (
            input.len() as int)]
        }),
        ranges.len() > 0 && first_named(attrs, "page-ranges"@) == Some(
            AttrView {
                name: "page-ranges"@,
                values: ranges.map_values(|r: (i32, i32)| range_value(tag, r.0, r.1)),
            },
        ) ==> ({
            let pages = page_ranges(input, ranges);
            &&& whole(input, attrs).len() == copies * pages.len()
            &&& 0 <= i < copies * pages.len() ==> whole(input, attrs)[i] == pages[i % (
            pages.len() as int)]
        }),
{
    law_copies_read_back(attrs, tag, copies);
    law_ranges_read_back(attrs, tag, ranges);
    let pages = asked(input, attrs);
    lemma_repeated_len(pages, copies as nat);
    if 0 <= i < copies * pages.len() {
        law_copies_are_collated(pages, copies as nat, i);
    }
}

/// A job that waits for the flip goes on with the backs when the time is over that
/// it was given, with a dialog or without: the even pages go to the real printer.
pub proof fn law_time_prints_the_backs(
    w: WorkerView,
    sp: SpoolerView,
    cfg: ConfigView,
    port: u16,
    seconds: u64,
)
    requires
        w.stage == Stage::Flipping,
        !sp.is_canceled(w.id),
        cfg.auto_continue > 0,
        seconds >= cfg.auto_continue,
    ensures
        ({
            let (after, now, action) = w.after(sp, cfg, port, EventView::Tick(seconds));
            &&& after == (WorkerView { stage: Stage::Forwarding(Pass::Even), ..w })
            &&& action matches ActionView::Forward { doc, .. } && doc == w.even
            &&& !now.flip_requested
        }),
{
}

/// What ends the wait for the flip: a flip that is requested, or the time that is
/// over where one is given. Until then the job waits, and nothing changes.
pub proof fn law_wait_for_the_flip(
    w: WorkerView,
    sp: SpoolerView,
    cfg: ConfigView,
    port: u16,
    seconds: u64,
)
    requires
        w.stage == Stage::Flipping,
    ensures
        ({
            let (after, now, action) = w.after(sp, cfg, port, EventView::Tick(seconds));
            &&& sp.is_canceled(w.id) ==> after.stage == Stage::Over && now == sp && action
                == ActionView::Finish(None)
            &&& !sp.is_canceled(w.id) && sp.flip_requested ==> after.stage == Stage::Forwarding(
                Pass::Even,
            ) && action is Forward
            &&& !sp.is_canceled(w.id) && !sp.flip_requested && cfg.auto_continue == 0 ==> after == w
                && now == sp && action == ActionView::AwaitFlip
            &&& !sp.is_canceled(w.id) && !sp.flip_requested && seconds < cfg.auto_continue
                ==> after == w && now == sp && action == ActionView::AwaitFlip
        }),
{
}

/// When the backs are ready, the user is asked for the flip, in a dialog exactly if
/// dialogs are on and no time is given, and is told what to do.
pub proof fn law_flip_is_asked_for(
    w: WorkerView,
    sp: SpoolerView,
    cfg: ConfigView,
    port: u16,
    ev: EventView,
)
    requires
        answers(ev, w.stage),
        w.stage != Stage::Flipping,
        w.after(sp, cfg, port, ev).0.stage == Stage::Flipping,
    ensures
        w.after(sp, cfg, port, ev).2 == (ActionView::AskFlip {
            dialog: cfg.gui && cfg.auto_continue == 0,
        }),
        !sp.is_canceled(w.id) ==> (job_with(w.after(sp, cfg, port, ev).1.jobs, w.id) matches Some(
            j,
        ) && j.message == "flip the stack; "@ + (if cfg.auto_continue > 0 {
            "backs print in "@ + decimal(cfg.auto_continue as nat) + "s"@
        } else if cfg.gui {
            "click OK in the dialog"@
        } else {
            "then: curl http://127.0.0.1:"@ + decimal(port as nat) + "/flip"@
        })),
{
    let hint = "flip the stack; "@ + flip_hint(cfg, port);
    let cleared = SpoolerView { flip_requested: false, ..sp };
    law_state_is_set(cleared, w.id, J_STOPPED, hint, w.id);
}

/// A pass goes to the real printer under the name of its job, with a word on which
/// pass it is, and for the job's user; the job is found in progress, and says what
/// is printed. The odd pages are the document of the odd pages, the backs are what
/// became of the even pages, and a pass-through is the whole document.
pub proof fn law_passes_are_named(
    w: WorkerView,
    sp: SpoolerView,
    cfg: ConfigView,
    port: u16,
    ev: EventView,
    pass: Pass,
    job: JobView,
)
    requires
        answers(ev, w.stage),
        w.after(sp, cfg, port, ev).0.stage == Stage::Forwarding(pass),
        job_with(sp.jobs, w.id) == Some(job),
        job.state != 7,
    ensures
        ({
            let (after, now, action) = w.after(sp, cfg, port, ev);
            &&& action matches ActionView::Forward { doc, name, user } && user == job.user && name
                == job.name + (match pass {
                Pass::Whole => ""@,
                Pass::Odd => " [odd pages]"@,
                Pass::Even => " [even pages]"@,
            }) && doc == (match pass {
                Pass::Whole => after.doc,
                Pass::Odd => Doc::Odd,
                Pass::Even => after.even,
            })
            &&& job_with(now.jobs, w.id) matches Some(j) && j.state == 5 && j.message == (
            match pass {
                Pass::Whole => "printing (pass-through)"@,
                Pass::Odd => "printing odd pages"@,
                Pass::Even => "printing even pages"@,
            })
        }),
{
    let message = message_of(pass);
    let cleared = SpoolerView { flip_requested: false, ..sp };
    law_state_is_set(sp, w.id, J_PROCESSING, message, w.id);
    law_state_is_set(cleared, w.id, J_PROCESSING, message, w.id);
}

/// A job that was canceled before its turn is over at once and leaves no trace; any
/// other one is found in progress, and its document is saved.
pub proof fn law_job_begins(id: i32, attrs: Seq<AttrView>, sp: SpoolerView)
    ensures
        ({
            let (w, now, action) = WorkerView::begun(id, attrs, sp);
            &&& w.id == id
            &&& w.attrs == attrs
            &&& sp.is_canceled(id) ==> w.stage == Stage::Over && now == sp && action
                == ActionView::Finish(None)
            &&& !sp.is_canceled(id) ==> w.stage == Stage::Saving && action == ActionView::Save && (
            job_with(now.jobs, id) matches Some(j) && j.state == 5 && j.message == "preparing"@)
        }),
{
    law_state_is_set(sp, id, J_PROCESSING, "preparing"@, id);
}

/// The state that a reply reports.
pub open spec fn reported(resp: MsgView) -> Option<i32> {
    match resp.find("job-state"@) {
        Some(a) => a.first_int(),
        None => None,
    }
}

/// A pass that is accepted is watched: at the next step the real printer is asked,
/// at the address that the daemon was given, for the job whose id it replied with,
/// or told to cancel that job where ours was canceled.
pub proof fn law_accepted_pass_is_watched(
    w: WorkerView,
    sp: SpoolerView,
    cfg: ConfigView,
    port: u16,
    pass: Pass,
    resp: MsgView,
    id: i32,
)
    requires
        w.stage == Stage::Forwarding(pass),
        resp.op_status < 0x0100,
        resp.find("job-id"@) matches Some(a) && a.first_int() == Some(id),
    ensures
        ({
            let (after, now, action) = w.after(sp, cfg, port, EventView::Reply(resp));
            &&& now == sp
            &&& !sp.is_canceled(w.id) ==> after.stage == Stage::Asking(pass, id, 0) && (
            action matches ActionView::Ask(m) && asks_about(m, 0x0009, cfg.printer.uri, id))
            &&& sp.is_canceled(w.id) ==> after.stage == Stage::Canceling(pass) && (
            action matches ActionView::Cancel(m) && asks_about(m, 0x0008, cfg.printer.uri, id))
        }),
{
    law_accepted_pass_has_the_printers_id(resp);
    law_state_request_is_about_the_pass(cfg.printer.uri, id);
    law_cancel_request_is_about_the_pass(cfg.printer.uri, id);
}

/// Whether a request is that operation on that job of that printer.
pub open spec fn asks_about(m: MsgView, op: u16, uri: Seq<char>, id: i32) -> bool {
    &&& m.op_status == op
    &&& m.find_in(0x01, "job-id"@) matches Some(a) && a.first_int() == Some(id)
    &&& m.find_in(0x01, "printer-uri"@) matches Some(a) && a.first_str() == Some(uri)
}

/// A pass that is neither printed nor lost is looked at again after the time
/// between polls, and so is one whose state could not be had, up to four times in
/// a row; the next look is at the same job of the real printer.
pub proof fn law_pass_is_watched_on(
    w: WorkerView,
    sp: SpoolerView,
    later: SpoolerView,
    cfg: ConfigView,
    port: u16,
    pass: Pass,
    id: i32,
    errors: u32,
    ev: EventView,
)
    requires
        w.stage == Stage::Asking(pass, id, errors),
        match ev {
            EventView::Reply(resp) => reported(resp) != Some(7i32) && reported(resp) != Some(8i32)
                && reported(resp) != Some(9i32),
            EventView::Failed(_) | EventView::Unreachable(_) => errors < 4,
            _ => false,
        },
    ensures
        ({
            let (after, now, action) = w.after(sp, cfg, port, ev);
            let count: u32 = if ev is Reply {
                0
            } else {
                (errors + 1) as u32
            };
            let (again, then, next) = after.after(later, cfg, port, EventView::Done);
            &&& after.stage == Stage::Watching(pass, id, count)
            &&& now == sp
            &&& action == ActionView::Sleep(cfg.poll)
            &&& then == later
            &&& !later.is_canceled(w.id) ==> again.stage == Stage::Asking(pass, id, count) && (
            next matches ActionView::Ask(m) && asks_about(m, 0x0009, cfg.printer.uri, id))
            &&& later.is_canceled(w.id) ==> again.stage == Stage::Canceling(pass) && (
            next matches ActionView::Cancel(m) && asks_about(m, 0x0008, cfg.printer.uri, id))
        }),
{
    law_state_request_is_about_the_pass(cfg.printer.uri, id);
    law_cancel_request_is_about_the_pass(cfg.printer.uri, id);
    match ev {
        EventView::Reply(resp) => law_state_decides_the_watch(
            id,
            errors,
            resp,
            reported(resp),
            ""@,
        ),
        _ => {},
    }
}

/// After the odd pass is printed, the backs are made, unless there was one page
/// only; after the last pass the job is found completed.
pub proof fn law_printed_pass_goes_on(
    w: WorkerView,
    sp: SpoolerView,
    cfg: ConfigView,
    port: u16,
    pass: Pass,
    id: i32,
    errors: u32,
    resp: MsgView,
)
    requires
        w.stage == Stage::Asking(pass, id, errors),
        reported(resp) == Some(9i32),
        !sp.is_canceled(w.id),
    ensures
        ({
            let (after, now, action) = w.after(sp, cfg, port, EventView::Reply(resp));
            &&& pass == Pass::Odd && w.npages > 1 ==> after == (WorkerView {
                stage: Stage::SplittingEven,
                ..w
            }) && now == sp && action is Run
            &&& !(pass == Pass::Odd && w.npages > 1) ==> after.stage == Stage::Over && action
                == ActionView::Finish(None) && (job_with(now.jobs, w.id) matches Some(j) && j.state
                == 9 && j.message == (if pass == Pass::Odd {
                "done (single page)"@
            } else {
                "done"@
            }))
        }),
{
    law_state_decides_the_watch(id, errors, resp, reported(resp), ""@);
    law_state_is_set(sp, w.id, J_COMPLETED, "done"@, w.id);
    law_state_is_set(sp, w.id, J_COMPLETED, "done (single page)"@, w.id);
}

/// A job ends only where it should: its last pass is printed, something failed, the
/// real printer refused or lost a pass, or the job was canceled. Nothing else ends
/// it, so no page is left out.
pub proof fn law_job_ends_only_where_it_should(
    w: WorkerView,
    sp: SpoolerView,
    cfg: ConfigView,
    port: u16,
    ev: EventView,
)
    requires
        answers(ev, w.stage),
        w.after(sp, cfg, port, ev).0.stage == Stage::Over,
    ensures
        match w.stage {
            Stage::Flipping | Stage::Holding(_) => sp.is_canceled(w.id),
            Stage::Canceling(pass) => pass != Pass::Odd || w.npages <= 1,
            Stage::Asking(pass, _, errors) => match ev {
                EventView::Reply(resp) => reported(resp) == Some(7i32) || reported(resp) == Some(
                    8i32,
                ) || (reported(resp) == Some(9i32) && (pass != Pass::Odd || w.npages <= 1)),
                _ => errors >= 4,
            },
            Stage::Forwarding(_) => match ev {
                EventView::Reply(resp) => resp.op_status >= 0x0100 || !(resp.find(
                    "job-id"@,
                ) matches Some(a) && a.first_int() is Some),
                _ => ev is Failed,
            },
            _ => ev is Failed,
        },
{
    match (w.stage, ev) {
        (Stage::Asking(_, id, errors), EventView::Reply(resp)) => law_state_decides_the_watch(
            id,
            errors,
            resp,
            reported(resp),
            ""@,
        ),
        (Stage::Forwarding(_), EventView::Reply(resp)) => {
            law_accepted_pass_has_the_printers_id(resp);
        },
        _ => {},
    }
}

/// A job that ends with an error is found aborted with that error, and one that
/// ends without is found completed, unless it was canceled, which it stays.
pub proof fn law_end_of_a_job(
    w: WorkerView,
    sp: SpoolerView,
    cfg: ConfigView,
    port: u16,
    ev: EventView,
)
    requires
        answers(ev, w.stage),
        w.after(sp, cfg, port, ev).0.stage == Stage::Over,
        !sp.is_canceled(w.id),
    ensures
        ({
            let (_, now, action) = w.after(sp, cfg, port, ev);
            &&& action matches ActionView::Finish(e)
            &&& job_with(now.jobs, w.id) matches Some(j) && match e {
                Some(text) => j.state == 8 && j.message == text,
                None => j.state == 9,
            }
        }),
{
    assert forall|state: i32, message: Seq<char>|
        job_with(#[trigger] sp.with_state(w.id, state, message).jobs, w.id) matches Some(j)
            && j.state == state && j.message == message by {
        law_state_is_set(sp, w.id, state, message, w.id);
    }
}

/// The steps before a pass, in their order: the ranges where there are any, the
/// copies where there is more than one, then the pass-through of a one-sided job,
/// or the count and the odd pages of any other. None of them is left out.
pub proof fn law_steps_before_a_pass(
    w: WorkerView,
    sp: SpoolerView,
    cfg: ConfigView,
    port: u16,
    n: u32,
)
    ensures
        ({
            let next = w.after(sp, cfg, port, EventView::Done).0.stage;
            let counted = w.after(sp, cfg, port, EventView::Pages(n)).0;
            let first = if one_sided(w.attrs) {
                Stage::Forwarding(Pass::Whole)
            } else {
                Stage::Counting
            };
            let ranged = if copies_of(w.attrs) > 1 {
                Stage::Copying
            } else {
                first
            };
            &&& w.stage == Stage::Saving ==> next == (if ranges_of(w.attrs).len() > 0 {
                Stage::Ranging
            } else {
                ranged
            })
            &&& w.stage == Stage::Ranging ==> next == ranged
            &&& w.stage == Stage::Copying ==> next == first
            &&& w.stage == Stage::Counting ==> counted.stage == Stage::SplittingOdd
                && counted.npages == n
            &&& w.stage == Stage::SplittingOdd ==> next == Stage::Forwarding(Pass::Odd)
        }),
{
}

/// The steps between the passes, in their order: the blank page where the count is
/// odd and one is wanted, the turn where one is wanted, and the flip. None of them
/// is left out.
pub proof fn law_steps_between_the_passes(
    w: WorkerView,
    sp: SpoolerView,
    cfg: ConfigView,
    port: u16,
)
    ensures
        ({
            let next = w.after(sp, cfg, port, EventView::Done).0.stage;
            let complete = if cfg.rotate_even == 180 {
                Stage::Turning
            } else {
                Stage::Flipping
            };
            &&& w.stage == Stage::SplittingEven ==> next == (if w.npages % 2 == 1 && cfg.blank
                != Blank::Nowhere {
                Stage::SavingBlank
            } else {
                complete
            })
            &&& w.stage == Stage::SavingBlank ==> next == Stage::Padding
            &&& w.stage == Stage::Padding ==> next == complete
            &&& w.stage == Stage::Turning ==> next == Stage::Flipping
        }),
{
}

/// A job on its way stays the job that it is: its id and its options do not change,
/// and neither does any other job in the table.
pub proof fn law_steps_touch_their_job_only(
    w: WorkerView,
    sp: SpoolerView,
    cfg: ConfigView,
    port: u16,
    ev: EventView,
    other: i32,
)
    requires
        answers(ev, w.stage),
        other != w.id,
    ensures
        ({
            let (after, now, _) = w.after(sp, cfg, port, ev);
            &&& after.id == w.id
            &&& after.attrs == w.attrs
            &&& now.next_id == sp.next_id
            &&& job_with(now.jobs, other) == job_with(sp.jobs, other)
        }),
{
    let cleared = SpoolerView { flip_requested: false, ..sp };
    assert forall|state: i32, message: Seq<char>|
        job_with(#[trigger] sp.with_state(w.id, state, message).jobs, other) == job_with(
            sp.jobs,
            other,
        ) by {
        law_state_is_set(sp, w.id, state, message, other);
    }
    assert forall|state: i32, message: Seq<char>|
        job_with(#[trigger] cleared.with_state(w.id, state, message).jobs, other) == job_with(
            sp.jobs,
            other,
        ) by {
        law_state_is_set(cleared, w.id, state, message, other);
    }
}

/// The blank page of an odd page count stands before the even pages or behind them,
/// as it is wanted, and nowhere else; an even page count gets none.
pub proof fn law_place_of_the_blank_page(pages: Seq<PageView>, blank: Blank)
    ensures
        ({
            let p = padded(pages, blank);
            let none = PageView { content: None, turned: false };
            &&& pages.len() % 2 == 1 && blank == Blank::Leading ==> p[0] == none && p.skip(1)
                == padded(pages, Blank::Nowhere)
            &&& pages.len() % 2 == 1 && blank == Blank::Trailing ==> p.last() == none
                && p.drop_last() == padded(pages, Blank::Nowhere)
            &&& pages.len() % 2 == 0 ==> p == padded(pages, Blank::Nowhere)
            &&& padded(pages, Blank::Nowhere).len() == pages.len() / 2
        }),
{
    let e = evens(pages);
    assert((blank_pages() + e).skip(1) =~= e);
    assert((e + blank_pages()).drop_last() =~= e);
}

/// What each pass holds, page by page: a pass-through the whole document, the odd pass
/// its first page, its third, and so on, and the even pass the backs, each turned
/// exactly if that is wanted.
pub proof fn law_pages_of_a_pass(
    input: Seq<PageView>,
    attrs: Seq<AttrView>,
    cfg: ConfigView,
    i: int,
)
    requires
        cfg.rotate_even == 0 || cfg.rotate_even == 180,
    ensures
        ({
            let pages = whole(input, attrs);
            let odd = pass_pages(Pass::Odd, input, attrs, cfg);
            let even = pass_pages(Pass::Even, input, attrs, cfg);
            let backs = padded(pages, cfg.blank);
            &&& pass_pages(Pass::Whole, input, attrs, cfg) == pages
            &&& odd.len() == (pages.len() + 1) / 2
            &&& 0 <= i < odd.len() ==> odd[i] == pages[2 * i]
            &&& even.len() == backs.len()
            &&& 0 <= i < backs.len() ==> even[i].content == backs[i].content && (even[i].turned
                != backs[i].turned <==> cfg.rotate_even == 180)
        }),
{
}

} // verus!
