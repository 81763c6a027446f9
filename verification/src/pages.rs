//! The documents of a job, the qpdf commands that make one out of another, and
//! what these do to the pages.

use crate::text::{
    all_space, bytes_of, decimal, decimal_int, digits_value, is_trim, join, joined, law_joining,
    law_trimming, lossy, lossy_text, number, parse_number, push_decimal_int, quoted, quoted_text,
    texts, trim, trimmed,
};
use crate::uri::{law_number_of_decimal, lemma_decimal};
use vstd::prelude::*;
use vstd::string::StringExecFns;
use vstd::utf8::*;

verus! {

// --------------------------------------------------------------- documents

/// The documents that a job may hold in its directory.
#[derive(Clone, Copy, Debug, PartialEq, Eq, Structural)]
pub enum Doc {
    Input,
    Ranged,
    Copies,
    Odd,
    Even,
    Blank,
    Padded,
    Rotated,
}

/// The file that holds a document.
pub open spec fn file_name(doc: Doc) -> Seq<char> {
    match doc {
        Doc::Input => "in.pdf"@,
        Doc::Ranged => "ranged.pdf"@,
        Doc::Copies => "copies.pdf"@,
        Doc::Odd => "odd.pdf"@,
        Doc::Even => "even.pdf"@,
        Doc::Blank => "blank.pdf"@,
        Doc::Padded => "even-padded.pdf"@,
        Doc::Rotated => "even-rotated.pdf"@,
    }
}

/// The path of a document in the job's directory.
pub open spec fn path_text(dir: Seq<char>, doc: Doc) -> Seq<char> {
    dir + "/"@ + file_name(doc)
}

/// The path of a document in the job's directory.
pub fn path(dir: &str, doc: Doc) -> (r: String)
    ensures
        r@ == path_text(dir@, doc),
{
    let name = match doc {
        Doc::Input => "in.pdf",
        Doc::Ranged => "ranged.pdf",
        Doc::Copies => "copies.pdf",
        Doc::Odd => "odd.pdf",
        Doc::Even => "even.pdf",
        Doc::Blank => "blank.pdf",
        Doc::Padded => "even-padded.pdf",
        Doc::Rotated => "even-rotated.pdf",
    };
    let mut p = dir.to_owned();
    p.append("/");
    p.append(name);
    p
}

/// The text of a document with one empty page.
pub open spec fn blank_text() -> Seq<char> {
    "%PDF-1.4\n1 0 obj\n<< /Type /Catalog /Pages 2 0 R >>\nendobj\n2 0 obj\n<< /Type /Pages /Kids [3 0 R] /Count 1 >>\nendobj\n3 0 obj\n<< /Type /Page /Parent 2 0 R /MediaBox [0 0 612 792] /Resources << >> >>\nendobj\nxref\n0 4\n0000000000 65535 f \ntrailer\n<< /Size 4 /Root 1 0 R >>\nstartxref\n0\n%%EOF\n"@
}

/// A document with one empty page.
pub fn blank_pdf() -> (r: Vec<u8>)
    ensures
        r@ == encode_utf8(blank_text()),
{
    bytes_of("%PDF-1.4\n1 0 obj\n<< /Type /Catalog /Pages 2 0 R >>\nendobj\n2 0 obj\n<< /Type /Pages /Kids [3 0 R] /Count 1 >>\nendobj\n3 0 obj\n<< /Type /Page /Parent 2 0 R /MediaBox [0 0 612 792] /Resources << >> >>\nendobj\nxref\n0 4\n0000000000 65535 f \ntrailer\n<< /Size 4 /Root 1 0 R >>\nstartxref\n0\n%%EOF\n")
}

// ------------------------------------------------------------------- pages

/// One page: what is on it, or nothing for a blank one, and whether it is
/// turned by 180 degrees.
#[verifier::ext_equal]
pub struct PageView {
    pub content: Option<int>,
    pub turned: bool,
}

/// The pages of a blank document.
pub open spec fn blank_pages() -> Seq<PageView> {
    seq![PageView { content: None, turned: false }]
}

/// A choice of pages.
#[derive(Debug)]
pub enum Pick {
    /// all, in order
    All,
    /// the first, the third, and so on
    Odd,
    /// from the back: the last, the last but two, and so on
    BackOdd,
    /// from the back: the last but one, the last but three, and so on
    BackEven,
    /// the first
    First,
    /// ranges of page numbers, one after the other
    Ranges(Vec<(i32, i32)>),
}

/// A choice of pages as a mathematical value.
#[verifier::ext_equal]
pub enum PickView {
    All,
    Odd,
    BackOdd,
    BackEven,
    First,
    Ranges(Seq<(i32, i32)>),
}

impl View for Pick {
    type V = PickView;

    open spec fn view(&self) -> PickView {
        match self {
            Pick::All => PickView::All,
            Pick::Odd => PickView::Odd,
            Pick::BackOdd => PickView::BackOdd,
            Pick::BackEven => PickView::BackEven,
            Pick::First => PickView::First,
            Pick::Ranges(ranges) => PickView::Ranges(ranges@),
        }
    }
}

/// The pages from number `lo` to number `hi`, backwards where `hi` is less.
pub open spec fn page_range(pages: Seq<PageView>, lo: int, hi: int) -> Seq<PageView> {
    if lo <= hi {
        Seq::new((hi - lo + 1) as nat, |i: int| pages[lo - 1 + i])
    } else {
        Seq::new((lo - hi + 1) as nat, |i: int| pages[lo - 1 - i])
    }
}

/// The pages of several ranges, one range after the other.
pub open spec fn page_ranges(pages: Seq<PageView>, ranges: Seq<(i32, i32)>) -> Seq<PageView>
    decreases ranges.len(),
{
    if ranges.len() == 0 {
        seq![]
    } else {
        page_ranges(pages, ranges.drop_last()) + page_range(
            pages,
            ranges.last().0 as int,
            ranges.last().1 as int,
        )
    }
}

/// The pages that a choice takes. Ranges are meant to lie within the document.
pub open spec fn picked(pick: PickView, pages: Seq<PageView>) -> Seq<PageView> {
    let n = pages.len() as int;
    match pick {
        PickView::All => pages,
        PickView::Odd => Seq::new(((n + 1) / 2) as nat, |i: int| pages[2 * i]),
        PickView::BackOdd => Seq::new(((n + 1) / 2) as nat, |i: int| pages[n - 1 - 2 * i]),
        PickView::BackEven => Seq::new((n / 2) as nat, |i: int| pages[n - 2 - 2 * i]),
        PickView::First => pages.take(1),
        PickView::Ranges(ranges) => page_ranges(pages, ranges),
    }
}

/// The pages, `times` times in a row.
pub open spec fn repeated(pages: Seq<PageView>, times: nat) -> Seq<PageView>
    decreases times,
{
    if times == 0 {
        seq![]
    } else {
        repeated(pages, (times - 1) as nat) + pages
    }
}

/// The pages, each turned by 180 degrees.
pub open spec fn turned(pages: Seq<PageView>) -> Seq<PageView> {
    pages.map_values(|p: PageView| PageView { turned: !p.turned, ..p })
}

/// The text of one range.
pub open spec fn range_text(range: (i32, i32)) -> Seq<char> {
    decimal_int(range.0 as int) + "-"@ + decimal_int(range.1 as int)
}

/// How qpdf is told a choice of pages: `z` is the last page, and `:odd` and
/// `:even` go by the place in what stands before them.
pub open spec fn pick_text(pick: PickView) -> Seq<char> {
    match pick {
        PickView::All => "1-z"@,
        PickView::Odd => "1-z:odd"@,
        PickView::BackOdd => "z-1:odd"@,
        PickView::BackEven => "z-1:even"@,
        PickView::First => "1"@,
        PickView::Ranges(ranges) => joined(
            ranges.map_values(|r: (i32, i32)| range_text(r)),
            ","@,
        ),
    }
}

impl Pick {
    /// How qpdf is told the choice.
    pub fn text(&self) -> (r: String)
        ensures
            r@ == pick_text(self@),
    {
        match self {
            Pick::All => "1-z".to_owned(),
            Pick::Odd => "1-z:odd".to_owned(),
            Pick::BackOdd => "z-1:odd".to_owned(),
            Pick::BackEven => "z-1:even".to_owned(),
            Pick::First => "1".to_owned(),
            Pick::Ranges(ranges) => {
                let ghost all = ranges@.map_values(|r: (i32, i32)| range_text(r));
                let mut parts: Vec<String> = Vec::new();
                let mut i: usize = 0;
                while i < ranges.len()
                    invariant
                        i <= ranges@.len(),
                        parts@.len() == i,
                        all == ranges@.map_values(|r: (i32, i32)| range_text(r)),
                        forall|k: int| 0 <= k < i ==> (#[trigger] parts@[k])@ == all[k],
                    decreases ranges@.len() - i,
                {
                    let mut s = String::new();
                    push_decimal_int(&mut s, ranges[i].0);
                    s.append("-");
                    push_decimal_int(&mut s, ranges[i].1);
                    assert(s@ =~= range_text(ranges@[i as int]));
                    parts.push(s);
                    i += 1;
                }
                assert(texts(parts@) =~= all);
                join(&parts, ",")
            },
        }
    }
}

// ---------------------------------------------------------------- commands

/// A qpdf command that makes a document.
#[derive(Debug)]
pub enum Cmd {
    /// pages of one document
    Select { from: Doc, pick: Pick, to: Doc },
    /// a document several times in a row
    Repeat { from: Doc, times: u32, to: Doc },
    /// pages of two documents in a row
    Join { first: Doc, first_pick: Pick, second: Doc, second_pick: Pick, to: Doc },
    /// every page turned by 180 degrees
    Turn { from: Doc, to: Doc },
}

/// A command as a mathematical value.
#[verifier::ext_equal]
pub enum CmdView {
    Select { from: Doc, pick: PickView, to: Doc },
    Repeat { from: Doc, times: u32, to: Doc },
    Join { first: Doc, first_pick: PickView, second: Doc, second_pick: PickView, to: Doc },
    Turn { from: Doc, to: Doc },
}

impl View for Cmd {
    type V = CmdView;

    open spec fn view(&self) -> CmdView {
        match self {
            Cmd::Select { from, pick, to } => CmdView::Select { from: *from, pick: pick@, to: *to },
            Cmd::Repeat { from, times, to } => CmdView::Repeat {
                from: *from,
                times: *times,
                to: *to,
            },
            Cmd::Join { first, first_pick, second, second_pick, to } => CmdView::Join {
                first: *first,
                first_pick: first_pick@,
                second: *second,
                second_pick: second_pick@,
                to: *to,
            },
            Cmd::Turn { from, to } => CmdView::Turn { from: *from, to: *to },
        }
    }
}

/// The same document and all its pages, `times` times in a row.
pub open spec fn repeated_args(path: Seq<char>, times: nat) -> Seq<Seq<char>>
    decreases times,
{
    if times == 0 {
        seq![]
    } else {
        repeated_args(path, (times - 1) as nat) + seq![path, "1-z"@]
    }
}

impl CmdView {
    /// The arguments that tell qpdf the command.
    pub open spec fn args(self, dir: Seq<char>) -> Seq<Seq<char>> {
        match self {
            CmdView::Select { from, pick, to } => seq![
                path_text(dir, from),
                "--pages"@,
                "."@,
                pick_text(pick),
                "--"@,
                path_text(dir, to),
            ],
            CmdView::Repeat { from, times, to } => seq!["--empty"@, "--pages"@] + repeated_args(
                path_text(dir, from),
                times as nat,
            ) + seq!["--"@, path_text(dir, to)],
            CmdView::Join { first, first_pick, second, second_pick, to } => seq![
                "--empty"@,
                "--pages"@,
                path_text(dir, first),
                pick_text(first_pick),
                path_text(dir, second),
                pick_text(second_pick),
                "--"@,
                path_text(dir, to),
            ],
            CmdView::Turn { from, to } => seq![
                path_text(dir, from),
                "--rotate=+180:1-z"@,
                "--"@,
                path_text(dir, to),
            ],
        }
    }

    /// The document that the command makes.
    pub open spec fn makes(self) -> Doc {
        match self {
            CmdView::Select { to, .. } => to,
            CmdView::Repeat { to, .. } => to,
            CmdView::Join { to, .. } => to,
            CmdView::Turn { to, .. } => to,
        }
    }

    /// The pages of the document that the command makes.
    pub open spec fn result(self, docs: Map<Doc, Seq<PageView>>) -> Seq<PageView> {
        match self {
            CmdView::Select { from, pick, .. } => picked(pick, docs[from]),
            CmdView::Repeat { from, times, .. } => repeated(docs[from], times as nat),
            CmdView::Join { first, first_pick, second, second_pick, .. } => picked(
                first_pick,
                docs[first],
            ) + picked(second_pick, docs[second]),
            CmdView::Turn { from, .. } => turned(docs[from]),
        }
    }
}

impl Cmd {
    /// The arguments that tell qpdf the command.
    pub fn args(&self, dir: &str) -> (r: Vec<String>)
        ensures
            texts(r@) == self@.args(dir@),
    {
        let mut out: Vec<String> = Vec::new();
        match self {
            Cmd::Select { from, pick, to } => {
                out.push(path(dir, *from));
                out.push("--pages".to_owned());
                out.push(".".to_owned());
                out.push(pick.text());
                out.push("--".to_owned());
                out.push(path(dir, *to));
            },
            Cmd::Repeat { from, times, to } => {
                out.push("--empty".to_owned());
                out.push("--pages".to_owned());
                let ghost head = texts(out@);
                let ghost p = path_text(dir@, *from);
                assert(head =~= seq!["--empty"@, "--pages"@]);
                let mut i: u32 = 0;
                assert(texts(out@) =~= head + repeated_args(p, 0));
                while i < *times
                    invariant
                        i <= *times,
                        p == path_text(dir@, *from),
                        texts(out@) == head + repeated_args(p, i as nat),
                    decreases *times - i,
                {
                    let ghost before = texts(out@);
                    out.push(path(dir, *from));
                    out.push("1-z".to_owned());
                    i += 1;
                    assert(texts(out@) =~= before + seq![p, "1-z"@]);
                    assert(texts(out@) =~= head + repeated_args(p, i as nat));
                }
                let ghost before = texts(out@);
                out.push("--".to_owned());
                out.push(path(dir, *to));
                assert(texts(out@) =~= before + seq!["--"@, path_text(dir@, *to)]);
            },
            Cmd::Join { first, first_pick, second, second_pick, to } => {
                out.push("--empty".to_owned());
                out.push("--pages".to_owned());
                out.push(path(dir, *first));
                out.push(first_pick.text());
                out.push(path(dir, *second));
                out.push(second_pick.text());
                out.push("--".to_owned());
                out.push(path(dir, *to));
            },
            Cmd::Turn { from, to } => {
                out.push(path(dir, *from));
                out.push("--rotate=+180:1-z".to_owned());
                out.push("--".to_owned());
                out.push(path(dir, *to));
            },
        }
        assert(texts(out@) =~= self@.args(dir@));
        out
    }
}

// ----------------------------------------------------------- running qpdf

/// The arguments as qpdf gets them: warnings are no failure.
pub open spec fn tolerant(args: Seq<Seq<char>>) -> Seq<Seq<char>> {
    seq!["--warning-exit-0"@] + args
}

/// The arguments as qpdf gets them.
pub fn qpdf_args(args: &Vec<String>) -> (r: Vec<String>)
    ensures
        texts(r@) == tolerant(texts(args@)),
{
    let mut out: Vec<String> = Vec::new();
    out.push("--warning-exit-0".to_owned());
    let mut i: usize = 0;
    while i < args.len()
        invariant
            i <= args@.len(),
            out@.len() == i + 1,
            out@[0]@ == "--warning-exit-0"@,
            forall|k: int| 0 <= k < i ==> (#[trigger] out@[k + 1])@ == args@[k]@,
        decreases args@.len() - i,
    {
        out.push(args[i].clone());
        i += 1;
    }
    assert(texts(out@) =~= tolerant(texts(args@))) by {
        assert forall|k: int| 0 <= k < out@.len() implies texts(out@)[k] == tolerant(
            texts(args@),
        )[k] by {
            if k > 0 {
                assert(out@[(k - 1) + 1]@ == args@[k - 1]@);
            }
        }
    }
    out
}

/// The arguments that ask qpdf for the number of pages.
pub open spec fn count_args_text(file: Seq<char>) -> Seq<Seq<char>> {
    tolerant(seq!["--show-npages"@, file])
}

/// The arguments that ask qpdf for the number of pages.
pub fn count_args(file: &str) -> (r: Vec<String>)
    ensures
        texts(r@) == count_args_text(file@),
{
    let mut args: Vec<String> = Vec::new();
    args.push("--show-npages".to_owned());
    args.push(file.to_owned());
    assert(texts(args@) =~= seq!["--show-npages"@, file@]);
    qpdf_args(&args)
}

/// What to say of a qpdf command that failed, given how its arguments are quoted
/// and what it wrote to standard error.
pub open spec fn failure_text(quoted_args: Seq<Seq<char>>, stderr: Seq<char>) -> Seq<char> {
    "qpdf ["@ + joined(quoted_args, ", "@) + "]: "@ + stderr
}

/// What came of a qpdf command: it failed unless it exited with success, and
/// then the message shows its arguments and what it wrote to standard error.
pub open spec fn qpdf_result(args: Seq<Seq<char>>, success: bool, stderr: Seq<u8>) -> Result<
    (),
    Seq<char>,
> {
    if success {
        Ok(())
    } else {
        Err(failure_text(args.map_values(|a: Seq<char>| quoted(a)), lossy(stderr)))
    }
}

/// A result without a value as a mathematical value.
pub open spec fn done_result(r: Result<(), String>) -> Result<(), Seq<char>> {
    match r {
        Ok(_) => Ok(()),
        Err(e) => Err(e@),
    }
}

/// What to say of a qpdf command that failed, given how its arguments are quoted
/// and what it wrote to standard error.
pub fn qpdf_failure(quoted_args: &Vec<String>, stderr: &str) -> (r: String)
    ensures
        r@ == failure_text(texts(quoted_args@), stderr@),
{
    let list = join(quoted_args, ", ");
    let mut e = "qpdf [".to_owned();
    e.append(list.as_str());
    e.append("]: ");
    e.append(stderr);
    e
}

/// What came of a qpdf command that ended.
pub fn qpdf(args: &Vec<String>, success: bool, stderr: &[u8]) -> (r: Result<(), String>)
    ensures
        done_result(r) == qpdf_result(texts(args@), success, stderr@),
{
    if success {
        return Ok(());
    }
    let ghost all = texts(args@).map_values(|a: Seq<char>| quoted(a));
    let mut parts: Vec<String> = Vec::new();
    let mut i: usize = 0;
    while i < args.len()
        invariant
            i <= args@.len(),
            parts@.len() == i,
            all == texts(args@).map_values(|a: Seq<char>| quoted(a)),
            forall|k: int| 0 <= k < i ==> (#[trigger] parts@[k])@ == all[k],
        decreases args@.len() - i,
    {
        parts.push(quoted_text(args[i].as_str()));
        i += 1;
    }
    assert(texts(parts@) =~= all);
    Err(qpdf_failure(&parts, lossy_text(stderr).as_str()))
}

/// What to say where qpdf could not be started.
pub fn spawn_failure(e: &str) -> (r: String)
    ensures
        r@ == "qpdf spawn: "@ + e@,
{
    let mut s = "qpdf spawn: ".to_owned();
    s.append(e);
    s
}

/// The number of pages that qpdf counted, or what went wrong.
pub open spec fn page_count(success: bool, stdout: Seq<u8>) -> Result<u32, Seq<char>> {
    if !success {
        Err("qpdf could not read the document (PDF input required)"@)
    } else {
        match number(trimmed(lossy(stdout)), 10, u32::MAX as nat) {
            Some(n) => Ok(n as u32),
            None => Err("bad page count"@),
        }
    }
}

/// A page count as a mathematical value.
pub open spec fn count_result(r: Result<u32, String>) -> Result<u32, Seq<char>> {
    match r {
        Ok(n) => Ok(n),
        Err(e) => Err(e@),
    }
}

/// The number of pages that qpdf counted, from how it ended and what it wrote.
pub fn qpdf_npages(success: bool, stdout: &[u8]) -> (r: Result<u32, String>)
    ensures
        count_result(r) == page_count(success, stdout@),
{
    if !success {
        return Err("qpdf could not read the document (PDF input required)".to_owned());
    }
    let text = lossy_text(stdout);
    let word = trim(text.as_str());
    match parse_number(word.as_str(), 10, u32::MAX as u64) {
        Some(n) => Ok(n as u32),
        None => Err("bad page count".to_owned()),
    }
}

// ------------------------------------------------------------------- laws

/// The page count is the number that qpdf wrote, whatever white space stands
/// around it.
pub proof fn law_count_is_what_qpdf_wrote(n: u32, before: Seq<char>, after: Seq<char>)
    requires
        all_space(before),
        all_space(after),
    ensures
        page_count(true, encode_utf8(before + decimal(n as nat) + after)) == Ok::<u32, Seq<char>>(
            n,
        ),
        page_count(true, encode_utf8(decimal(n as nat) + "\n"@)) == Ok::<u32, Seq<char>>(n),
{
    let digits = decimal(n as nat);
    lemma_decimal(n as nat);
    law_number_of_decimal(n as nat, u32::MAX as nat);
    assert(is_trim(digits));
    let s = before + digits + after;
    law_trimming(before, digits, after);
    encode_utf8_valid_utf8(s);
    encode_utf8_decode_utf8(s);
    reveal_strlit("\n");
    let none = Seq::<char>::empty();
    let line = digits + "\n"@;
    assert(all_space("\n"@));
    law_trimming(none, digits, "\n"@);
    assert(none + digits + "\n"@ =~= line);
    encode_utf8_valid_utf8(line);
    encode_utf8_decode_utf8(line);
}

/// There is no page count but one that qpdf wrote: none where it failed, and none
/// where its output is anything but the digits of the number, white space and a
/// plus sign aside.
pub proof fn law_no_other_count(success: bool, out: Seq<char>)
    requires
        is_trim(out),
        out.len() > 0 ==> out[0] != '+',
    ensures
        page_count(success, encode_utf8(out)) is Ok ==> success && out.len() > 0,
        page_count(success, encode_utf8(out)) matches Ok(n) ==> digits_value(out, 10) == Some(
            n as nat,
        ),
        !success ==> page_count(success, encode_utf8(out)) == Err::<u32, Seq<char>>(
            "qpdf could not read the document (PDF input required)"@,
        ),
        success ==> (page_count(success, encode_utf8(out)) matches Err(e) ==> e
            == "bad page count"@),
{
    let none = Seq::<char>::empty();
    law_trimming(none, out, none);
    assert(none + out + none =~= out);
    encode_utf8_valid_utf8(out);
    encode_utf8_decode_utf8(out);
}

/// A qpdf command succeeds exactly if qpdf says so; a failure shows what qpdf
/// wrote to standard error.
pub proof fn law_qpdf_decides(args: Seq<Seq<char>>, success: bool, stderr: Seq<char>)
    ensures
        qpdf_result(args, success, encode_utf8(stderr)) is Ok <==> success,
        qpdf_result(args, success, encode_utf8(stderr)) matches Err(e) ==> e == "qpdf ["@ + joined(
            args.map_values(|a: Seq<char>| quoted(a)),
            ", "@,
        ) + "]: "@ + stderr,
{
    encode_utf8_valid_utf8(stderr);
    encode_utf8_decode_utf8(stderr);
}

/// A range from `lo` up to `hi` is the pages with these numbers, in order, and a
/// range downwards has them in reverse; ranges follow each other as they are given.
pub proof fn law_ranges_pick_pages(
    pages: Seq<PageView>,
    ranges: Seq<(i32, i32)>,
    lo: i32,
    hi: i32,
)
    requires
        1 <= lo <= pages.len(),
        1 <= hi <= pages.len(),
    ensures
        page_ranges(pages, Seq::<(i32, i32)>::empty()) == Seq::<PageView>::empty(),
        lo <= hi ==> page_ranges(pages, ranges.push((lo, hi))) == page_ranges(pages, ranges)
            + pages.subrange(lo - 1, hi as int),
        hi <= lo ==> page_ranges(pages, ranges.push((lo, hi))) == page_ranges(pages, ranges)
            + pages.subrange(hi - 1, lo as int).reverse(),
{
    assert(ranges.push((lo, hi)).drop_last() =~= ranges);
    assert(ranges.push((lo, hi)).last() == (lo, hi));
    if lo <= hi {
        assert(page_range(pages, lo as int, hi as int) =~= pages.subrange(lo - 1, hi as int));
    }
    if hi <= lo {
        assert(page_range(pages, lo as int, hi as int) =~= pages.subrange(
            hi - 1,
            lo as int,
        ).reverse());
    }
}

/// qpdf is told a single range by the numbers of its first and its last page, and
/// further ranges behind a comma.
pub proof fn law_ranges_are_told(ranges: Seq<(i32, i32)>, lo: i32, hi: i32)
    ensures
        pick_text(PickView::Ranges(seq![(lo, hi)])) == decimal_int(lo as int) + "-"@ + decimal_int(
            hi as int,
        ),
        ranges.len() > 0 ==> pick_text(PickView::Ranges(ranges.push((lo, hi)))) == pick_text(
            PickView::Ranges(ranges),
        ) + ","@ + decimal_int(lo as int) + "-"@ + decimal_int(hi as int),
{
    let f = |r: (i32, i32)| range_text(r);
    let one = seq![(lo, hi)];
    assert(one.map_values(f) =~= seq![range_text((lo, hi))]);
    law_joining(ranges.map_values(f), range_text((lo, hi)), ","@);
    assert(ranges.push((lo, hi)).map_values(f) =~= ranges.map_values(f).push(
        range_text((lo, hi)),
    ));
    if ranges.len() > 0 {
        assert(pick_text(PickView::Ranges(ranges)) + ","@ + range_text((lo, hi)) =~= pick_text(
            PickView::Ranges(ranges),
        ) + ","@ + decimal_int(lo as int) + "-"@ + decimal_int(hi as int));
    }
}

/// The other choices are told qpdf in its own words.
pub proof fn law_choices_are_told()
    ensures
        pick_text(PickView::All) == "1-z"@,
        pick_text(PickView::Odd) == "1-z:odd"@,
        pick_text(PickView::BackOdd) == "z-1:odd"@,
        pick_text(PickView::BackEven) == "z-1:even"@,
        pick_text(PickView::First) == "1"@,
{
}

/// Every document is a file of its own in the job's directory.
pub proof fn law_documents_have_their_own_files(dir: Seq<char>, a: Doc, b: Doc)
    ensures
        path_text(dir, a).take(dir.len() as int) == dir,
        path_text(dir, a)[dir.len() as int] == '/',
        path_text(dir, a) == path_text(dir, b) ==> a == b,
{
    reveal_strlit("/");
    reveal_strlit("in.pdf");
    reveal_strlit("ranged.pdf");
    reveal_strlit("copies.pdf");
    reveal_strlit("odd.pdf");
    reveal_strlit("even.pdf");
    reveal_strlit("blank.pdf");
    reveal_strlit("even-padded.pdf");
    reveal_strlit("even-rotated.pdf");
    assert("in.pdf"@.len() == 6);
    assert("odd.pdf"@.len() == 7);
    assert("even.pdf"@.len() == 8);
    assert("blank.pdf"@.len() == 9);
    assert("ranged.pdf"@.len() == 10);
    assert("copies.pdf"@.len() == 10);
    assert("even-padded.pdf"@.len() == 15);
    assert("even-rotated.pdf"@.len() == 16);
    assert("ranged.pdf"@[0] != "copies.pdf"@[0]);
    assert(path_text(dir, a).take(dir.len() as int) =~= dir);
    let n = dir.len() as int + 1;
    assert(path_text(dir, a).skip(n) =~= file_name(a));
    assert(path_text(dir, b).skip(n) =~= file_name(b));
}

proof fn lemma_repeated_args(path: Seq<char>, times: nat, k: int)
    ensures
        repeated_args(path, times).len() == 2 * times,
        0 <= k < times ==> repeated_args(path, times)[2 * k] == path,
        0 <= k < times ==> repeated_args(path, times)[2 * k + 1] == "1-z"@,
    decreases times,
{
    if times > 0 {
        lemma_repeated_args(path, (times - 1) as nat, k);
        let before = repeated_args(path, (times - 1) as nat);
        if 0 <= k < times {
            if k < times - 1 {
                assert(repeated_args(path, times)[2 * k] == before[2 * k]);
                assert(repeated_args(path, times)[2 * k + 1] == before[2 * k + 1]);
            }
        }
    }
}

/// A command reads the documents that it is made of and writes the one that it
/// makes, which is its last argument. A selection names its pages, a repetition
/// names all pages of the document as many times as it repeats it, a join names
/// the pages of both documents in order, and a turn is by 180 degrees.
pub proof fn law_commands_are_told(
    dir: Seq<char>,
    from: Doc,
    second: Doc,
    pick: PickView,
    second_pick: PickView,
    times: u32,
    k: int,
    to: Doc,
)
    ensures
        (CmdView::Select { from, pick, to }).args(dir) == seq![
            path_text(dir, from),
            "--pages"@,
            "."@,
            pick_text(pick),
            "--"@,
            path_text(dir, to),
        ],
        (CmdView::Join { first: from, first_pick: pick, second, second_pick, to }).args(dir) == seq![
            "--empty"@,
            "--pages"@,
            path_text(dir, from),
            pick_text(pick),
            path_text(dir, second),
            pick_text(second_pick),
            "--"@,
            path_text(dir, to),
        ],
        (CmdView::Turn { from, to }).args(dir) == seq![
            path_text(dir, from),
            "--rotate=+180:1-z"@,
            "--"@,
            path_text(dir, to),
        ],
        ({
            let args = (CmdView::Repeat { from, times, to }).args(dir);
            &&& args.len() == 2 * times + 4
            &&& args[0] == "--empty"@
            &&& args[1] == "--pages"@
            &&& 0 <= k < times ==> args[2 * k + 2] == path_text(dir, from)
            &&& 0 <= k < times ==> args[2 * k + 3] == "1-z"@
            &&& args[2 * times + 2] == "--"@
            &&& args[2 * times + 3] == path_text(dir, to)
        }),
{
    let p = path_text(dir, from);
    lemma_repeated_args(p, times as nat, k);
    let args = (CmdView::Repeat { from, times, to }).args(dir);
    let more = repeated_args(p, times as nat);
    if 0 <= k < times {
        assert(args[2 * k + 2] == more[2 * k]);
        assert(args[2 * k + 3] == more[2 * k + 1]);
    }
}

/// qpdf gets the arguments of a command, in order, behind the one that makes its
/// warnings no failure; asked for the number of pages it gets the file.
pub proof fn law_arguments_are_handed_on(args: Seq<Seq<char>>, file: Seq<char>)
    ensures
        tolerant(args).len() == args.len() + 1,
        tolerant(args)[0] == "--warning-exit-0"@,
        tolerant(args).skip(1) == args,
        count_args_text(file) == seq!["--warning-exit-0"@, "--show-npages"@, file],
{
    assert(tolerant(args).skip(1) =~= args);
    assert(count_args_text(file) =~= seq!["--warning-exit-0"@, "--show-npages"@, file]);
}

/// What a choice takes, page by page: `Odd` takes the first page, the third, and
/// so on; from the back, `BackOdd` takes the last page, the last but two, and so
/// on, and `BackEven` those between.
pub proof fn law_choices_take_pages(pages: Seq<PageView>, i: int)
    ensures
        picked(PickView::All, pages) == pages,
        pages.len() > 0 ==> picked(PickView::First, pages) == seq![pages[0]],
        picked(PickView::Odd, pages).len() == (pages.len() + 1) / 2,
        0 <= 2 * i < pages.len() ==> picked(PickView::Odd, pages)[i] == pages[2 * i],
        picked(PickView::BackOdd, pages).len() == (pages.len() + 1) / 2,
        0 <= 2 * i < pages.len() ==> picked(PickView::BackOdd, pages)[i] == pages.reverse()[2 * i],
        picked(PickView::BackEven, pages).len() == pages.len() / 2,
        0 <= 2 * i < pages.len() - 1 ==> picked(PickView::BackEven, pages)[i] == pages.reverse()[2
            * i + 1],
{
    if pages.len() > 0 {
        assert(picked(PickView::First, pages) =~= seq![pages[0]]);
    }
}

} // verus!
