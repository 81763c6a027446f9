//! The decisions of the interactive setup: what the command line, the answers
//! and the output of other programs mean, and what is written and run.

use crate::config::{self, options_of, read_flags, settle, valued, with_value, FlagsView};
use crate::exchange::{is_word, lemma_first_word};
use crate::ipp::{
    attr_views, lemma_find_in_only_group, lemma_first_named_at, new_msg, preamble, preamble_attrs,
    str_attr, Attr, GroupView, Msg, MsgView, G_OPERATION, OP_GET_PRINTER_ATTRS, T_URI,
};
use crate::server::{attr_text, text_or, with_group};
use crate::text::{
    all_space, before_first, chars_of, contains, cut_first, cut_last, decimal, digit_value,
    digits_value, is_space, is_trim, last_occurrence, last_stand, law_cuts, law_prefix,
    law_searching, law_trimming, lines, lossy, lossy_text, lower, lowered, number, occurs,
    pair_view, parse_number, pieces, same, split, split_first, split_last, stands_at, starts_with,
    strip_prefix, tail, text_lines, texts, trim, trimmed, trimmed_start, up_to, without_prefix,
    word_len,
};
use crate::uri::{law_number_of_decimal, lemma_decimal, uri_of, UriView};
use crate::wire::law_str_reads_back;
use vstd::prelude::*;
use vstd::string::StringExecFns;
use vstd::utf8::*;

verus! {

// ------------------------------------------------------------ command line

/// The options of the setup.
#[derive(Debug)]
pub struct Setup {
    pub printer: Option<String>,
    pub queue: Option<String>,
    pub listen: String,
    pub service: bool,
    pub add_queue: bool,
    /// no questions
    pub yes: bool,
}

/// The options of the setup as a mathematical value.
#[verifier::ext_equal]
pub struct SetupView {
    pub printer: Option<Seq<char>>,
    pub queue: Option<Seq<char>>,
    pub listen: Seq<char>,
    pub service: bool,
    pub add_queue: bool,
    pub yes: bool,
}

impl View for Setup {
    type V = SetupView;

    open spec fn view(&self) -> SetupView {
        SetupView {
            printer: opt(self.printer),
            queue: opt(self.queue),
            listen: self.listen@,
            service: self.service,
            add_queue: self.add_queue,
            yes: self.yes,
        }
    }
}

/// An optional text as a mathematical value.
pub open spec fn opt(s: Option<String>) -> Option<Seq<char>> {
    match s {
        Some(s) => Some(s@),
        None => None,
    }
}

/// What the command line asks for.
#[derive(Debug)]
pub enum Call {
    /// the setup
    Run(Setup),
    /// the help text
    Help,
    /// what is wrong
    Unknown(String),
}

/// What the command line asks for as a mathematical value.
#[verifier::ext_equal]
pub enum CallView {
    Run(SetupView),
    Help,
    Unknown(Seq<char>),
}

impl View for Call {
    type V = CallView;

    open spec fn view(&self) -> CallView {
        match self {
            Call::Run(s) => CallView::Run(s@),
            Call::Help => CallView::Help,
            Call::Unknown(e) => CallView::Unknown(e@),
        }
    }
}

/// What holds where no option says otherwise.
pub open spec fn defaults() -> SetupView {
    SetupView {
        printer: None,
        queue: None,
        listen: "127.0.0.1:6632"@,
        service: true,
        add_queue: true,
        yes: false,
    }
}

/// What a list of arguments asks for, read from the front. A value that is
/// missing at the end counts as not given.
pub open spec fn read_call(args: Seq<Seq<char>>, s: SetupView) -> CallView
    decreases args.len(),
{
    if args.len() == 0 {
        CallView::Run(s)
    } else {
        let value = if args.len() > 1 {
            Some(args[1])
        } else {
            None
        };
        let rest = if args.len() > 1 {
            args.skip(2)
        } else {
            args.skip(1)
        };
        if args[0] == "--printer"@ {
            read_call(rest, SetupView { printer: value, ..s })
        } else if args[0] == "--queue"@ {
            read_call(rest, SetupView { queue: value, ..s })
        } else if args[0] == "--listen"@ {
            read_call(
                rest,
                SetupView {
                    listen: match value {
                        Some(v) => v,
                        None => s.listen,
                    },
                    ..s
                },
            )
        } else if args[0] == "--no-service"@ {
            read_call(args.skip(1), SetupView { service: false, ..s })
        } else if args[0] == "--no-queue"@ {
            read_call(args.skip(1), SetupView { add_queue: false, ..s })
        } else if args[0] == "--yes"@ {
            read_call(args.skip(1), SetupView { yes: true, ..s })
        } else if args[0] == "-h"@ || args[0] == "--help"@ {
            CallView::Help
        } else {
            CallView::Unknown("unknown option '"@ + args[0] + "'"@)
        }
    }
}

/// Reads the command line, without the program's name.
pub fn parse_call(args: &Vec<String>) -> (r: Call)
    ensures
        r@ == read_call(texts(args@), defaults()),
{
    let ghost all = texts(args@);
    let mut s = Setup {
        printer: None,
        queue: None,
        listen: "127.0.0.1:6632".to_owned(),
        service: true,
        add_queue: true,
        yes: false,
    };
    let mut i: usize = 0;
    assert(all.skip(0) =~= all);
    while i < args.len()
        invariant
            i <= args@.len(),
            all == texts(args@),
            read_call(all, defaults()) == read_call(all.skip(i as int), s@),
        decreases args@.len() - i,
    {
        let a = args[i].as_str();
        let ghost left = all.skip(i as int);
        assert(left[0] == a@);
        assert(left.skip(1) =~= all.skip(i + 1));
        let value: Option<String> = if args.len() - i > 1 {
            assert(left[1] == args@[i + 1]@);
            assert(left.skip(2) =~= all.skip(i + 2));
            Some(args[i + 1].clone())
        } else {
            None
        };
        let step: usize = if args.len() - i > 1 {
            2
        } else {
            1
        };
        if same(a, "--printer") {
            s.printer = value;
            i += step;
        } else if same(a, "--queue") {
            s.queue = value;
            i += step;
        } else if same(a, "--listen") {
            match value {
                Some(v) => {
                    s.listen = v;
                },
                None => {},
            }
            i += step;
        } else if same(a, "--no-service") {
            s.service = false;
            i += 1;
        } else if same(a, "--no-queue") {
            s.add_queue = false;
            i += 1;
        } else if same(a, "--yes") {
            s.yes = true;
            i += 1;
        } else if same(a, "-h") || same(a, "--help") {
            return Call::Help;
        } else {
            let mut e = "unknown option '".to_owned();
            e.append(a);
            e.append("'");
            return Call::Unknown(e);
        }
    }
    Call::Run(s)
}

// --------------------------------------------------------------- questions

/// What a line of input answers: its text, or the default where it is empty.
pub open spec fn answer_text(line: Seq<char>, default: Seq<char>) -> Seq<char> {
    if trimmed(line).len() == 0 {
        default
    } else {
        trimmed(line)
    }
}

/// What a line of input answers. Where there is no input left, the line is empty.
pub fn ask(line: &str, default: &str) -> (r: String)
    ensures
        r@ == answer_text(line@, default@),
{
    let t = trim(line);
    if t.as_str().is_empty() {
        default.to_owned()
    } else {
        t
    }
}

/// Whether an answer means yes; one that means neither is the default.
pub open spec fn means_yes(answer: Seq<char>, default: bool) -> bool {
    let a = lowered(answer);
    if a == "y"@ || a == "yes"@ {
        true
    } else if a == "n"@ || a == "no"@ {
        false
    } else {
        default
    }
}

/// Whether an answer means yes.
pub fn confirm(answer: &str, default: bool) -> (r: bool)
    ensures
        r == means_yes(answer@, default),
{
    let a = lower(answer);
    if same(a.as_str(), "y") || same(a.as_str(), "yes") {
        true
    } else if same(a.as_str(), "n") || same(a.as_str(), "no") {
        false
    } else {
        default
    }
}

/// How the default of a question is shown.
pub open spec fn choices_text(default: bool) -> Seq<char> {
    if default {
        "Y/n"@
    } else {
        "y/N"@
    }
}

/// How the default of a question is shown.
pub fn choices(default: bool) -> (r: &'static str)
    ensures
        r@ == choices_text(default),
        r@ == (if default {
            "Y/n"@
        } else {
            "y/N"@
        }),
{
    if default {
        "Y/n"
    } else {
        "y/N"
    }
}

// ---------------------------------------------------------- other programs

/// Whether a program is there, by what its `--version` did: it succeeded, or it
/// said something.
pub open spec fn is_there(success: bool, stdout: Seq<u8>, stderr: Seq<u8>) -> bool {
    success || stderr.len() > 0 || stdout.len() > 0
}

/// Whether a program is there, by what its `--version` did: it succeeded, or it
/// said something.
pub fn have(success: bool, stdout: &[u8], stderr: &[u8]) -> (r: bool)
    ensures
        r == (success || stderr@.len() > 0 || stdout@.len() > 0),
        r == is_there(success, stdout@, stderr@),
{
    success || stderr.len() > 0 || stdout.len() > 0
}

/// What a program said: its output, or why it failed.
pub open spec fn run_result(
    success: bool,
    stdout: Seq<u8>,
    stderr: Seq<u8>,
    status: Seq<char>,
) -> Result<Seq<char>, Seq<char>> {
    if success {
        Ok(lossy(stdout))
    } else if trimmed(lossy(stderr)).len() == 0 {
        Err("exit status "@ + status)
    } else {
        Err(trimmed(lossy(stderr)))
    }
}

/// A text or an error as a mathematical value.
pub open spec fn text_result(r: Result<String, String>) -> Result<Seq<char>, Seq<char>> {
    match r {
        Ok(s) => Ok(s@),
        Err(e) => Err(e@),
    }
}

/// What a program said that ended, with its status in words.
pub fn run(success: bool, stdout: &[u8], stderr: &[u8], status: &str) -> (r: Result<String, String>)
    ensures
        text_result(r) == run_result(success, stdout@, stderr@, status@),
{
    if success {
        Ok(lossy_text(stdout))
    } else {
        let text = lossy_text(stderr);
        let message = trim(text.as_str());
        if message.as_str().is_empty() {
            let mut e = "exit status ".to_owned();
            e.append(status);
            Err(e)
        } else {
            Err(message)
        }
    }
}

/// The path of a file in a directory.
pub open spec fn in_dir(dir: Seq<char>, name: Seq<char>) -> Seq<char> {
    if dir.len() == 0 || dir.last() == '/' {
        dir + name
    } else {
        dir + "/"@ + name
    }
}

/// The paths under which the daemon is looked for, by the search path.
pub open spec fn search_paths(path: Seq<char>) -> Seq<Seq<char>> {
    pieces(path, ':').map_values(|dir: Seq<char>| in_dir(dir, "ipp-duplexd"@))
}

/// The paths under which the daemon is looked for, by the search path.
pub fn find_duplexd(path: &str) -> (r: Vec<String>)
    ensures
        texts(r@) == search_paths(path@),
{
    let dirs = split(path, ':');
    let ghost all = search_paths(path@);
    let mut out: Vec<String> = Vec::new();
    let mut i: usize = 0;
    while i < dirs.len()
        invariant
            i <= dirs@.len(),
            out@.len() == i,
            texts(dirs@) == pieces(path@, ':'),
            all == search_paths(path@),
            forall|k: int| 0 <= k < i ==> (#[trigger] out@[k])@ == all[k],
        decreases dirs@.len() - i,
    {
        let dir = dirs[i].as_str();
        assert(texts(dirs@)[i as int] == dir@);
        let chars = chars_of(dir);
        let mut p = dir.to_owned();
        if chars.len() > 0 && chars[chars.len() - 1] != '/' {
            p.append("/");
        }
        p.append("ipp-duplexd");
        out.push(p);
        i += 1;
    }
    assert(texts(out@) =~= all);
    out
}

/// The request that finds out whether a printer answers.
pub open spec fn probe_msg(uri: Seq<char>) -> MsgView {
    with_group(
        new_msg(OP_GET_PRINTER_ATTRS, 1),
        GroupView {
            tag: G_OPERATION,
            attrs: preamble() + seq![str_attr(T_URI, "printer-uri"@, uri)],
        },
    )
}

/// The request that finds out whether a printer answers.
pub fn probe(uri: &str) -> (r: Msg)
    ensures
        r@ == probe_msg(uri@),
{
    let mut attrs = preamble_attrs();
    attrs.push(Attr::str(T_URI, "printer-uri", uri));
    assert(attr_views(attrs@) =~= preamble() + seq![str_attr(T_URI, "printer-uri"@, uri@)]);
    let mut msg = Msg::new(OP_GET_PRINTER_ATTRS, 1);
    msg.add_group(G_OPERATION, attrs);
    msg
}

/// The make and model of a printer that answered.
pub open spec fn probed_text(resp: MsgView) -> Seq<char> {
    text_or(resp.find("printer-make-and-model"@), "(unnamed IPP printer)"@)
}

/// The make and model of a printer that answered.
pub fn probed(resp: &Msg) -> (r: String)
    ensures
        r@ == text_or(resp@.find("printer-make-and-model"@), "(unnamed IPP printer)"@),
        r@ == probed_text(resp@),
{
    attr_text(resp.find("printer-make-and-model"), "(unnamed IPP printer)")
}

// ----------------------------------------------------------- printer choice

/// The queue and its device that a line of `lpstat -v` names.
pub open spec fn queue_in(line: Seq<char>) -> Option<(Seq<char>, Seq<char>)> {
    match without_prefix(line, "device for "@) {
        None => None,
        Some(rest) => match cut_first(rest, ':') {
            None => None,
            Some((name, uri)) => Some((trimmed(name), trimmed(uri))),
        },
    }
}

/// The queues that some lines name.
pub open spec fn queues_in(lines: Seq<Seq<char>>) -> Seq<(Seq<char>, Seq<char>)>
    decreases lines.len(),
{
    if lines.len() == 0 {
        seq![]
    } else {
        let before = queues_in(lines.drop_last());
        match queue_in(lines.last()) {
            Some(q) => before.push(q),
            None => before,
        }
    }
}

/// A list of queues as a mathematical value.
pub open spec fn queue_views(queues: Seq<(String, String)>) -> Seq<(Seq<char>, Seq<char>)> {
    queues.map_values(|q: (String, String)| pair_view(q))
}

/// The queues that the output of `lpstat -v` names, with their devices.
pub fn cups_queues(output: &str) -> (r: Vec<(String, String)>)
    ensures
        queue_views(r@) == queues_in(text_lines(output@)),
{
    let all = lines(output);
    let ghost every = texts(all@);
    let mut out: Vec<(String, String)> = Vec::new();
    let mut i: usize = 0;
    assert(queue_views(out@) =~= queues_in(every.take(0)));
    while i < all.len()
        invariant
            i <= all@.len(),
            every == texts(all@),
            queue_views(out@) == queues_in(every.take(i as int)),
        decreases all@.len() - i,
    {
        let ghost before = queue_views(out@);
        assert(every.take(i + 1).drop_last() =~= every.take(i as int));
        assert(every.take(i + 1).last() == all@[i as int]@);
        match strip_prefix(all[i].as_str(), "device for ") {
            Some(rest) => match split_first(rest.as_str(), ':') {
                Some(pair) => {
                    out.push((trim(pair.0.as_str()), trim(pair.1.as_str())));
                    assert(queue_views(out@) =~= before.push(queue_in(every[i as int]).unwrap()));
                },
                None => {},
            },
            None => {},
        }
        i += 1;
    }
    assert(every.take(i as int) =~= every);
    out
}

/// Whether a device is the daemon itself, which must not forward to itself.
pub open spec fn is_self(uri: Seq<char>) -> bool {
    occurs(uri, "127.0.0.1:6632"@) || occurs(uri, "localhost:6632"@)
}

/// The queues that the daemon can forward to.
pub open spec fn usable(queues: Seq<(Seq<char>, Seq<char>)>) -> Seq<(Seq<char>, Seq<char>)> {
    queues.filter(|q: (Seq<char>, Seq<char>)| !is_self(q.1))
}

/// The queues that the daemon can forward to.
pub fn usable_queues(queues: Vec<(String, String)>) -> (r: Vec<(String, String)>)
    ensures
        queue_views(r@) == usable(queue_views(queues@)),
{
    let ghost all = queue_views(queues@);
    let ghost keep = |q: (Seq<char>, Seq<char>)| !is_self(q.1);
    let mut out: Vec<(String, String)> = Vec::new();
    let mut i: usize = 0;
    reveal(Seq::filter);
    assert(queue_views(out@) =~= all.take(0).filter(keep));
    while i < queues.len()
        invariant
            i <= queues@.len(),
            all == queue_views(queues@),
            keep == (|q: (Seq<char>, Seq<char>)| !is_self(q.1)),
            queue_views(out@) == all.take(i as int).filter(keep),
        decreases queues@.len() - i,
    {
        let ghost before = queue_views(out@);
        reveal(Seq::filter);
        assert(all.take(i + 1).drop_last() =~= all.take(i as int));
        assert(all.take(i + 1).last() == pair_view(queues@[i as int]));
        let uri = queues[i].1.as_str();
        if !contains(uri, "127.0.0.1:6632") && !contains(uri, "localhost:6632") {
            out.push((queues[i].0.clone(), queues[i].1.clone()));
            assert(queue_views(out@) =~= before.push(all[i as int]));
        }
        i += 1;
    }
    assert(all.take(i as int) =~= all);
    out
}

/// The printer that an answer chooses: a queue by its number, counted from 1, or
/// an address; nothing where the answer is neither.
pub open spec fn chosen(
    answer: Seq<char>,
    queues: Seq<(Seq<char>, Seq<char>)>,
) -> Option<Seq<char>> {
    match number(answer, 10, usize::MAX as nat) {
        Some(n) if 1 <= n <= queues.len() => Some(
            "ipp://127.0.0.1:631/printers/"@ + queues[n - 1].0,
        ),
        _ => if "ipp://"@.is_prefix_of(answer) || "http://"@.is_prefix_of(answer) {
            Some(answer)
        } else {
            None
        },
    }
}

/// The printer that an answer chooses.
pub fn choose_printer(answer: &str, queues: &Vec<(String, String)>) -> (r: Option<String>)
    ensures
        opt(r) == chosen(answer@, queue_views(queues@)),
{
    match parse_number(answer, 10, usize::MAX as u64) {
        Some(n) => {
            if 1 <= n && n <= queues.len() as u64 {
                let i: usize = (n - 1) as usize;
                assert(queue_views(queues@)[i as int] == pair_view(queues@[i as int]));
                let mut s = "ipp://127.0.0.1:631/printers/".to_owned();
                s.append(queues[i].0.as_str());
                return Some(s);
            }
        },
        None => {},
    }
    if starts_with(answer, "ipp://") || starts_with(answer, "http://") {
        Some(answer.to_owned())
    } else {
        None
    }
}

/// The name of the new queue: that of the queue behind it, or a general one.
pub open spec fn default_queue(printer: Seq<char>) -> Seq<char> {
    match last_stand(printer, "/printers/"@, printer.len() as int) {
        Some(i) => printer.skip(i + "/printers/"@.len()) + "-duplex"@,
        None => "manual-duplex"@,
    }
}

/// "laser-duplex" when forwarding to a CUPS queue, else "manual-duplex".
pub fn queue_default(printer: &str) -> (r: String)
    ensures
        r@ == default_queue(printer@),
{
    proof {
        reveal_strlit("/printers/");
    }
    match last_occurrence(printer, "/printers/") {
        Some(i) => {
            let mut s = tail(printer, i + 10);
            s.append("-duplex");
            s
        },
        None => "manual-duplex".to_owned(),
    }
}

// ------------------------------------------------------------- config file

/// The answers to the advanced questions.
#[derive(Debug)]
pub struct Advanced {
    pub gui: bool,
    pub rotate: bool,
    pub blank: String,
}

/// The arguments that the daemon is to be run with.
pub open spec fn daemon_args_text(
    printer: Seq<char>,
    listen: Seq<char>,
    advanced: Option<(bool, bool, Seq<char>)>,
) -> Seq<char> {
    let base = "--printer "@ + printer;
    let placed = if listen == "127.0.0.1:6632"@ {
        base
    } else {
        base + " --listen "@ + listen
    };
    match advanced {
        None => placed,
        Some((gui, rotate, blank)) => {
            let shown = if gui {
                placed
            } else {
                placed + " --no-gui"@
            };
            let turned = if rotate {
                shown
            } else {
                shown + " --rotate-even 0"@
            };
            if blank == "leading"@ {
                turned
            } else {
                turned + " --blank "@ + blank
            }
        },
    }
}

/// The answers to the advanced questions as a mathematical value.
pub open spec fn advanced_view(a: Option<Advanced>) -> Option<(bool, bool, Seq<char>)> {
    match a {
        Some(a) => Some((a.gui, a.rotate, a.blank@)),
        None => None,
    }
}

/// The arguments that the daemon is to be run with.
pub fn daemon_args(printer: &str, listen: &str, advanced: &Option<Advanced>) -> (r: String)
    ensures
        r@ == daemon_args_text(printer@, listen@, advanced_view(*advanced)),
{
    let mut s = "--printer ".to_owned();
    s.append(printer);
    if !same(listen, "127.0.0.1:6632") {
        s.append(" --listen ");
        s.append(listen);
    }
    match advanced {
        None => {},
        Some(a) => {
            if !a.gui {
                s.append(" --no-gui");
            }
            if !a.rotate {
                s.append(" --rotate-even 0");
            }
            if !same(a.blank.as_str(), "leading") {
                s.append(" --blank ");
                s.append(a.blank.as_str());
            }
        },
    }
    s
}

/// The one line of the config file.
pub open spec fn config_text(args: Seq<char>) -> Seq<char> {
    "IPP_DUPLEXD_ARGS="@ + args + "\n"@
}

/// The one line of the config file.
pub fn config_line(args: &str) -> (r: String)
    ensures
        r@ == config_text(args@),
{
    let mut s = "IPP_DUPLEXD_ARGS=".to_owned();
    s.append(args);
    s.append("\n");
    s
}

/// What to do about the config file.
#[derive(Debug)]
pub enum ConfigStep {
    /// write it
    Write,
    /// nothing: it holds the line already
    Keep,
    /// show these lines of it, and ask whether to overwrite it
    Ask(Vec<String>),
}

/// What to do about the config file as a mathematical value.
#[verifier::ext_equal]
pub enum ConfigStepView {
    Write,
    Keep,
    Ask(Seq<Seq<char>>),
}

impl View for ConfigStep {
    type V = ConfigStepView;

    open spec fn view(&self) -> ConfigStepView {
        match self {
            ConfigStep::Write => ConfigStepView::Write,
            ConfigStep::Keep => ConfigStepView::Keep,
            ConfigStep::Ask(lines) => ConfigStepView::Ask(texts(lines@)),
        }
    }
}

/// What to do about the config file, given what it holds, if it is there.
pub open spec fn config_step(existing: Option<Seq<char>>, line: Seq<char>) -> ConfigStepView {
    match existing {
        None => ConfigStepView::Write,
        Some(text) => if text == line {
            ConfigStepView::Keep
        } else {
            let all = text_lines(text);
            ConfigStepView::Ask(
                if all.len() > 5 {
                    all.take(5)
                } else {
                    all
                },
            )
        },
    }
}

/// What to do about the config file, given what it holds, if it is there.
pub fn write_config(existing: &Option<String>, line: &str) -> (r: ConfigStep)
    ensures
        r@ == config_step(opt(*existing), line@),
{
    match existing {
        None => ConfigStep::Write,
        Some(text) => {
            if same(text.as_str(), line) {
                return ConfigStep::Keep;
            }
            let mut all = lines(text.as_str());
            let ghost every = texts(all@);
            if all.len() > 5 {
                all.truncate(5);
                assert(texts(all@) =~= every.take(5));
            }
            ConfigStep::Ask(all)
        },
    }
}

/// What to do about an optional step.
#[derive(Clone, Copy, Debug, PartialEq, Eq, Structural)]
pub enum Step {
    /// it is carried out
    Run,
    /// the program for it is not there: the user is told how to do it
    ByHand,
    /// it was not asked for
    Skip,
}

/// What to do about a step, by whether it is asked for and whether the program
/// for it is there.
pub open spec fn step_of(asked: bool, available: bool) -> Step {
    if !asked {
        Step::Skip
    } else if available {
        Step::Run
    } else {
        Step::ByHand
    }
}

/// What to do about a step, by whether it is asked for and whether the program
/// for it is there.
pub fn step(asked: bool, available: bool) -> (r: Step)
    ensures
        r == (if !asked {
            Step::Skip
        } else if available {
            Step::Run
        } else {
            Step::ByHand
        }),
        r == step_of(asked, available),
{
    if !asked {
        Step::Skip
    } else if available {
        Step::Run
    } else {
        Step::ByHand
    }
}

// ----------------------------------------------------------------- service

/// The unit that runs the daemon. With the dialog it is bound to the graphical
/// session, whose display it needs; without, to the login.
pub open spec fn unit_text(bin: Seq<char>, gui: bool) -> Seq<char> {
    "[Unit]\nDescription=Manual duplex virtual IPP printer\nAfter=network.target\n"@ + (if gui {
        "After=graphical-session.target\nPartOf=graphical-session.target\n"@
    } else {
        ""@
    }) + "\n[Service]\nEnvironmentFile=%h/.config/ipp-duplexd.conf\nExecStart="@ + bin
        + " $IPP_DUPLEXD_ARGS\nRestart=on-failure\nRestartSec=5\n\n[Install]\nWantedBy="@ + (if gui {
        "graphical-session.target"@
    } else {
        "default.target"@
    }) + "\n"@
}

/// The unit that runs the daemon.
pub fn unit(bin: &str, gui: bool) -> (r: String)
    ensures
        r@ == unit_text(bin@, gui),
{
    let mut s =
        "[Unit]\nDescription=Manual duplex virtual IPP printer\nAfter=network.target\n".to_owned();
    s.append(
        if gui {
            "After=graphical-session.target\nPartOf=graphical-session.target\n"
        } else {
            ""
        },
    );
    s.append("\n[Service]\nEnvironmentFile=%h/.config/ipp-duplexd.conf\nExecStart=");
    s.append(bin);
    s.append(" $IPP_DUPLEXD_ARGS\nRestart=on-failure\nRestartSec=5\n\n[Install]\nWantedBy=");
    s.append(
        if gui {
            "graphical-session.target"
        } else {
            "default.target"
        },
    );
    s.append("\n");
    s
}

/// Whether a listing of an environment has a variable.
pub open spec fn has_variable(listing: Seq<Seq<char>>, name: Seq<char>) -> bool {
    exists|i: int| 0 <= i < listing.len() && before_first(#[trigger] listing[i], '=') == name
}

/// The setting of a variable that the listing lacks and the session has.
pub open spec fn missing_one(
    listing: Seq<Seq<char>>,
    name: Seq<char>,
    value: Option<Seq<char>>,
) -> Seq<Seq<char>> {
    match value {
        Some(v) => if has_variable(listing, name) {
            seq![]
        } else {
            seq![name + "="@ + v]
        },
        None => seq![],
    }
}

/// The display variables that the session has and the service lacks.
pub open spec fn missing(
    environment: Seq<char>,
    display: Option<Seq<char>>,
    wayland: Option<Seq<char>>,
) -> Seq<Seq<char>> {
    let listing = text_lines(environment);
    missing_one(listing, "DISPLAY"@, display) + missing_one(listing, "WAYLAND_DISPLAY"@, wayland)
}

/// Whether a listing of an environment has a variable.
fn lists(listing: &Vec<String>, name: &str) -> (r: bool)
    ensures
        r == has_variable(texts(listing@), name@),
{
    let mut i: usize = 0;
    while i < listing.len()
        invariant
            i <= listing@.len(),
            forall|k: int|
                0 <= k < i ==> before_first(#[trigger] texts(listing@)[k], '=') != name@,
        decreases listing@.len() - i,
    {
        assert(texts(listing@)[i as int] == listing@[i as int]@);
        let variable = up_to(listing[i].as_str(), '=');
        if same(variable.as_str(), name) {
            return true;
        }
        i += 1;
    }
    false
}

/// Adds the setting of a variable that the listing lacks and the session has.
fn push_missing(out: &mut Vec<String>, listing: &Vec<String>, name: &str, value: &Option<String>)
    ensures
        texts(final(out)@) == texts(old(out)@) + missing_one(
            texts(listing@),
            name@,
            opt(*value),
        ),
{
    match value {
        Some(v) => {
            if !lists(listing, name) {
                let mut kv = name.to_owned();
                kv.append("=");
                kv.append(v.as_str());
                out.push(kv);
            }
        },
        None => {},
    }
    assert(texts(out@) =~= texts(old(out)@) + missing_one(texts(listing@), name@, opt(*value)));
}

/// The display variables that the session has and the service lacks, given the
/// environment of the service manager.
pub fn missing_display(
    environment: &str,
    display: &Option<String>,
    wayland: &Option<String>,
) -> (r: Vec<String>)
    ensures
        texts(r@) == missing(environment@, opt(*display), opt(*wayland)),
{
    let listing = lines(environment);
    let mut out: Vec<String> = Vec::new();
    push_missing(&mut out, &listing, "DISPLAY", display);
    push_missing(&mut out, &listing, "WAYLAND_DISPLAY", wayland);
    assert(texts(out@) =~= missing(environment@, opt(*display), opt(*wayland)));
    out
}

/// Whether the unit has to be written: no package brought it, and the user has
/// none.
pub open spec fn unit_is_needed(packaged: bool, user_unit: bool) -> bool {
    !packaged && !user_unit
}

/// Whether the unit has to be written: no package brought it, and the user has
/// none.
pub fn needs_unit(packaged: bool, user_unit: bool) -> (r: bool)
    ensures
        r == (!packaged && !user_unit),
        r == unit_is_needed(packaged, user_unit),
{
    !packaged && !user_unit
}

/// Whether the service should be running after the setup: the unit is there,
/// written where it was needed, and the service manager enabled it.
pub open spec fn is_running(needed: bool, wrote: bool, enabled: bool) -> bool {
    (!needed || wrote) && enabled
}

/// Whether the service should be running after the setup: the unit is there,
/// written where it was needed, and the service manager enabled it.
pub fn service_running(needed: bool, wrote: bool, enabled: bool) -> (r: bool)
    ensures
        r == ((!needed || wrote) && enabled),
        r == is_running(needed, wrote, enabled),
{
    (!needed || wrote) && enabled
}

// -------------------------------------------------------------- CUPS queue

/// The port of a listen address: what follows its last colon, or 6632.
pub open spec fn port_of(listen: Seq<char>) -> u16 {
    let last = match cut_last(listen, ':') {
        Some((_, port)) => port,
        None => listen,
    };
    match number(last, 10, 0xffff) {
        Some(n) => n as u16,
        None => 6632,
    }
}

/// The port of a listen address.
pub fn listen_port(listen: &str) -> (r: u16)
    ensures
        r == port_of(listen@),
{
    let last = match split_last(listen, ':') {
        Some(pair) => pair.1,
        None => listen.to_owned(),
    };
    match parse_number(last.as_str(), 10, 0xffff) {
        Some(n) => n as u16,
        None => 6632,
    }
}

/// What to do about the queue.
#[derive(Debug)]
pub enum QueueStep {
    /// add it
    Add,
    /// nothing: it points at the daemon already
    Keep,
    /// ask whether to repoint it from this device
    Ask(String),
}

/// What to do about the queue as a mathematical value.
#[verifier::ext_equal]
pub enum QueueStepView {
    Add,
    Keep,
    Ask(Seq<char>),
}

impl View for QueueStep {
    type V = QueueStepView;

    open spec fn view(&self) -> QueueStepView {
        match self {
            QueueStep::Add => QueueStepView::Add,
            QueueStep::Keep => QueueStepView::Keep,
            QueueStep::Ask(uri) => QueueStepView::Ask(uri@),
        }
    }
}

/// The device of the first queue of that name.
pub open spec fn device_of(
    queues: Seq<(Seq<char>, Seq<char>)>,
    name: Seq<char>,
) -> Option<Seq<char>>
    decreases queues.len(),
{
    if queues.len() == 0 {
        None
    } else if queues[0].0 == name {
        Some(queues[0].1)
    } else {
        device_of(queues.drop_first(), name)
    }
}

/// What to do about the queue, given those that there are.
pub open spec fn queue_step(
    queues: Seq<(Seq<char>, Seq<char>)>,
    name: Seq<char>,
    self_uri: Seq<char>,
) -> QueueStepView {
    match device_of(queues, name) {
        None => QueueStepView::Add,
        Some(uri) => if uri == self_uri {
            QueueStepView::Keep
        } else {
            QueueStepView::Ask(uri)
        },
    }
}

/// What to do about the queue, given those that there are.
pub fn add_queue(queues: &Vec<(String, String)>, name: &str, self_uri: &str) -> (r: QueueStep)
    ensures
        r@ == queue_step(queue_views(queues@), name@, self_uri@),
{
    let ghost all = queue_views(queues@);
    let mut i: usize = 0;
    assert(all.skip(0) =~= all);
    while i < queues.len()
        invariant
            i <= queues@.len(),
            all == queue_views(queues@),
            device_of(all, name@) == device_of(all.skip(i as int), name@),
        decreases queues@.len() - i,
    {
        assert(all.skip(i as int)[0] == pair_view(queues@[i as int]));
        assert(all.skip(i as int).drop_first() =~= all.skip(i + 1));
        if same(queues[i].0.as_str(), name) {
            if same(queues[i].1.as_str(), self_uri) {
                return QueueStep::Keep;
            }
            return QueueStep::Ask(queues[i].1.clone());
        }
        i += 1;
    }
    QueueStep::Add
}

/// The arguments of `lpadmin` that add the queue.
pub open spec fn lpadmin_text(queue: Seq<char>, self_uri: Seq<char>) -> Seq<Seq<char>> {
    seq!["-p"@, queue, "-E"@, "-v"@, self_uri, "-m"@, "everywhere"@]
}

/// The arguments of `lpadmin` that add the queue.
pub fn lpadmin_args(queue: &str, self_uri: &str) -> (r: Vec<String>)
    ensures
        texts(r@) == lpadmin_text(queue@, self_uri@),
{
    let mut out: Vec<String> = Vec::new();
    out.push("-p".to_owned());
    out.push(queue.to_owned());
    out.push("-E".to_owned());
    out.push("-v".to_owned());
    out.push(self_uri.to_owned());
    out.push("-m".to_owned());
    out.push("everywhere".to_owned());
    assert(texts(out@) =~= lpadmin_text(queue@, self_uri@));
    out
}

// ------------------------------------------------------------------- laws

/// The setup can be run again: what it wrote and added is found as it should be,
/// and nothing is asked or changed.
pub proof fn law_setup_is_repeatable(
    args: Seq<char>,
    queues: Seq<(Seq<char>, Seq<char>)>,
    name: Seq<char>,
    self_uri: Seq<char>,
)
    requires
        device_of(queues, name) == Some(self_uri),
    ensures
        config_step(Some(config_text(args)), config_text(args)) == ConfigStepView::Keep,
        queue_step(queues, name, self_uri) == QueueStepView::Keep,
{
}

/// The daemon is not offered as its own printer: no queue to choose from leads
/// back to it.
pub proof fn law_no_loop_is_offered(queues: Seq<(Seq<char>, Seq<char>)>, i: int)
    requires
        0 <= i < usable(queues).len(),
    ensures
        !is_self(usable(queues)[i].1),
{
    queues.lemma_filter_pred(|q: (Seq<char>, Seq<char>)| !is_self(q.1), i);
}

proof fn lemma_trimmed_len(s: Seq<char>)
    ensures
        trimmed_start(s).len() <= s.len(),
        trimmed_start(s).len() > 0 ==> !is_space(trimmed_start(s)[0]),
    decreases s.len(),
{
    if s.len() > 0 && is_space(s[0]) {
        lemma_trimmed_len(s.drop_first());
    }
}

proof fn lemma_word_within(s: Seq<char>)
    ensures
        word_len(s) <= s.len(),
    decreases s.len(),
{
    if s.len() > 0 && !is_space(s[0]) {
        lemma_word_within(s.drop_first());
    }
}

/// The words of a text, as a service manager splits a variable into arguments.
pub open spec fn words(s: Seq<char>) -> Seq<Seq<char>>
    decreases s.len(),
    via words_decreases
{
    let t = trimmed_start(s);
    if t.len() == 0 {
        seq![]
    } else {
        seq![t.take(word_len(t) as int)] + words(t.skip(word_len(t) as int))
    }
}

#[via_fn]
proof fn words_decreases(s: Seq<char>) {
    lemma_trimmed_len(s);
    lemma_word_within(trimmed_start(s));
}

/// Words that are written after a text, each behind a space.
spec fn spaced(list: Seq<Seq<char>>) -> Seq<char>
    decreases list.len(),
{
    if list.len() == 0 {
        seq![]
    } else {
        seq![' '] + list[0] + spaced(list.drop_first())
    }
}

proof fn lemma_words_of_spaced(list: Seq<Seq<char>>)
    requires
        forall|i: int| 0 <= i < list.len() ==> is_word(#[trigger] list[i]),
    ensures
        words(spaced(list)) == list,
    decreases list.len(),
{
    if list.len() == 0 {
        assert(words(spaced(list)) =~= list);
    } else {
        let rest = list.drop_first();
        assert forall|i: int| 0 <= i < rest.len() implies is_word(#[trigger] rest[i]) by {
            assert(rest[i] == list[i + 1]);
        }
        lemma_words_of_spaced(rest);
        let more = spaced(rest);
        assert(is_word(list[0]));
        assert(more.len() == 0 || more[0] == ' ');
        lemma_first_word(list[0], more);
        let s = spaced(list);
        assert(s.drop_first() =~= list[0] + more);
        assert(trimmed_start(s) == list[0] + more);
        assert((list[0] + more).take(list[0].len() as int) =~= list[0]);
        assert((list[0] + more).skip(list[0].len() as int) =~= more);
        assert(words(s) =~= list);
    }
}

proof fn lemma_spaced_push(list: Seq<Seq<char>>, w: Seq<char>)
    ensures
        spaced(list.push(w)) == spaced(list) + seq![' '] + w,
    decreases list.len(),
{
    if list.len() == 0 {
        let after = list.push(w).drop_first();
        assert(after.len() == 0);
        assert(list.push(w)[0] == w);
        assert(spaced(list.push(w)) =~= seq![' '] + w + spaced(after));
        assert(spaced(list.push(w)) =~= spaced(list) + seq![' '] + w);
    } else {
        assert(list.push(w).drop_first() =~= list.drop_first().push(w));
        lemma_spaced_push(list.drop_first(), w);
        assert(list.push(w)[0] == list[0]);
        assert(spaced(list.push(w)) =~= spaced(list) + seq![' '] + w);
    }
}

/// The arguments of the daemon, one by one.
pub open spec fn daemon_words(
    printer: Seq<char>,
    listen: Seq<char>,
    advanced: Option<(bool, bool, Seq<char>)>,
) -> Seq<Seq<char>> {
    let base = seq!["--printer"@, printer];
    let placed = if listen == "127.0.0.1:6632"@ {
        base
    } else {
        base.push("--listen"@).push(listen)
    };
    match advanced {
        None => placed,
        Some((gui, rotate, blank)) => {
            let shown = if gui {
                placed
            } else {
                placed.push("--no-gui"@)
            };
            let turned = if rotate {
                shown
            } else {
                shown.push("--rotate-even"@).push("0"@)
            };
            if blank == "leading"@ {
                turned
            } else {
                turned.push("--blank"@).push(blank)
            }
        },
    }
}

/// A flag, and a value behind it, as they are written.
proof fn lemma_flag(list: Seq<Seq<char>>, flag: Seq<char>, value: Seq<char>, text: Seq<char>)
    requires
        text == seq![' '] + flag + seq![' '],
    ensures
        spaced(list.push(flag).push(value)) == spaced(list) + text + value,
{
    lemma_spaced_push(list, flag);
    lemma_spaced_push(list.push(flag), value);
    assert(spaced(list) + seq![' '] + flag + seq![' '] + value =~= spaced(list) + text + value);
}

/// The arguments are written with a space before each, but for the first.
proof fn lemma_daemon_text(
    printer: Seq<char>,
    listen: Seq<char>,
    advanced: Option<(bool, bool, Seq<char>)>,
)
    ensures
        spaced(daemon_words(printer, listen, advanced)) == seq![' '] + daemon_args_text(
            printer,
            listen,
            advanced,
        ),
{
    reveal_strlit("--printer ");
    reveal_strlit("--printer");
    reveal_strlit(" --listen ");
    reveal_strlit("--listen");
    reveal_strlit(" --no-gui");
    reveal_strlit("--no-gui");
    reveal_strlit(" --rotate-even 0");
    reveal_strlit("--rotate-even");
    reveal_strlit("0");
    reveal_strlit(" --blank ");
    reveal_strlit("--blank");
    let none = Seq::<Seq<char>>::empty();
    let space = seq![' '];
    let base = seq!["--printer"@, printer];
    let base_text = "--printer "@ + printer;
    assert(base =~= none.push("--printer"@).push(printer));
    assert(space + "--printer "@ =~= space + "--printer"@ + space);
    lemma_flag(none, "--printer"@, printer, space + "--printer "@);
    assert(spaced(none) + (space + "--printer "@) + printer =~= space + base_text);
    let at_default = listen == "127.0.0.1:6632"@;
    let placed = if at_default {
        base
    } else {
        base.push("--listen"@).push(listen)
    };
    let placed_text = if at_default {
        base_text
    } else {
        base_text + " --listen "@ + listen
    };
    assert(" --listen "@ =~= space + "--listen"@ + space);
    lemma_flag(base, "--listen"@, listen, " --listen "@);
    assert(space + base_text + " --listen "@ + listen =~= space + (base_text + " --listen "@
        + listen));
    assert(spaced(placed) == space + placed_text);
    if let Some((gui, rotate, blank)) = advanced {
        let shown = if gui {
            placed
        } else {
            placed.push("--no-gui"@)
        };
        let shown_text = if gui {
            placed_text
        } else {
            placed_text + " --no-gui"@
        };
        lemma_spaced_push(placed, "--no-gui"@);
        assert(space + placed_text + space + "--no-gui"@ =~= space + (placed_text + " --no-gui"@));
        assert(spaced(shown) == space + shown_text);
        let turned = if rotate {
            shown
        } else {
            shown.push("--rotate-even"@).push("0"@)
        };
        let turned_text = if rotate {
            shown_text
        } else {
            shown_text + " --rotate-even 0"@
        };
        lemma_flag(shown, "--rotate-even"@, "0"@, space + "--rotate-even"@ + space);
        assert(space + shown_text + (space + "--rotate-even"@ + space) + "0"@ =~= space + (
        shown_text + " --rotate-even 0"@));
        assert(spaced(turned) == space + turned_text);
        assert(" --blank "@ =~= space + "--blank"@ + space);
        lemma_flag(turned, "--blank"@, blank, " --blank "@);
        assert(space + turned_text + " --blank "@ + blank =~= space + (turned_text + " --blank "@
            + blank));
    }
}

proof fn lemma_words_behind_space(s: Seq<char>)
    ensures
        words(seq![' '] + s) == words(s),
{
    assert((seq![' '] + s).drop_first() =~= s);
    assert(trimmed_start(seq![' '] + s) == trimmed_start(s));
}

/// A flag with a value is read, and what follows it is left.
proof fn lemma_read_valued(
    f: FlagsView,
    flag: Seq<char>,
    value: Seq<char>,
    rest: Seq<Seq<char>>,
    g: FlagsView,
)
    requires
        valued().contains(flag),
        with_value(f, flag, value) == Ok::<FlagsView, Seq<char>>(g),
    ensures
        read_flags(seq![flag, value] + rest, f) == read_flags(rest, g),
{
    let args = seq![flag, value] + rest;
    assert(args[0] == flag);
    assert(args[1] == value);
    assert(args.skip(2) =~= rest);
}

proof fn lemma_flags_differ()
    ensures
        "--printer"@ != "--listen"@,
        "--blank"@ != "--listen"@,
        "--blank"@ != "--printer"@,
        "--blank"@ != "--name"@,
        "--rotate-even"@ != "--listen"@,
        "--rotate-even"@ != "--printer"@,
        "--rotate-even"@ != "--name"@,
        "--rotate-even"@ != "--blank"@,
        "--rotate-even"@ != "--auto-continue"@,
        "--no-gui"@ != "--gui"@,
        !valued().contains("--no-gui"@),
        valued().contains("--printer"@),
        valued().contains("--listen"@),
        valued().contains("--blank"@),
        valued().contains("--rotate-even"@),
{
    reveal_strlit("--printer");
    reveal_strlit("--listen");
    reveal_strlit("--name");
    reveal_strlit("--blank");
    reveal_strlit("--auto-continue");
    reveal_strlit("--rotate-even");
    reveal_strlit("--poll");
    reveal_strlit("--gui");
    reveal_strlit("--no-gui");
    assert("--rotate-even"@.len() != "--auto-continue"@.len());
    let v = valued();
    assert(v[0] == "--listen"@);
    assert(v[1] == "--printer"@);
    assert(v[3] == "--blank"@);
    assert(v[5] == "--rotate-even"@);
    let no_gui = "--no-gui"@;
    assert("--listen"@[2] != no_gui[2]);
    assert("--blank"@[2] != no_gui[2]);
    assert("--name"@[3] != no_gui[3]);
    assert(!v.contains(no_gui)) by {
        assert forall|i: int| 0 <= i < v.len() implies v[i] != no_gui by {
            assert(v[i].len() != no_gui.len() || v[i][2] != no_gui[2]);
        }
    }
}

/// The options that the setup's answers are meant to give.
pub open spec fn meant(
    printer: UriView,
    listen: Seq<char>,
    advanced: Option<(bool, bool, Seq<char>)>,
) -> FlagsView {
    let (gui, rotate, blank) = match advanced {
        Some(a) => a,
        None => (true, true, "leading"@),
    };
    FlagsView {
        listen,
        printer: Some(printer),
        gui,
        rotate_even: if rotate {
            180
        } else {
            0
        },
        blank,
        ..config::defaults()
    }
}

proof fn lemma_zero()
    ensures
        number("0"@, 10, u32::MAX as nat) == Some(0nat),
{
    reveal_strlit("0");
    let s = "0"@;
    assert(s.drop_last() =~= seq![]);
    assert(digits_value(s.drop_last(), 10) == Some(0nat));
    assert(digit_value(s.last(), 10) == Some(0nat));
    assert(digits_value(s, 10) == Some(0nat));
}

proof fn lemma_words_are_read(
    printer: Seq<char>,
    uri: UriView,
    listen: Seq<char>,
    gui: bool,
    rotate: bool,
    blank: Seq<char>,
)
    requires
        uri_of(printer) == Ok::<UriView, Seq<char>>(uri),
    ensures
        read_flags(
            daemon_words(printer, listen, Some((gui, rotate, blank))),
            config::defaults(),
        ) == Ok::<FlagsView, Seq<char>>(meant(uri, listen, Some((gui, rotate, blank)))),
{
    lemma_flags_differ();
    lemma_zero();
    let none = Seq::<Seq<char>>::empty();
    let f0 = config::defaults();
    let f1 = FlagsView { printer: Some(uri), ..f0 };
    let f2 = FlagsView { listen, ..f1 };
    let f3 = FlagsView { gui, ..f2 };
    let f4 = FlagsView {
        rotate_even: if rotate {
            180
        } else {
            0
        },
        ..f3
    };
    let f5 = FlagsView { blank, ..f4 };
    let b = if blank == "leading"@ {
        none
    } else {
        seq!["--blank"@, blank]
    };
    let r = if rotate {
        b
    } else {
        seq!["--rotate-even"@, "0"@] + b
    };
    let g = if gui {
        r
    } else {
        seq!["--no-gui"@] + r
    };
    let l = if listen == "127.0.0.1:6632"@ {
        g
    } else {
        seq!["--listen"@, listen] + g
    };
    let all = seq!["--printer"@, printer] + l;
    assert(daemon_words(printer, listen, Some((gui, rotate, blank))) =~= all);
    lemma_read_valued(f0, "--printer"@, printer, l, f1);
    lemma_read_valued(f1, "--listen"@, listen, g, f2);
    assert(read_flags(l, f1) == read_flags(g, f2));
    if !gui {
        assert(g[0] == "--no-gui"@);
        assert(g.skip(1) =~= r);
    }
    assert(read_flags(g, f2) == read_flags(r, f3));
    lemma_read_valued(f3, "--rotate-even"@, "0"@, b, FlagsView { rotate_even: 0, ..f3 });
    assert(read_flags(r, f3) == read_flags(b, f4));
    lemma_read_valued(f4, "--blank"@, blank, none, f5);
    assert(seq!["--blank"@, blank] + none =~= seq!["--blank"@, blank]);
    assert(read_flags(none, f5) == Ok::<FlagsView, Seq<char>>(f5));
    assert(read_flags(b, f4) == Ok::<FlagsView, Seq<char>>(f5));
}

proof fn lemma_words_are_words(
    printer: Seq<char>,
    listen: Seq<char>,
    advanced: Option<(bool, bool, Seq<char>)>,
)
    requires
        is_word(printer),
        is_word(listen),
        advanced matches Some((_, _, blank)) ==> is_word(blank),
    ensures
        forall|i: int|
            0 <= i < daemon_words(printer, listen, advanced).len() ==> is_word(
                #[trigger] daemon_words(printer, listen, advanced)[i],
            ),
{
    reveal_strlit("--printer");
    reveal_strlit("--listen");
    reveal_strlit("--no-gui");
    reveal_strlit("--rotate-even");
    reveal_strlit("0");
    reveal_strlit("--blank");
    assert(is_word("--printer"@));
    assert(is_word("--listen"@));
    assert(is_word("--no-gui"@));
    assert(is_word("--rotate-even"@));
    assert(is_word("0"@));
    assert(is_word("--blank"@));
}

/// What the setup writes, the daemon takes as it was meant: split into words and
/// read as a command line, the arguments give the printer, the address and the
/// answers to the advanced questions, and the defaults for everything else.
pub proof fn law_daemon_reads_what_setup_writes(
    printer: Seq<char>,
    uri: UriView,
    listen: Seq<char>,
    advanced: Option<(bool, bool, Seq<char>)>,
)
    requires
        uri_of(printer) == Ok::<UriView, Seq<char>>(uri),
        is_word(printer),
        is_word(listen),
        advanced matches Some((_, _, blank)) ==> is_word(blank),
    ensures
        options_of(words(daemon_args_text(printer, listen, advanced))) == settle(
            meant(uri, listen, advanced),
        ),
{
    lemma_daemon_text(printer, listen, advanced);
    lemma_words_are_words(printer, listen, advanced);
    lemma_words_of_spaced(daemon_words(printer, listen, advanced));
    lemma_words_behind_space(daemon_args_text(printer, listen, advanced));
    match advanced {
        Some((gui, rotate, blank)) => lemma_words_are_read(
            printer,
            uri,
            listen,
            gui,
            rotate,
            blank,
        ),
        None => {
            lemma_words_are_read(printer, uri, listen, true, true, "leading"@);
            assert(daemon_words(printer, listen, None) =~= daemon_words(
                printer,
                listen,
                Some((true, true, "leading"@)),
            ));
        },
    }
}

proof fn lemma_options_are_apart()
    ensures
        "--queue"@ != "--printer"@,
        "--listen"@ != "--printer"@,
        "--listen"@ != "--queue"@,
        "--no-service"@ != "--printer"@,
        "--no-service"@ != "--queue"@,
        "--no-service"@ != "--listen"@,
        "--no-queue"@ != "--printer"@,
        "--no-queue"@ != "--queue"@,
        "--no-queue"@ != "--listen"@,
        "--no-queue"@ != "--no-service"@,
        "--yes"@ != "--printer"@,
        "--yes"@ != "--queue"@,
        "--yes"@ != "--listen"@,
        "--yes"@ != "--no-service"@,
        "--yes"@ != "--no-queue"@,
        "-h"@ != "--printer"@,
        "-h"@ != "--queue"@,
        "-h"@ != "--listen"@,
        "-h"@ != "--no-service"@,
        "-h"@ != "--no-queue"@,
        "-h"@ != "--yes"@,
        "--help"@ != "--printer"@,
        "--help"@ != "--queue"@,
        "--help"@ != "--listen"@,
        "--help"@ != "--no-service"@,
        "--help"@ != "--no-queue"@,
        "--help"@ != "--yes"@,
{
    reveal_strlit("--printer");
    reveal_strlit("--queue");
    reveal_strlit("--listen");
    reveal_strlit("--no-service");
    reveal_strlit("--no-queue");
    reveal_strlit("--yes");
    reveal_strlit("-h");
    assert("--printer"@.len() == 9);
    assert("--queue"@.len() == 7);
    assert("--listen"@.len() == 8);
    assert("--no-service"@.len() == 12);
    assert("--no-queue"@.len() == 10);
    assert("--yes"@.len() == 5);
    assert("-h"@.len() == 2);
    reveal_strlit("--help");
}

/// The options of the setup are read one behind the other, and each sets what it is
/// for and nothing else.
pub proof fn law_setup_options(s: SetupView, v: Seq<char>, rest: Seq<Seq<char>>)
    ensures
        read_call(Seq::<Seq<char>>::empty(), s) == CallView::Run(s),
        read_call(seq!["--printer"@, v] + rest, s) == read_call(
            rest,
            SetupView { printer: Some(v), ..s },
        ),
        read_call(seq!["--queue"@, v] + rest, s) == read_call(
            rest,
            SetupView { queue: Some(v), ..s },
        ),
        read_call(seq!["--listen"@, v] + rest, s) == read_call(rest, SetupView { listen: v, ..s }),
        read_call(seq!["--no-service"@] + rest, s) == read_call(
            rest,
            SetupView { service: false, ..s },
        ),
        read_call(seq!["--no-queue"@] + rest, s) == read_call(
            rest,
            SetupView { add_queue: false, ..s },
        ),
        read_call(seq!["--yes"@] + rest, s) == read_call(rest, SetupView { yes: true, ..s }),
        read_call(seq!["-h"@] + rest, s) == CallView::Help,
        read_call(seq!["--help"@] + rest, s) == CallView::Help,
        v != "--printer"@ && v != "--queue"@ && v != "--listen"@ && v != "--no-service"@ && v
            != "--no-queue"@ && v != "--yes"@ && v != "-h"@ && v != "--help"@ ==> read_call(
            seq![v] + rest,
            s,
        ) == CallView::Unknown("unknown option '"@ + v + "'"@),
{
    lemma_options_are_apart();
    lemma_two_args("--printer"@, v, rest);
    lemma_two_args("--queue"@, v, rest);
    lemma_two_args("--listen"@, v, rest);
    lemma_one_arg("--no-service"@, rest);
    lemma_one_arg("--no-queue"@, rest);
    lemma_one_arg("--yes"@, rest);
    lemma_one_arg("-h"@, rest);
    lemma_one_arg("--help"@, rest);
    lemma_one_arg(v, rest);
}

proof fn lemma_two_args(a: Seq<char>, v: Seq<char>, rest: Seq<Seq<char>>)
    ensures
        (seq![a, v] + rest).len() >= 2,
        (seq![a, v] + rest)[0] == a,
        (seq![a, v] + rest)[1] == v,
        (seq![a, v] + rest).skip(2) == rest,
{
    assert((seq![a, v] + rest).skip(2) =~= rest);
}

proof fn lemma_one_arg(a: Seq<char>, rest: Seq<Seq<char>>)
    ensures
        (seq![a] + rest).len() >= 1,
        (seq![a] + rest)[0] == a,
        (seq![a] + rest).skip(1) == rest,
{
    assert((seq![a] + rest).skip(1) =~= rest);
}

/// What holds where no option says otherwise, and an option that lacks its value is
/// as if it were not given.
pub proof fn law_setup_defaults()
    ensures
        defaults().printer is None,
        defaults().queue is None,
        defaults().listen == "127.0.0.1:6632"@,
        defaults().service,
        defaults().add_queue,
        !defaults().yes,
        read_call(seq!["--printer"@], defaults()) == CallView::Run(defaults()),
        read_call(seq!["--queue"@], defaults()) == CallView::Run(defaults()),
        read_call(seq!["--listen"@], defaults()) == CallView::Run(defaults()),
{
    lemma_options_are_apart();
    let none = Seq::<Seq<char>>::empty();
    let a = seq!["--printer"@];
    let b = seq!["--queue"@];
    let c = seq!["--listen"@];
    assert(a[0] == "--printer"@ && a.skip(1) =~= none);
    assert(b[0] == "--queue"@ && b.skip(1) =~= none);
    assert(c[0] == "--listen"@ && c.skip(1) =~= none);
    assert(read_call(none, defaults()) == CallView::Run(defaults()));
}

/// An answer is what the user typed, white space around it aside, and the default
/// where that is nothing.
pub proof fn law_answers_are_read(
    before: Seq<char>,
    text: Seq<char>,
    after: Seq<char>,
    default: Seq<char>,
)
    requires
        all_space(before),
        is_trim(text),
        all_space(after),
    ensures
        text.len() > 0 ==> answer_text(before + text + after, default) == text,
        text.len() == 0 ==> answer_text(before + text + after, default) == default,
{
    law_trimming(before, text, after);
}

/// Yes and no are y, yes, n and no, in any letter case; anything else is the default.
pub proof fn law_yes_and_no(answer: Seq<char>, default: bool)
    ensures
        lowered(answer) == "y"@ || lowered(answer) == "yes"@ ==> means_yes(answer, default),
        lowered(answer) == "n"@ || lowered(answer) == "no"@ ==> !means_yes(answer, default),
        lowered(answer) != "y"@ && lowered(answer) != "yes"@ && lowered(answer) != "n"@ && lowered(
            answer,
        ) != "no"@ ==> means_yes(answer, default) == default,
{
    reveal_strlit("y");
    reveal_strlit("yes");
    reveal_strlit("n");
    reveal_strlit("no");
    assert("y"@.len() == 1);
    assert("yes"@.len() == 3);
    assert("n"@.len() == 1);
    assert("no"@.len() == 2);
    assert("y"@[0] != "n"@[0]);
}

/// A program that succeeded said what it wrote; one that failed says why on standard
/// error, or by its status where it wrote nothing there.
pub proof fn law_programs_are_understood(
    out: Seq<char>,
    before: Seq<char>,
    why: Seq<char>,
    after: Seq<char>,
    status: Seq<char>,
)
    requires
        all_space(before),
        is_trim(why),
        all_space(after),
    ensures
        ({
            let o = encode_utf8(out);
            let e = encode_utf8(before + why + after);
            &&& run_result(true, o, e, status) == Ok::<Seq<char>, Seq<char>>(out)
            &&& why.len() > 0 ==> run_result(false, o, e, status) == Err::<Seq<char>, Seq<char>>(
                why,
            )
            &&& why.len() == 0 ==> run_result(false, o, e, status) == Err::<Seq<char>, Seq<char>>(
                "exit status "@ + status,
            )
        }),
{
    let text = before + why + after;
    law_trimming(before, why, after);
    encode_utf8_valid_utf8(out);
    encode_utf8_decode_utf8(out);
    encode_utf8_valid_utf8(text);
    encode_utf8_decode_utf8(text);
}

/// The daemon is looked for in each directory of the search path, in order.
pub proof fn law_search_path(dir: Seq<char>, more: Seq<char>)
    requires
        !dir.contains(':'),
    ensures
        ({
            let found = if dir.len() == 0 || dir.last() == '/' {
                dir + "ipp-duplexd"@
            } else {
                dir + "/"@ + "ipp-duplexd"@
            };
            &&& search_paths(dir) == seq![found]
            &&& search_paths(dir + seq![':'] + more) == seq![found] + search_paths(more)
        }),
{
    let s = dir + seq![':'] + more;
    let n = dir.len() as int;
    dir.index_of_first_ensures(':');
    s.index_of_first_ensures(':');
    assert(s[n] == ':');
    let i = s.index_of_first(':').unwrap();
    if i < n {
        assert(dir[i] == ':');
    }
    assert(s.take(n) =~= dir);
    assert(s.skip(n + 1) =~= more);
    assert(search_paths(dir) =~= seq![in_dir(dir, "ipp-duplexd"@)]);
    assert(search_paths(s) =~= seq![in_dir(dir, "ipp-duplexd"@)] + search_paths(more));
}

/// A printer is probed at its own address.
pub proof fn law_probe_is_about_the_printer(uri: Seq<char>)
    ensures
        probe_msg(uri).op_status == 0x000b,
        probe_msg(uri).find_in(0x01, "printer-uri"@) matches Some(a) && a.first_str() == Some(uri),
        probe_msg(uri).data.len() == 0,
{
    let m = probe_msg(uri);
    reveal_strlit("attributes-charset");
    reveal_strlit("attributes-natural-language");
    reveal_strlit("printer-uri");
    assert("attributes-charset"@.len() == 18);
    assert("attributes-natural-language"@.len() == 27);
    assert("printer-uri"@.len() == 11);
    let op = m.groups[0].attrs;
    assert(op[0].name == "attributes-charset"@);
    assert(op[1].name == "attributes-natural-language"@);
    assert(op[2].name == "printer-uri"@);
    lemma_find_in_only_group(m, 0, "printer-uri"@);
    lemma_first_named_at(op, "printer-uri"@, 2);
    law_str_reads_back(T_URI, "printer-uri"@, uri);
}

/// Each line of `lpstat -v` that names a queue is one queue more, with its device;
/// any other line is none.
pub proof fn law_queues_are_read(
    lines: Seq<Seq<char>>,
    name: Seq<char>,
    space: Seq<char>,
    device: Seq<char>,
    line: Seq<char>,
)
    requires
        !name.contains(':'),
        is_trim(name),
        all_space(space),
        is_trim(device),
        !"device for "@.is_prefix_of(line),
    ensures
        queues_in(lines.push("device for "@ + (name + seq![':'] + (space + device)))) == queues_in(
            lines,
        ).push((name, device)),
        queues_in(lines.push(line)) == queues_in(lines),
        queues_in(lines.push("device for "@ + name)) == queues_in(lines),
        queues_in(Seq::<Seq<char>>::empty()).len() == 0,
{
    let none = Seq::<char>::empty();
    let told = name + seq![':'] + (space + device);
    let full = "device for "@ + told;
    law_prefix("device for "@, told);
    law_prefix("device for "@, name);
    law_cuts(name, ':', space + device);
    law_trimming(none, name, none);
    law_trimming(space, device, none);
    assert(none + name + none =~= name);
    assert(space + device + none =~= space + device);
    assert(lines.push(full).drop_last() =~= lines);
    assert(lines.push(full).last() == full);
    assert(lines.push(line).drop_last() =~= lines);
    assert(lines.push(line).last() == line);
    let bare = "device for "@ + name;
    assert(lines.push(bare).drop_last() =~= lines);
    assert(lines.push(bare).last() == bare);
}

/// A queue is offered, in its place, unless its device is the daemon itself.
pub proof fn law_other_queues_are_offered(
    queues: Seq<(Seq<char>, Seq<char>)>,
    q: (Seq<char>, Seq<char>),
)
    ensures
        usable(Seq::<(Seq<char>, Seq<char>)>::empty()).len() == 0,
        !occurs(q.1, "127.0.0.1:6632"@) && !occurs(q.1, "localhost:6632"@) ==> usable(
            queues.push(q),
        ) == usable(queues).push(q),
        occurs(q.1, "127.0.0.1:6632"@) || occurs(q.1, "localhost:6632"@) ==> usable(queues.push(q))
            == usable(queues),
{
    reveal(Seq::filter);
    assert(queues.push(q).drop_last() =~= queues);
    assert(queues.push(q).last() == q);
}

/// A number chooses the queue that it counts, from 1; an address is taken as it is;
/// anything else is no choice.
pub proof fn law_printer_is_chosen(
    n: nat,
    answer: Seq<char>,
    queues: Seq<(Seq<char>, Seq<char>)>,
)
    requires
        queues.len() <= usize::MAX,
        number(answer, 10, usize::MAX as nat) is None,
    ensures
        1 <= n <= queues.len() ==> chosen(decimal(n), queues) == Some(
            "ipp://127.0.0.1:631/printers/"@ + queues[n - 1].0,
        ),
        n == 0 || queues.len() < n <= usize::MAX ==> chosen(decimal(n), queues) is None,
        "ipp://"@.is_prefix_of(answer) || "http://"@.is_prefix_of(answer) ==> chosen(answer, queues)
            == Some(answer),
        !"ipp://"@.is_prefix_of(answer) && !"http://"@.is_prefix_of(answer) ==> chosen(
            answer,
            queues,
        ) is None,
{
    reveal_strlit("ipp://");
    reveal_strlit("http://");
    assert("ipp://"@.len() == 6);
    assert("http://"@.len() == 7);
    if n <= usize::MAX {
        let digits = decimal(n);
        lemma_decimal(n);
        law_number_of_decimal(n, usize::MAX as nat);
        if "ipp://"@.is_prefix_of(digits) {
            assert(digits.subrange(0, 6)[0] == 'i');
            assert('0' <= digits[0] <= '9');
        }
        if "http://"@.is_prefix_of(digits) {
            assert(digits.subrange(0, 7)[0] == 'h');
            assert('0' <= digits[0] <= '9');
        }
    }
}

/// The new queue is called after the queue behind it, and has a general name where
/// there is none.
pub proof fn law_queue_is_called_after_the_printer(front: Seq<char>, name: Seq<char>, uri: Seq<char>)
    ensures
        (forall|i: int|
            front.len() < i <= front.len() + name.len() ==> !#[trigger] stands_at(
                front + "/printers/"@ + name,
                "/printers/"@,
                i,
            )) ==> default_queue(front + "/printers/"@ + name) == name + "-duplex"@,
        !occurs(uri, "/printers/"@) ==> default_queue(uri) == "manual-duplex"@,
{
    let p = "/printers/"@;
    law_searching(front, p, name);
    law_searching(uri, p, name);
    assert((front + p + name).skip(front.len() + p.len() as int) =~= name);
}

/// The config file is one line that sets the daemon's arguments. It is written where
/// there is none, left where it is the same, and otherwise its first five lines are
/// shown before it is overwritten.
pub proof fn law_config_file(args: Seq<char>, text: Seq<char>, line: Seq<char>)
    ensures
        config_text(args) == "IPP_DUPLEXD_ARGS="@ + args + "\n"@,
        config_step(None, line) == ConfigStepView::Write,
        text == line ==> config_step(Some(text), line) == ConfigStepView::Keep,
        text != line && text_lines(text).len() <= 5 ==> config_step(Some(text), line)
            == ConfigStepView::Ask(text_lines(text)),
        text != line && text_lines(text).len() > 5 ==> config_step(Some(text), line)
            == ConfigStepView::Ask(text_lines(text).take(5)),
{
}

/// The unit runs the daemon with the arguments of the config file, and again where it
/// fails. With the dialog it goes with the graphical session, otherwise with the
/// login.
pub proof fn law_unit_runs_the_daemon(bin: Seq<char>)
    ensures
        unit_text(bin, true)
            == "[Unit]\nDescription=Manual duplex virtual IPP printer\nAfter=network.target\n"@
            + "After=graphical-session.target\nPartOf=graphical-session.target\n"@
            + "\n[Service]\nEnvironmentFile=%h/.config/ipp-duplexd.conf\nExecStart="@ + bin
            + " $IPP_DUPLEXD_ARGS\nRestart=on-failure\nRestartSec=5\n\n[Install]\nWantedBy="@
            + "graphical-session.target"@ + "\n"@,
        unit_text(bin, false)
            == "[Unit]\nDescription=Manual duplex virtual IPP printer\nAfter=network.target\n"@
            + "\n[Service]\nEnvironmentFile=%h/.config/ipp-duplexd.conf\nExecStart="@ + bin
            + " $IPP_DUPLEXD_ARGS\nRestart=on-failure\nRestartSec=5\n\n[Install]\nWantedBy="@
            + "default.target"@ + "\n"@,
{
    reveal_strlit("");
    assert("[Unit]\nDescription=Manual duplex virtual IPP printer\nAfter=network.target\n"@ + ""@
        =~= "[Unit]\nDescription=Manual duplex virtual IPP printer\nAfter=network.target\n"@);
}

/// A display variable is missing exactly if the session has it and no line of the
/// service manager's environment sets it.
pub proof fn law_missing_variables(
    environment: Seq<char>,
    display: Option<Seq<char>>,
    wayland: Option<Seq<char>>,
)
    ensures
        ({
            let all = text_lines(environment);
            let set = |name: Seq<char>|
                exists|i: int|
                    0 <= i < all.len() && before_first(#[trigger] all[i], '=') == name;
            let one = |name: Seq<char>, value: Option<Seq<char>>|
                if value is Some && !set(name) {
                    seq![name + "="@ + value.unwrap()]
                } else {
                    Seq::<Seq<char>>::empty()
                };
            missing(environment, display, wayland) == one("DISPLAY"@, display) + one(
                "WAYLAND_DISPLAY"@,
                wayland,
            )
        }),
{
}

/// The port of a listen address is the number behind its last colon, and 6632 where
/// there is none.
pub proof fn law_listen_port(host: Seq<char>, port: u16, bad: Seq<char>)
    requires
        !bad.contains(':'),
        number(bad, 10, 0xffff) is None,
    ensures
        port_of(host + seq![':'] + decimal(port as nat)) == port,
        port_of(host + seq![':'] + bad) == 6632,
        port_of(bad) == 6632,
{
    let digits = decimal(port as nat);
    lemma_decimal(port as nat);
    law_number_of_decimal(port as nat, 0xffff);
    if digits.contains(':') {
        let i = choose|i: int| 0 <= i < digits.len() && digits[i] == ':';
        assert('0' <= digits[i] <= '9');
    }
    law_cuts(host, ':', digits);
    law_cuts(host, ':', bad);
    law_cuts(bad, ':', host);
}

/// The queue is added where there is none of its name, left where it points at the
/// daemon, and otherwise the user is asked, and shown where it points.
pub proof fn law_queue_is_added(
    queues: Seq<(Seq<char>, Seq<char>)>,
    i: int,
    name: Seq<char>,
    self_uri: Seq<char>,
)
    ensures
        (forall|k: int| 0 <= k < queues.len() ==> (#[trigger] queues[k]).0 != name) ==> queue_step(
            queues,
            name,
            self_uri,
        ) == QueueStepView::Add,
        0 <= i < queues.len() && queues[i].0 == name && (forall|k: int|
            0 <= k < i ==> (#[trigger] queues[k]).0 != name) ==> queue_step(queues, name, self_uri)
            == (if queues[i].1 == self_uri {
            QueueStepView::Keep
        } else {
            QueueStepView::Ask(queues[i].1)
        }),
{
    if forall|k: int| 0 <= k < queues.len() ==> (#[trigger] queues[k]).0 != name {
        lemma_no_device(queues, name);
    }
    if 0 <= i < queues.len() && queues[i].0 == name && (forall|k: int|
        0 <= k < i ==> (#[trigger] queues[k]).0 != name) {
        lemma_device(queues, name, i);
    }
}

proof fn lemma_no_device(queues: Seq<(Seq<char>, Seq<char>)>, name: Seq<char>)
    requires
        forall|k: int| 0 <= k < queues.len() ==> (#[trigger] queues[k]).0 != name,
    ensures
        device_of(queues, name) is None,
    decreases queues.len(),
{
    if queues.len() > 0 {
        assert(queues[0].0 != name);
        let rest = queues.drop_first();
        assert forall|k: int| 0 <= k < rest.len() implies (#[trigger] rest[k]).0 != name by {
            assert(rest[k] == queues[k + 1]);
        }
        lemma_no_device(rest, name);
    }
}

proof fn lemma_device(queues: Seq<(Seq<char>, Seq<char>)>, name: Seq<char>, i: int)
    requires
        0 <= i < queues.len(),
        queues[i].0 == name,
        forall|k: int| 0 <= k < i ==> (#[trigger] queues[k]).0 != name,
    ensures
        device_of(queues, name) == Some(queues[i].1),
    decreases i,
{
    if i > 0 {
        assert(queues[0].0 != name);
        let rest = queues.drop_first();
        assert forall|k: int| 0 <= k < i - 1 implies (#[trigger] rest[k]).0 != name by {
            assert(rest[k] == queues[k + 1]);
        }
        assert(rest[i - 1] == queues[i]);
        lemma_device(rest, name, i - 1);
    }
}

/// The queue is added under its name, enabled, for the daemon's address, as one that
/// needs no driver.
pub proof fn law_queue_is_registered(queue: Seq<char>, self_uri: Seq<char>)
    ensures
        lpadmin_text(queue, self_uri) == seq![
            "-p"@,
            queue,
            "-E"@,
            "-v"@,
            self_uri,
            "-m"@,
            "everywhere"@,
        ],
{
}

/// A program is not there only if its call failed and it said nothing at all; a
/// printer that answers is told by its make and model.
pub proof fn law_programs_and_printers_are_found(
    success: bool,
    stdout: Seq<u8>,
    stderr: Seq<u8>,
    resp: MsgView,
)
    ensures
        !is_there(success, stdout, stderr) <==> !success && stdout.len() == 0 && stderr.len() == 0,
        match resp.find("printer-make-and-model"@) {
            Some(a) => match a.first_str() {
                Some(s) => probed_text(resp) == s,
                None => probed_text(resp) == "(unnamed IPP printer)"@,
            },
            None => probed_text(resp) == "(unnamed IPP printer)"@,
        },
{
}

/// A step that was not asked for is skipped; one that was is carried out, or left to
/// the user where the program for it is not there. To answer a question with what is
/// shown as its default is to take the default.
pub proof fn law_steps_of_the_setup(asked: bool, available: bool)
    ensures
        step_of(asked, available) == Step::Skip <==> !asked,
        step_of(asked, available) == Step::Run <==> asked && available,
        choices_text(true) == "Y/n"@,
        choices_text(false) == "y/N"@,
        means_yes(choices_text(asked), asked) == asked,
{
    reveal_strlit("Y/n");
    reveal_strlit("y/N");
    reveal_strlit("y");
    reveal_strlit("yes");
    reveal_strlit("n");
    reveal_strlit("no");
    assert("Y/n"@.len() == 3);
    assert("y/N"@.len() == 3);
    assert("y"@.len() == 1);
    assert("yes"@.len() == 3);
    assert("n"@.len() == 1);
    assert("no"@.len() == 2);
    assert(lowered("Y/n"@)[1] == '/');
    assert(lowered("y/N"@)[1] == '/');
    assert("yes"@[1] == 'e');
}

/// A unit is written only where there is none, and the service runs only where there
/// is one: brought by a package, kept from before, or written now. Then it runs
/// exactly if the service manager enabled it.
pub proof fn law_service_runs(packaged: bool, user_unit: bool, wrote: bool, enabled: bool)
    ensures
        packaged || user_unit ==> !unit_is_needed(packaged, user_unit),
        ({
            let needed = unit_is_needed(packaged, user_unit);
            is_running(needed, wrote, enabled) <==> (packaged || user_unit || wrote) && enabled
        }),
{
}

} // verus!
