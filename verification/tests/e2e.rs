//! Whole jobs from a client to a mock printer and back. Everything travels as
//! the bytes that it would travel as over a connection; only the connections,
//! the files and the programs are played here.
//!
//! Pages of the test documents have distinct widths (601, 602, ...), so the page
//! order of the passes that the mock receives is asserted exactly.

use ipp_duplexd::config::{parse_args, Config};
use ipp_duplexd::dialog::{candidate, on_dialog, Dialog, DialogStep};
use ipp_duplexd::exchange::{read_request, read_response, request_bytes};
use ipp_duplexd::http::Reply;
use ipp_duplexd::ipp::{self, Attr, Group, Msg, PrinterUri};
use ipp_duplexd::jobs::Spooler;
use ipp_duplexd::pages::{blank_pdf, count_args, path, qpdf, qpdf_args, qpdf_npages, Doc};
use ipp_duplexd::printer::{op_get_printer_attrs, printer_attrs_request, AttrCache};
use ipp_duplexd::server::{reply_with, respond, PrintTask, Response};
use ipp_duplexd::worker::{Action, Event, Worker};
use std::collections::HashMap;

// ------------------------------------------------------------ test fixtures

/// n-page PDF; page k has MediaBox width 600+k so it is identifiable.
fn make_pdf(n: usize) -> Vec<u8> {
    let mut objs: Vec<String> = Vec::new();
    let kids: Vec<String> = (0..n).map(|i| format!("{} 0 R", 3 + i)).collect();
    objs.push("<< /Type /Catalog /Pages 2 0 R >>".into());
    objs.push(format!(
        "<< /Type /Pages /Kids [{}] /Count {n} >>",
        kids.join(" ")
    ));
    for i in 0..n {
        objs.push(format!(
            "<< /Type /Page /Parent 2 0 R /MediaBox [0 0 {} 792] /Resources << >> >>",
            601 + i
        ));
    }
    let mut out = b"%PDF-1.4\n".to_vec();
    let mut offsets = Vec::new();
    for (i, o) in objs.iter().enumerate() {
        offsets.push(out.len());
        out.extend_from_slice(format!("{} 0 obj\n{o}\nendobj\n", i + 1).as_bytes());
    }
    let xref = out.len();
    out.extend_from_slice(format!("xref\n0 {}\n0000000000 65535 f \n", objs.len() + 1).as_bytes());
    for off in &offsets {
        out.extend_from_slice(format!("{off:010} 00000 n \n").as_bytes());
    }
    out.extend_from_slice(
        format!(
            "trailer\n<< /Size {} /Root 1 0 R >>\nstartxref\n{xref}\n%%EOF\n",
            objs.len() + 1
        )
        .as_bytes(),
    );
    out
}

/// nth (0-based) integer following the first occurrence of `key`.
fn num_after(text: &str, key: &str, nth: usize) -> Option<i32> {
    let after = &text[text.find(key)? + key.len()..];
    after
        .split(|c: char| !c.is_ascii_digit() && c != '-')
        .filter(|s| s.parse::<i32>().is_ok())
        .nth(nth)
        .and_then(|s| s.parse().ok())
}

/// (width, rotation) per page, in page order.
fn page_geometry(doc: &[u8]) -> Vec<(i32, i32)> {
    let text = String::from_utf8_lossy(doc).into_owned();
    text.split("endobj")
        .filter(|o| o.contains("/MediaBox"))
        .map(|o| {
            (
                num_after(o, "/MediaBox", 2).expect("page has no MediaBox"),
                num_after(o, "/Rotate", 0).unwrap_or(0),
            )
        })
        .collect()
}

fn widths(doc: &[u8]) -> Vec<i32> {
    page_geometry(doc).iter().map(|(w, _)| *w).collect()
}

// ------------------------------------------------------------- a small qpdf

/// The files of all jobs, and what qpdf does to them.
struct Files(HashMap<String, Vec<u8>>);

/// The places, counted from 0, that a page range of qpdf names.
fn places(range: &str, n: usize) -> Result<Vec<usize>, String> {
    let (spec, filter) = match range.split_once(':') {
        Some((s, f)) => (s, Some(f)),
        None => (range, None),
    };
    let page = |s: &str| -> Result<usize, String> {
        if s == "z" {
            return Ok(n);
        }
        match s.parse::<usize>() {
            Ok(k) if k >= 1 && k <= n => Ok(k),
            _ => Err(format!("page range out of bounds: {range}")),
        }
    };
    let mut out = Vec::new();
    for part in spec.split(',') {
        match part.split_once('-') {
            Some((lo, hi)) => {
                let (lo, hi) = (page(lo)?, page(hi)?);
                if lo <= hi {
                    out.extend(lo..=hi);
                } else {
                    out.extend((hi..=lo).rev());
                }
            }
            None => out.push(page(part)?),
        }
    }
    let kept = match filter {
        None => out,
        Some("odd") => out.into_iter().step_by(2).collect(),
        Some("even") => out.into_iter().skip(1).step_by(2).collect(),
        Some(other) => return Err(format!("unknown filter {other}")),
    };
    Ok(kept.into_iter().map(|k| k - 1).collect())
}

impl Files {
    fn pages(&self, file: &str) -> Result<Vec<(i32, i32)>, String> {
        let data = self.0.get(file).ok_or(format!("open {file}: no such file"))?;
        if !data.starts_with(b"%PDF-") {
            return Err(format!("{file}: not a PDF file"));
        }
        Ok(page_geometry(data))
    }

    fn store(&mut self, file: &str, pages: &[(i32, i32)]) {
        let mut out = String::from("%PDF-1.4\n");
        for (i, (w, r)) in pages.iter().enumerate() {
            out.push_str(&format!(
                "{} 0 obj\n<< /Type /Page /MediaBox [0 0 {w} 792] /Rotate {r} >>\nendobj\n",
                i + 1
            ));
        }
        self.0.insert(file.to_string(), out.into_bytes());
    }

    /// Runs qpdf: whether it succeeded, and what it wrote to either stream.
    fn qpdf(&mut self, args: &[String]) -> (bool, Vec<u8>, Vec<u8>) {
        match self.run(args) {
            Ok(out) => (true, out.into_bytes(), Vec::new()),
            Err(e) => (false, Vec::new(), e.into_bytes()),
        }
    }

    fn run(&mut self, args: &[String]) -> Result<String, String> {
        let args: Vec<&str> = args.iter().map(|s| s.as_str()).collect();
        match args.as_slice() {
            ["--warning-exit-0", "--show-npages", file] => {
                Ok(format!("{}\n", self.pages(file)?.len()))
            }
            ["--warning-exit-0", "--empty", "--pages", middle @ .., "--", to] => {
                let mut pages = Vec::new();
                for pair in middle.chunks(2) {
                    let from = self.pages(pair[0])?;
                    for k in places(pair[1], from.len())? {
                        pages.push(from[k]);
                    }
                }
                self.store(to, &pages);
                Ok(String::new())
            }
            ["--warning-exit-0", from, "--pages", ".", range, "--", to] => {
                let from = self.pages(from)?;
                let pages: Vec<_> = places(range, from.len())?
                    .into_iter()
                    .map(|k| from[k])
                    .collect();
                self.store(to, &pages);
                Ok(String::new())
            }
            ["--warning-exit-0", from, "--rotate=+180:1-z", "--", to] => {
                let pages: Vec<_> = self
                    .pages(from)?
                    .into_iter()
                    .map(|(w, r)| (w, (r + 180) % 360))
                    .collect();
                self.store(to, &pages);
                Ok(String::new())
            }
            other => Err(format!("unknown arguments {other:?}")),
        }
    }
}

// ------------------------------------------------------- mock real printer

#[derive(Clone, Debug)]
struct ReceivedJob {
    name: String,
    sides: Option<String>,
    quality: Option<i32>,
    doc: Vec<u8>,
}

struct Mock {
    reachable: bool,
    next_id: i32,
    received: Vec<ReceivedJob>,
    canceled: Vec<i32>,
    job_state: i32,
}

impl Mock {
    fn serve(&mut self, bytes: &[u8]) -> Vec<u8> {
        let (head, body) = read_request(bytes).expect("mock received no request");
        assert_eq!(head.method, "POST");
        assert_eq!(head.path, "/print");
        let (body, used) = body.expect("mock received a bad body");
        assert_eq!(used, bytes.len());
        let req = ipp::parse(&body).expect("mock received unparseable ipp");
        let mut resp = Msg::response(ipp::OK, req.request_id);
        match req.op_status {
            ipp::OP_GET_PRINTER_ATTRS => {
                resp.groups.push(Group {
                    tag: ipp::G_PRINTER,
                    attrs: vec![
                        Attr::str(ipp::T_TEXT, "printer-make-and-model", "Brother HL-1234"),
                        Attr::strs(
                            ipp::T_KEYWORD,
                            "media-supported",
                            &["iso_a4_210x297mm", "na_letter_8.5x11in", "iso_a5_148x210mm"],
                        ),
                        Attr::strs(ipp::T_KEYWORD, "sides-supported", &["one-sided"]),
                        Attr::str(ipp::T_NAME, "printer-name", "real-laser"),
                        Attr::integer(ipp::T_ENUM, "printer-state", 3),
                        Attr::str(ipp::T_KEYWORD, "printer-state-reasons", "none"),
                        Attr::boolean("printer-is-accepting-jobs", true),
                    ],
                });
            }
            ipp::OP_PRINT_JOB => {
                let id = self.next_id;
                self.next_id += 1;
                self.received.push(ReceivedJob {
                    name: req
                        .find("job-name")
                        .and_then(|a| a.first_str())
                        .unwrap_or("?")
                        .into(),
                    sides: req
                        .find("sides")
                        .and_then(|a| a.first_str())
                        .map(String::from),
                    quality: req.find("print-quality").and_then(|a| a.first_int()),
                    doc: req.data.clone(),
                });
                resp.groups.push(Group {
                    tag: ipp::G_JOB,
                    attrs: vec![
                        Attr::integer(ipp::T_INTEGER, "job-id", id),
                        Attr::integer(ipp::T_ENUM, "job-state", 5),
                    ],
                });
            }
            ipp::OP_GET_JOB_ATTRS => {
                // unless told otherwise, every mock job completes instantly
                resp.groups.push(Group {
                    tag: ipp::G_JOB,
                    attrs: vec![Attr::integer(ipp::T_ENUM, "job-state", self.job_state)],
                });
            }
            ipp::OP_CANCEL_JOB => {
                let id = req.find("job-id").and_then(|a| a.first_int()).unwrap_or(-1);
                self.canceled.push(id);
            }
            _ => resp.op_status = ipp::ERR_OP_NOT_SUPPORTED,
        }
        reply_with(&resp).encode(false)
    }
}

// ------------------------------------------------------------------ daemon

const DIR: &str = "/tmp/ipp-duplexd-1-job";

const REFUSED: &str = "connect 127.0.0.1:40001: refused";

/// One fully wired instance: daemon, files and mock printer.
struct Setup {
    cfg: Config,
    port: u16,
    sp: Spooler,
    cache: AttrCache,
    mock: Mock,
    files: Files,
    tasks: Vec<PrintTask>,
    jobs: Vec<(Worker, Option<Event>)>,
    log: Vec<String>,
    dialog_code: Option<i32>,
}

fn setup(extra: &[&str]) -> Setup {
    let mut args: Vec<String> = vec![
        "--printer".into(),
        "ipp://127.0.0.1:40001/print".into(),
        "--listen".into(),
        "127.0.0.1:0".into(),
        "--poll".into(),
        "1".into(),
    ];
    args.extend(extra.iter().map(|s| s.to_string()));
    let (cfg, warning) = parse_args(&args);
    assert_eq!(warning, None);
    Setup {
        cfg: cfg.expect("bad arguments"),
        port: 40002,
        sp: Spooler::new(),
        cache: AttrCache::new(),
        mock: Mock {
            reachable: true,
            next_id: 1,
            received: Vec::new(),
            canceled: Vec::new(),
            job_state: 9,
        },
        files: Files(HashMap::new()),
        tasks: Vec::new(),
        jobs: Vec::new(),
        log: Vec::new(),
        dialog_code: None,
    }
}

impl Setup {
    /// A request to the real printer.
    fn request(&mut self, msg: &Msg) -> Result<Msg, String> {
        if !self.mock.reachable {
            return Err(REFUSED.into());
        }
        let sent = request_bytes(&self.cfg.printer, msg);
        let got = self.mock.serve(&sent);
        read_response(&got, &self.cfg.printer.uri)
    }

    /// One request on a connection, and the response to it.
    fn serve(&mut self, bytes: &[u8]) -> Vec<u8> {
        let (head, body) = read_request(bytes).expect("no request");
        let (body, _) = body.expect("bad request body");
        let out = respond(
            &mut self.sp,
            &self.cfg.name,
            &self.cfg.printer.uri,
            self.port,
            &head.method,
            &head.path,
            &body,
        );
        let reply: Reply = match out {
            Response::Done(r) | Response::Wake(r) => r,
            Response::Print(r, task) => {
                self.tasks.push(task);
                r
            }
            Response::AskPrinter(request_id) => {
                let query = printer_attrs_request(&self.cfg.printer.uri);
                let answer = self.request(&query);
                let proxied = self.cache.proxied_printer_attrs(answer);
                let resp =
                    op_get_printer_attrs(&self.sp, &self.cfg.name, self.port, request_id, proxied);
                reply_with(&resp)
            }
        };
        reply.encode(head.keep_alive)
    }

    /// Goes on with the jobs as far as they can go.
    fn work(&mut self) {
        while let Some(task) = self.tasks.pop() {
            let (w, first) = Worker::begin(task.id, task.attrs, &mut self.sp);
            let next = self.carry_out(&w, first, &task.data);
            self.jobs.push((w, next));
        }
        let mut jobs = std::mem::take(&mut self.jobs);
        for (w, pending) in jobs.iter_mut() {
            while let Some(ev) = pending.take() {
                assert!(w.expects(&ev), "{ev:?} in {w:?}");
                let action = w.process_job(&mut self.sp, &self.cfg, self.port, ev);
                if let Action::AwaitFlip = action {
                    *pending = Some(Event::Tick(0));
                    break;
                }
                if !self.mock.reachable && matches!(action, Action::Sleep(_)) {
                    *pending = Some(Event::Done);
                    break;
                }
                *pending = self.carry_out(w, action, &[]);
            }
        }
        self.jobs = jobs;
    }

    fn carry_out(&mut self, w: &Worker, action: Action, data: &[u8]) -> Option<Event> {
        let dir = format!("{DIR}-{}", w.id);
        Some(match action {
            Action::Save => {
                self.files.0.insert(path(&dir, Doc::Input), data.to_vec());
                Event::Done
            }
            Action::SaveBlank => {
                self.files.0.insert(path(&dir, Doc::Blank), blank_pdf());
                Event::Done
            }
            Action::Run(cmd) => {
                let args = cmd.args(&dir);
                let (ok, _, stderr) = self.files.qpdf(&qpdf_args(&args));
                match qpdf(&args, ok, &stderr) {
                    Ok(()) => Event::Done,
                    Err(e) => Event::Failed(e),
                }
            }
            Action::Count(doc) => {
                let (ok, stdout, _) = self.files.qpdf(&count_args(&path(&dir, doc)));
                match qpdf_npages(ok, &stdout) {
                    Ok(n) => Event::Pages(n),
                    Err(e) => Event::Failed(e),
                }
            }
            Action::Forward { doc, name, user } => {
                let data = self.files.0[&path(&dir, doc)].clone();
                let msg = w.forward_message(&self.cfg, &name, &user, data);
                self.reply(&msg)
            }
            Action::Ask(msg) | Action::Cancel(msg) => self.reply(&msg),
            Action::Sleep(seconds) => {
                assert_eq!(seconds, 1);
                Event::Done
            }
            Action::AskFlip { dialog } => {
                if dialog {
                    let tool = candidate(0).expect("no dialog tool");
                    let name = self.sp.job_name(w.id);
                    assert_eq!(tool.program(), "zenity");
                    assert!(tool.args(&name)[4].starts_with("doc5-gui: odd pages printed."));
                    self.log.push(tool.opened());
                    assert_eq!(
                        on_dialog(&mut self.sp, tool, Dialog::Open),
                        DialogStep::Wait
                    );
                    let step = on_dialog(&mut self.sp, tool, Dialog::Closed(self.dialog_code));
                    self.log.push(format!("{step:?}"));
                }
                Event::Tick(0)
            }
            Action::AwaitFlip => Event::Tick(0),
            Action::Finish(e) => {
                if let Some(e) = e {
                    self.log.push(format!("job {} failed: {e}", w.id));
                }
                return None;
            }
        })
    }

    fn reply(&mut self, msg: &Msg) -> Event {
        match self.request(msg) {
            Ok(resp) => Event::Reply(resp),
            Err(e) if e == REFUSED => Event::Unreachable(e),
            Err(e) => Event::Failed(e),
        }
    }
}

// ------------------------------------------------------------- ipp client

fn self_uri(t: &Setup) -> PrinterUri {
    ipp::parse_uri(&format!("ipp://127.0.0.1:{}/ipp/print", t.port)).unwrap()
}

fn ipp_call(t: &mut Setup, msg: &Msg) -> Msg {
    let uri = self_uri(t);
    let bytes = t.serve(&request_bytes(&uri, msg));
    read_response(&bytes, &uri.uri).expect("ipp request failed")
}

fn base_op_attrs(t: &Setup) -> Vec<Attr> {
    vec![
        Attr::str(ipp::T_CHARSET, "attributes-charset", "utf-8"),
        Attr::str(ipp::T_LANGUAGE, "attributes-natural-language", "en"),
        Attr::str(ipp::T_URI, "printer-uri", &self_uri(t).uri),
    ]
}

fn get_printer_attrs(t: &mut Setup) -> Msg {
    let mut m = Msg::new(ipp::OP_GET_PRINTER_ATTRS, 1);
    m.groups.push(Group {
        tag: ipp::G_OPERATION,
        attrs: base_op_attrs(t),
    });
    ipp_call(t, &m)
}

fn print_job(t: &mut Setup, doc: &[u8], name: &str, job_attrs: Vec<Attr>) -> i32 {
    let mut m = Msg::new(ipp::OP_PRINT_JOB, 2);
    let mut op = base_op_attrs(t);
    op.push(Attr::str(ipp::T_NAME, "requesting-user-name", "tester"));
    op.push(Attr::str(ipp::T_NAME, "job-name", name));
    op.push(Attr::str(ipp::T_MIME, "document-format", "application/pdf"));
    m.groups.push(Group {
        tag: ipp::G_OPERATION,
        attrs: op,
    });
    m.groups.push(Group {
        tag: ipp::G_JOB,
        attrs: job_attrs,
    });
    m.data = doc.to_vec();
    let resp = ipp_call(t, &m);
    assert_eq!(resp.op_status, ipp::OK, "Print-Job rejected");
    resp.find("job-id")
        .and_then(|a| a.first_int())
        .expect("no job-id")
}

fn job_request(t: &Setup, op_status: u16, id: i32) -> Msg {
    let mut m = Msg::new(op_status, 3);
    let mut op = base_op_attrs(t);
    op.push(Attr::integer(ipp::T_INTEGER, "job-id", id));
    m.groups.push(Group {
        tag: ipp::G_OPERATION,
        attrs: op,
    });
    m
}

fn wait_job_state(t: &mut Setup, id: i32, want: &[i32]) -> i32 {
    t.work();
    let query = job_request(t, ipp::OP_GET_JOB_ATTRS, id);
    let last = ipp_call(t, &query)
        .find("job-state")
        .and_then(|a| a.first_int())
        .unwrap_or(-1);
    assert!(
        want.contains(&last),
        "job {id} never reached {want:?}; last state {last}"
    );
    last
}

fn http_get(t: &mut Setup, path: &str) -> String {
    let bytes =
        t.serve(format!("GET {path} HTTP/1.1\r\nHost: t\r\nConnection: close\r\n\r\n").as_bytes());
    String::from_utf8(bytes).unwrap()
}

fn attr_strs(msg: &Msg, name: &str) -> Vec<String> {
    msg.find(name)
        .map(|a| {
            a.values
                .iter()
                .map(|(_, v)| String::from_utf8_lossy(v).into_owned())
                .collect()
        })
        .unwrap_or_default()
}

// ------------------------------------------------------------------- tests

#[test]
fn printer_attributes_proxied_and_mirrored() {
    let mut t = setup(&["--no-gui"]);
    let attrs = get_printer_attrs(&mut t);
    let mm = attrs
        .find("printer-make-and-model")
        .and_then(|a| a.first_str())
        .unwrap();
    assert!(
        mm.contains("Brother HL-1234") && mm.contains("manual duplex"),
        "{mm}"
    );
    assert!(attr_strs(&attrs, "media-supported").contains(&"iso_a5_148x210mm".to_string()));
    assert!(attr_strs(&attrs, "sides-supported").contains(&"two-sided-long-edge".to_string()));
    let uri = attrs
        .find("printer-uri-supported")
        .and_then(|a| a.first_str())
        .unwrap();
    assert!(uri.contains(&t.port.to_string()), "{uri}");
    assert_eq!(
        attrs.find("printer-state").and_then(|a| a.first_int()),
        Some(3),
        "mirrored idle"
    );
    assert_eq!(
        attrs.find("printer-is-accepting-jobs").unwrap().values[0].1,
        vec![1u8]
    );
}

#[test]
fn duplex_splits_pads_and_rotates() {
    let mut t = setup(&["--no-gui"]);
    let jid = print_job(
        &mut t,
        &make_pdf(5),
        "doc5",
        vec![
            Attr::str(ipp::T_KEYWORD, "sides", "two-sided-long-edge"),
            Attr::integer(ipp::T_ENUM, "print-quality", 5),
        ],
    );
    wait_job_state(&mut t, jid, &[6]); // stopped for flip
    {
        let r = &t.mock.received;
        assert_eq!(widths(&r[0].doc), vec![601, 603, 605], "odd pass");
        assert_eq!(r[0].name, "doc5 [odd pages]");
        assert_eq!(r[0].quality, Some(5), "print-quality forwarded");
        assert_eq!(r[0].sides.as_deref(), Some("one-sided"));
    }
    // while stopped, the printer state must say media-needed
    let attrs = get_printer_attrs(&mut t);
    assert_eq!(
        attrs.find("printer-state").and_then(|a| a.first_int()),
        Some(5)
    );
    assert!(attr_strs(&attrs, "printer-state-reasons").contains(&"media-needed".to_string()));

    assert!(http_get(&mut t, "/flip").contains("printing the backs"));
    wait_job_state(&mut t, jid, &[9]);
    let r = &t.mock.received;
    // leading blank (width 612), then evens reversed; all rotated 180
    let geom = page_geometry(&r[1].doc);
    assert_eq!(
        geom.iter().map(|(w, _)| *w).collect::<Vec<_>>(),
        vec![612, 604, 602]
    );
    assert!(
        geom.iter().all(|(_, rot)| *rot == 180),
        "even pass rotated: {geom:?}"
    );
    let odd_geom = page_geometry(&r[0].doc);
    assert!(
        odd_geom.iter().all(|(_, rot)| *rot == 0),
        "odd pass unrotated"
    );
}

#[test]
fn one_sided_passes_through() {
    let mut t = setup(&["--no-gui"]);
    let jid = print_job(
        &mut t,
        &make_pdf(5),
        "doc5-simplex",
        vec![Attr::str(ipp::T_KEYWORD, "sides", "one-sided")],
    );
    wait_job_state(&mut t, jid, &[9]);
    let r = &t.mock.received;
    assert_eq!(r.len(), 1, "exactly one pass");
    assert_eq!(widths(&r[0].doc), vec![601, 602, 603, 604, 605]);
}

#[test]
fn copies_and_page_ranges_apply_before_split() {
    let mut t = setup(&["--no-gui"]);
    // copies=2 and page-ranges 1-3 -> pages 1,2,3,1,2,3 before the split
    let mut range = 1i32.to_be_bytes().to_vec();
    range.extend_from_slice(&3i32.to_be_bytes());
    let jid = print_job(
        &mut t,
        &make_pdf(6),
        "doc6",
        vec![
            Attr::integer(ipp::T_INTEGER, "copies", 2),
            Attr {
                name: "page-ranges".into(),
                values: vec![(0x33, range)],
            },
        ],
    );
    wait_job_state(&mut t, jid, &[6]);
    http_get(&mut t, "/flip");
    wait_job_state(&mut t, jid, &[9]);
    let r = &t.mock.received;
    assert_eq!(
        widths(&r[0].doc),
        vec![601, 603, 602],
        "odd of 1,2,3,1,2,3"
    );
    assert_eq!(
        widths(&r[1].doc),
        vec![603, 601, 602],
        "reversed evens"
    );
}

#[test]
fn gui_dialog_continues_job() {
    // a zenity that "clicks OK", so the job finishes with no /flip call
    let mut t = setup(&[]);
    t.dialog_code = Some(0);
    let jid = print_job(
        &mut t,
        &make_pdf(5),
        "doc5-gui",
        vec![Attr::str(ipp::T_KEYWORD, "sides", "two-sided-long-edge")],
    );
    wait_job_state(&mut t, jid, &[9]);
    {
        let r = &t.mock.received;
        assert_eq!(widths(&r[0].doc), vec![601, 603, 605]);
        assert_eq!(widths(&r[1].doc), vec![612, 604, 602]);
    }
    let log = t.log.join("\n");
    assert!(log.contains("flip dialog opened via zenity"), "{log}");
}

#[test]
fn offline_printer_is_mirrored() {
    // unreachable real printer -> stopped + offline-report, but still spooling.
    let mut t = setup(&["--no-gui"]);
    t.mock.reachable = false;
    let attrs = get_printer_attrs(&mut t);
    assert_eq!(
        attrs.find("printer-state").and_then(|a| a.first_int()),
        Some(5)
    );
    assert!(attr_strs(&attrs, "printer-state-reasons").contains(&"offline-report".to_string()));
    assert_eq!(
        attrs.find("printer-is-accepting-jobs").unwrap().values[0].1,
        vec![1u8],
        "still spooling"
    );
}

// ------------------------------------------------------ more whole-job runs

#[test]
fn dismissed_dialog_cancels_nothing() {
    let mut t = setup(&[]);
    t.dialog_code = Some(1);
    let jid = print_job(&mut t, &make_pdf(5), "doc5-gui", vec![]);
    wait_job_state(&mut t, jid, &[6]);
    assert_eq!(t.log, ["flip dialog opened via zenity", "Dismissed"]);
    assert!(http_get(&mut t, "/flip").contains("ok, printing the backs\n"));
    wait_job_state(&mut t, jid, &[9]);
    assert_eq!(t.mock.received.len(), 2);
}

#[test]
fn even_page_count_needs_no_padding() {
    let mut t = setup(&["--no-gui", "--rotate-even", "0"]);
    let jid = print_job(&mut t, &make_pdf(4), "doc4", vec![]);
    wait_job_state(&mut t, jid, &[6]);
    assert!(http_get(&mut t, "/flip").contains("printing the backs"));
    wait_job_state(&mut t, jid, &[9]);
    let r = &t.mock.received;
    assert_eq!(widths(&r[0].doc), vec![601, 603]);
    assert_eq!(page_geometry(&r[1].doc), vec![(604, 0), (602, 0)]);
    assert_eq!(r[1].name, "doc4 [even pages]");
}

#[test]
fn trailing_and_absent_blank_pages() {
    for (blank, backs) in [("trailing", vec![604, 602, 612]), ("none", vec![604, 602])] {
        let mut t = setup(&["--no-gui", "--blank", blank]);
        let jid = print_job(&mut t, &make_pdf(5), "doc5", vec![]);
        wait_job_state(&mut t, jid, &[6]);
        http_get(&mut t, "/flip");
        wait_job_state(&mut t, jid, &[9]);
        assert_eq!(widths(&t.mock.received[1].doc), backs, "{blank}");
    }
}

#[test]
fn single_page_needs_no_flip() {
    let mut t = setup(&["--no-gui"]);
    let jid = print_job(&mut t, &make_pdf(1), "doc1", vec![]);
    wait_job_state(&mut t, jid, &[9]);
    assert_eq!(t.mock.received.len(), 1);
    assert_eq!(widths(&t.mock.received[0].doc), vec![601]);
    assert!(http_get(&mut t, "/").contains("completed done (single page)\n"));
}

#[test]
fn early_flip_does_not_count() {
    let mut t = setup(&["--no-gui"]);
    assert!(http_get(&mut t, "/flip").contains("no job is waiting for a flip\n"));
    assert!(t.sp.flip_requested);
    let jid = print_job(&mut t, &make_pdf(2), "doc2", vec![]);
    wait_job_state(&mut t, jid, &[6]);
    assert_eq!(t.mock.received.len(), 1);
}

#[test]
fn canceled_while_waiting_for_the_flip() {
    let mut t = setup(&["--no-gui"]);
    let jid = print_job(&mut t, &make_pdf(2), "doc2", vec![]);
    wait_job_state(&mut t, jid, &[6]);
    let cancel = job_request(&t, ipp::OP_CANCEL_JOB, jid);
    assert_eq!(ipp_call(&mut t, &cancel).op_status, ipp::OK);
    http_get(&mut t, "/flip");
    wait_job_state(&mut t, jid, &[7]);
    assert_eq!(t.mock.received.len(), 1, "nothing more is printed");
    assert_eq!(ipp_call(&mut t, &cancel).op_status, ipp::ERR_NOT_POSSIBLE);
}

#[test]
fn canceled_before_its_turn() {
    let mut t = setup(&["--no-gui"]);
    let jid = print_job(&mut t, &make_pdf(2), "doc2", vec![]);
    let cancel = job_request(&t, ipp::OP_CANCEL_JOB, jid);
    ipp_call(&mut t, &cancel);
    wait_job_state(&mut t, jid, &[7]);
    assert_eq!(t.mock.received.len(), 0);
    assert_eq!(t.files.0.len(), 0);
}

#[test]
fn remote_failure_aborts_the_job() {
    let mut t = setup(&["--no-gui"]);
    t.mock.job_state = 8;
    let jid = print_job(&mut t, &make_pdf(2), "doc2", vec![]);
    wait_job_state(&mut t, jid, &[8]);
    assert_eq!(t.log, ["job 1 failed: remote job 1 ended in state aborted"]);
}

#[test]
fn jobs_print_once_the_printer_is_back() {
    let mut t = setup(&["--no-gui"]);
    t.mock.reachable = false;
    let jid = print_job(&mut t, &make_pdf(3), "doc3", vec![]);
    for _ in 0..3 {
        wait_job_state(&mut t, jid, &[5]);
    }
    assert_eq!(t.mock.received.len(), 0);
    t.mock.reachable = true;
    wait_job_state(&mut t, jid, &[6]);
    t.mock.reachable = false;
    http_get(&mut t, "/flip");
    wait_job_state(&mut t, jid, &[5]);
    assert_eq!(t.mock.received.len(), 1);
    t.mock.reachable = true;
    wait_job_state(&mut t, jid, &[9]);
    assert_eq!(widths(&t.mock.received[0].doc), vec![601, 603]);
    assert_eq!(widths(&t.mock.received[1].doc), vec![612, 602]);
    assert_eq!(t.mock.received.len(), 2);
}

#[test]
fn held_job_can_be_canceled() {
    let mut t = setup(&["--no-gui"]);
    t.mock.reachable = false;
    let jid = print_job(&mut t, &make_pdf(3), "doc3", vec![]);
    wait_job_state(&mut t, jid, &[5]);
    let cancel = job_request(&t, ipp::OP_CANCEL_JOB, jid);
    ipp_call(&mut t, &cancel);
    t.mock.reachable = true;
    wait_job_state(&mut t, jid, &[7]);
    assert_eq!(t.mock.received.len(), 0);
}

#[test]
fn unreadable_document_aborts_the_job() {
    let mut t = setup(&["--no-gui"]);
    let jid = print_job(&mut t, b"hello", "text", vec![]);
    wait_job_state(&mut t, jid, &[8]);
    assert_eq!(
        t.log,
        ["job 1 failed: qpdf could not read the document (PDF input required)"]
    );
}

#[test]
fn bad_page_range_aborts_the_job() {
    let mut t = setup(&["--no-gui"]);
    let mut range = 2i32.to_be_bytes().to_vec();
    range.extend_from_slice(&9i32.to_be_bytes());
    let attrs = vec![Attr {
        name: "page-ranges".into(),
        values: vec![(0x33, range)],
    }];
    let jid = print_job(&mut t, &make_pdf(2), "doc2", attrs);
    wait_job_state(&mut t, jid, &[8]);
    assert_eq!(
        t.log,
        ["job 1 failed: qpdf [\"/tmp/ipp-duplexd-1-job-1/in.pdf\", \"--pages\", \".\", \"2-9\", \
          \"--\", \"/tmp/ipp-duplexd-1-job-1/ranged.pdf\"]: page range out of bounds: 2-9"]
    );
}

#[test]
fn created_job_prints_its_document() {
    let mut t = setup(&["--no-gui"]);
    let mut create = Msg::new(ipp::OP_CREATE_JOB, 7);
    let mut op = base_op_attrs(&t);
    op.push(Attr::str(ipp::T_NAME, "job-name", "later"));
    create.groups.push(Group {
        tag: ipp::G_OPERATION,
        attrs: op,
    });
    create.groups.push(Group {
        tag: ipp::G_JOB,
        attrs: vec![Attr::str(ipp::T_KEYWORD, "sides", "one-sided")],
    });
    let resp = ipp_call(&mut t, &create);
    let jid = resp.find("job-id").and_then(|a| a.first_int()).unwrap();
    let mut send = job_request(&t, ipp::OP_SEND_DOCUMENT, jid);
    send.groups[0]
        .attrs
        .push(Attr::boolean("last-document", true));
    send.data = make_pdf(3);
    assert_eq!(ipp_call(&mut t, &send).op_status, ipp::OK);
    wait_job_state(&mut t, jid, &[9]);
    assert_eq!(t.mock.received.len(), 1);
    assert_eq!(t.mock.received[0].name, "later");
    assert_eq!(widths(&t.mock.received[0].doc), vec![601, 602, 603]);
    assert_eq!(ipp_call(&mut t, &send).op_status, ipp::ERR_NOT_POSSIBLE);
}

#[test]
fn canceled_pass_is_canceled_at_the_printer() {
    let mut t = setup(&["--no-gui"]);
    t.mock.job_state = 5; // the mock prints on and on
    let jid = print_job(&mut t, &make_pdf(2), "doc2", vec![]);
    let task = t.tasks.pop().unwrap();
    let (mut w, first) = Worker::begin(task.id, task.attrs, &mut t.sp);
    let mut ev = t.carry_out(&w, first, &task.data);
    let mut rounds = 0;
    while let Some(e) = ev.take() {
        let action = w.process_job(&mut t.sp, &t.cfg, t.port, e);
        if let Action::Sleep(_) = action {
            rounds += 1;
            if rounds == 3 {
                let cancel = job_request(&t, ipp::OP_CANCEL_JOB, jid);
                ipp_call(&mut t, &cancel);
            }
        }
        ev = t.carry_out(&w, action, &[]);
    }
    assert_eq!(rounds, 3);
    assert_eq!(t.mock.canceled, [1]);
    assert_eq!(t.mock.received.len(), 1);
    wait_job_state(&mut t, jid, &[7]);
}

#[test]
fn auto_continue_needs_no_flip() {
    let mut t = setup(&["--auto-continue", "30"]);
    let jid = print_job(&mut t, &make_pdf(2), "doc2", vec![]);
    wait_job_state(&mut t, jid, &[6]);
    assert_eq!(t.log.len(), 0, "no dialog");
    assert!(http_get(&mut t, "/").contains("stopped flip the stack; backs print in 30s\n"));
    t.jobs[0].1 = Some(Event::Tick(29));
    wait_job_state(&mut t, jid, &[6]);
    t.jobs[0].1 = Some(Event::Tick(30));
    wait_job_state(&mut t, jid, &[9]);
    assert_eq!(widths(&t.mock.received[1].doc), vec![602]);
}
