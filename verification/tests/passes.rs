//! Commands, passes, and the machine that a job is.

use ipp_duplexd::config::{parse_args, Config};
use ipp_duplexd::dialog::{candidate, on_dialog, Dialog, DialogStep, Tool};
use ipp_duplexd::ipp::{self, Attr, Msg};
use ipp_duplexd::jobs::{Spooler, J_ABORTED, J_CANCELED, J_COMPLETED, J_PROCESSING, J_STOPPED};
use ipp_duplexd::pages::{
    blank_pdf, count_args, path, qpdf, qpdf_args, qpdf_failure, qpdf_npages, spawn_failure, Cmd, Doc, Pick,
};
use ipp_duplexd::remote::{
    cancel_request, forward_message, forwarded, state_request, wait_remote, Watch,
};
use ipp_duplexd::worker::{
    hint, is_one_sided, job_copies, job_ranges, work_dir_name, Action, Event, Pass, Stage, Worker,
};

fn config(extra: &[&str]) -> Config {
    let mut args = vec!["--printer".to_string(), "ipp://h/p".to_string()];
    args.extend(extra.iter().map(|s| s.to_string()));
    parse_args(&args).0.unwrap()
}

#[test]
fn commands_as_qpdf_gets_them() {
    let cmd = Cmd::Select {
        from: Doc::Input,
        pick: Pick::Ranges(vec![(1, 3), (-7, 2)]),
        to: Doc::Ranged,
    };
    assert_eq!(
        cmd.args("/d"),
        ["/d/in.pdf", "--pages", ".", "1-3,-7-2", "--", "/d/ranged.pdf"]
    );
    let cmd = Cmd::Repeat {
        from: Doc::Ranged,
        times: 2,
        to: Doc::Copies,
    };
    assert_eq!(
        cmd.args("/d"),
        [
            "--empty",
            "--pages",
            "/d/ranged.pdf",
            "1-z",
            "/d/ranged.pdf",
            "1-z",
            "--",
            "/d/copies.pdf"
        ]
    );
    let cmd = Cmd::Join {
        first: Doc::Blank,
        first_pick: Pick::First,
        second: Doc::Even,
        second_pick: Pick::All,
        to: Doc::Padded,
    };
    assert_eq!(
        cmd.args("x"),
        [
            "--empty",
            "--pages",
            "x/blank.pdf",
            "1",
            "x/even.pdf",
            "1-z",
            "--",
            "x/even-padded.pdf"
        ]
    );
    let cmd = Cmd::Turn {
        from: Doc::Padded,
        to: Doc::Rotated,
    };
    assert_eq!(
        cmd.args("x"),
        [
            "x/even-padded.pdf",
            "--rotate=+180:1-z",
            "--",
            "x/even-rotated.pdf"
        ]
    );
    assert_eq!(Pick::Odd.text(), "1-z:odd");
    assert_eq!(Pick::BackOdd.text(), "z-1:odd");
    assert_eq!(Pick::BackEven.text(), "z-1:even");
    assert_eq!(path("/d", Doc::Odd), "/d/odd.pdf");
    assert_eq!(
        qpdf_args(&vec!["a".to_string()]),
        ["--warning-exit-0", "a"]
    );
    assert_eq!(
        count_args("f"),
        ["--warning-exit-0", "--show-npages", "f"]
    );
    assert_eq!(work_dir_name(77, -3), "ipp-duplexd-77-job--3");
}

#[test]
fn outcomes_of_qpdf() {
    let args = vec!["a \"b\"".to_string(), "é\n".to_string()];
    assert_eq!(qpdf(&args, true, b"warning"), Ok(()));
    assert_eq!(
        qpdf(&args, false, b"oops\xff").unwrap_err(),
        format!("qpdf {args:?}: oops\u{fffd}")
    );
    assert_eq!(
        qpdf(&vec![], false, b"").unwrap_err(),
        "qpdf []: "
    );
    let quoted = vec!["\"x\"".to_string(), "\"y\"".to_string()];
    assert_eq!(qpdf_failure(&quoted, "oops"), "qpdf [\"x\", \"y\"]: oops");
    assert_eq!(qpdf_npages(true, b" 12\n"), Ok(12));
    assert_eq!(qpdf_npages(true, b"4294967295"), Ok(u32::MAX));
    assert_eq!(qpdf_npages(true, b"4294967296"), Err("bad page count".into()));
    assert_eq!(qpdf_npages(true, b"x"), Err("bad page count".into()));
    assert_eq!(
        qpdf_npages(false, b"12"),
        Err("qpdf could not read the document (PDF input required)".into())
    );
    assert_eq!(spawn_failure("no such file"), "qpdf spawn: no such file");
}

#[test]
fn blank_page_in_bytes() {
    let pdf: &[u8] = b"%PDF-1.4\n1 0 obj\n<< /Type /Catalog /Pages 2 0 R >>\nendobj\n2 0 obj\n<< /Type /Pages /Kids [3 0 R] /Count 1 >>\nendobj\n3 0 obj\n<< /Type /Page /Parent 2 0 R /MediaBox [0 0 612 792] /Resources << >> >>\nendobj\nxref\n0 4\n0000000000 65535 f \ntrailer\n<< /Size 4 /Root 1 0 R >>\nstartxref\n0\n%%EOF\n";
    assert_eq!(blank_pdf(), pdf);
}

#[test]
fn what_a_job_asks_for() {
    let ranges = |values: Vec<Vec<u8>>| {
        job_ranges(&vec![Attr {
            name: "page-ranges".into(),
            values: values.into_iter().map(|v| (0x33, v)).collect(),
        }])
    };
    assert_eq!(
        ranges(vec![
            vec![0, 0, 0, 1, 0, 0, 0, 3],
            vec![1, 2, 3],
            vec![0xff, 0xff, 0xff, 0xff, 0, 0, 1, 0]
        ]),
        [(1, 3), (-1, 256)]
    );
    assert!(ranges(vec![vec![0; 7]]).is_empty());
    assert!(job_ranges(&vec![]).is_empty());
    let copies = |n| job_copies(&vec![Attr::integer(ipp::T_INTEGER, "copies", n)]);
    assert_eq!(
        (copies(-5), copies(0), copies(1), copies(7), copies(1000)),
        (1, 1, 1, 7, 999)
    );
    assert_eq!(job_copies(&vec![]), 1);
    assert_eq!(
        job_copies(&vec![Attr::str(ipp::T_TEXT, "copies", "2")]),
        1,
        "no integer"
    );
    let sides = |s| is_one_sided(&vec![Attr::str(ipp::T_KEYWORD, "sides", s)]);
    assert!(sides("one-sided"));
    assert!(!sides("two-sided-short-edge") && !sides("whatever"));
    assert!(!is_one_sided(&vec![]));
}

#[test]
fn forwarded_options() {
    let attrs = vec![
        Attr::str(ipp::T_KEYWORD, "sides", "two-sided-long-edge"),
        Attr::integer(ipp::T_INTEGER, "copies", 3),
        Attr::integer(ipp::T_INTEGER, "number-up", 2),
        Attr::str(ipp::T_KEYWORD, "media", "iso_a4_210x297mm"),
        Attr::str(ipp::T_KEYWORD, "page-border", "single"),
        Attr::str(ipp::T_KEYWORD, "job-hold-until", "night"),
    ];
    let m = forward_message("ipp://h/p", "doc", "me", &attrs, b"%PDF".to_vec());
    assert_eq!((m.op_status, m.request_id), (ipp::OP_PRINT_JOB, 1));
    let names = |tag: u8| -> Vec<String> {
        m.groups
            .iter()
            .filter(|g| g.tag == tag)
            .flat_map(|g| g.attrs.iter().map(|a| a.name.clone()))
            .collect()
    };
    assert_eq!(
        names(ipp::G_OPERATION),
        [
            "attributes-charset",
            "attributes-natural-language",
            "printer-uri",
            "requesting-user-name",
            "job-name",
            "document-format"
        ]
    );
    assert_eq!(names(ipp::G_JOB), ["media", "sides"]);
    assert_eq!(m.find("sides").unwrap().first_str(), Some("one-sided"));
    assert_eq!(m.find("requesting-user-name").unwrap().first_str(), Some("me"));
    assert_eq!(m.data, b"%PDF");
}

fn answer(status: u16, attrs: Vec<Attr>) -> Msg {
    let mut m = Msg::response(status, 1);
    m.add_group(ipp::G_JOB, attrs);
    m
}

#[test]
fn replies_to_a_pass() {
    let id = vec![Attr::integer(ipp::T_INTEGER, "job-id", 12)];
    assert_eq!(forwarded(&answer(0, id.clone())), Ok(12));
    assert_eq!(forwarded(&answer(0x00ff, id.clone())), Ok(12));
    assert_eq!(
        forwarded(&answer(0x0400, id)),
        Err("real printer rejected the job (ipp status 0x0400)".into())
    );
    assert_eq!(
        forwarded(&answer(0, vec![])),
        Err("real printer returned no job-id".into())
    );
    let m = cancel_request("ipp://h/p", 7);
    assert_eq!(m.op_status, ipp::OP_CANCEL_JOB);
    assert_eq!(m.find("job-id").unwrap().first_int(), Some(7));
    let m = state_request("ipp://h/p", 7);
    assert_eq!(m.op_status, ipp::OP_GET_JOB_ATTRS);
    assert_eq!(
        m.find("requested-attributes").unwrap().first_str(),
        Some("job-state")
    );
}

#[test]
fn watching_a_pass() {
    let told = |s| {
        let m = answer(0, vec![Attr::integer(ipp::T_ENUM, "job-state", s)]);
        wait_remote(3, 2, &Ok(m))
    };
    assert!(matches!(told(9), Watch::Printed));
    for s in [3, 5, 6] {
        assert!(matches!(told(s), Watch::Again(0)));
    }
    for (s, text) in [
        (7, "remote job 3 ended in state canceled"),
        (8, "remote job 3 ended in state aborted"),
    ] {
        match told(s) {
            Watch::Lost(e) => assert_eq!(e, text),
            other => panic!("{other:?}"),
        }
    }
    assert!(matches!(
        wait_remote(3, 4, &Ok(answer(0, vec![]))),
        Watch::Again(0)
    ));
    assert!(matches!(
        wait_remote(3, 3, &Err("x".into())),
        Watch::Again(4)
    ));
    match wait_remote(3, 4, &Err("x".into())) {
        Watch::Lost(e) => assert_eq!(e, "lost contact with real printer: x"),
        other => panic!("{other:?}"),
    }
}

fn begun(attrs: Vec<Attr>) -> (Worker, Spooler) {
    let mut sp = Spooler::new();
    let id = sp.new_job("doc".into(), "me".into(), None);
    let (w, first) = Worker::begin(id, attrs, &mut sp);
    assert!(matches!(first, Action::Save));
    assert_eq!(sp.job(id).unwrap().state, J_PROCESSING);
    assert_eq!(sp.job(id).unwrap().message, "preparing");
    (w, sp)
}

#[test]
fn hints_for_the_flip() {
    assert_eq!(hint(&config(&["--auto-continue", "9"]), 1), "backs print in 9s");
    assert_eq!(hint(&config(&[]), 1), "click OK in the dialog");
    assert_eq!(
        hint(&config(&["--no-gui"]), 6632),
        "then: curl http://127.0.0.1:6632/flip"
    );
}

#[test]
fn steps_of_a_duplex_job() {
    let cfg = config(&[]);
    let (mut w, mut sp) = begun(vec![]);
    let mut step = |w: &mut Worker, ev| w.process_job(&mut sp, &cfg, 1, ev);
    assert!(matches!(step(&mut w, Event::Done), Action::Count(Doc::Input)));
    match step(&mut w, Event::Pages(2)) {
        Action::Run(cmd) => assert_eq!(cmd.args("d")[3], "1-z:odd"),
        other => panic!("{other:?}"),
    }
    match step(&mut w, Event::Done) {
        Action::Forward { doc, name, user } => {
            assert_eq!((doc, name.as_str(), user.as_str()), (Doc::Odd, "doc [odd pages]", "me"))
        }
        other => panic!("{other:?}"),
    }
    let id = vec![Attr::integer(ipp::T_INTEGER, "job-id", 5)];
    assert!(matches!(
        step(&mut w, Event::Reply(answer(0, id))),
        Action::Ask(_)
    ));
    assert_eq!(w.stage, Stage::Asking(Pass::Odd, 5, 0));
    assert!(matches!(
        step(&mut w, Event::Failed("gone".into())),
        Action::Sleep(2)
    ));
    assert_eq!(w.stage, Stage::Watching(Pass::Odd, 5, 1));
    assert!(matches!(step(&mut w, Event::Done), Action::Ask(_)));
    let done = vec![Attr::integer(ipp::T_ENUM, "job-state", 9)];
    match step(&mut w, Event::Reply(answer(0, done))) {
        Action::Run(cmd) => assert_eq!(cmd.args("d")[3], "z-1:odd"),
        other => panic!("{other:?}"),
    }
    assert!(matches!(
        step(&mut w, Event::Done),
        Action::Run(Cmd::Turn {
            from: Doc::Even,
            to: Doc::Rotated
        })
    ));
    assert!(matches!(
        step(&mut w, Event::Done),
        Action::AskFlip { dialog: true }
    ));
    assert!(matches!(step(&mut w, Event::Tick(1000)), Action::AwaitFlip));
    assert_eq!(sp.job(1).unwrap().state, J_STOPPED);
    assert_eq!(
        sp.job(1).unwrap().message,
        "flip the stack; click OK in the dialog"
    );
    assert!(sp.trigger_flip());
    let action = w.process_job(&mut sp, &cfg, 1, Event::Tick(1001));
    assert!(matches!(action, Action::Forward { doc: Doc::Rotated, .. }));
    assert!(!sp.flip_requested, "one flip continues one job");
    assert_eq!(sp.job(1).unwrap().message, "printing even pages");
}

#[test]
fn unexpected_events_are_told_apart() {
    let (w, _) = begun(vec![]);
    assert!(w.expects(&Event::Done) && w.expects(&Event::Failed("x".into())));
    assert!(!w.expects(&Event::Pages(1)) && !w.expects(&Event::Tick(0)));
    assert!(!w.expects(&Event::Reply(Msg::new(0, 0))));
    assert!(!w.expects(&Event::Unreachable("x".into())));
}

#[test]
fn unreachable_printer_is_watched_with_patience() {
    let cfg = config(&["--poll", "7"]);
    let (mut w, mut sp) = begun(vec![Attr::str(ipp::T_KEYWORD, "sides", "one-sided")]);
    w.process_job(&mut sp, &cfg, 1, Event::Done);
    let action = w.process_job(&mut sp, &cfg, 1, Event::Unreachable("x".into()));
    assert!(matches!(action, Action::Sleep(7)));
    assert_eq!(w.stage, Stage::Holding(Pass::Whole));
    let action = w.process_job(&mut sp, &cfg, 1, Event::Done);
    assert!(matches!(action, Action::Forward { doc: Doc::Input, .. }));
    let id = vec![Attr::integer(ipp::T_INTEGER, "job-id", 5)];
    w.process_job(&mut sp, &cfg, 1, Event::Reply(answer(0, id)));
    for n in 1..5 {
        let action = w.process_job(&mut sp, &cfg, 1, Event::Unreachable("x".into()));
        assert!(matches!(action, Action::Sleep(7)));
        assert_eq!(w.stage, Stage::Watching(Pass::Whole, 5, n));
        w.process_job(&mut sp, &cfg, 1, Event::Done);
    }
    match w.process_job(&mut sp, &cfg, 1, Event::Unreachable("x".into())) {
        Action::Finish(Some(e)) => assert_eq!(e, "lost contact with real printer: x"),
        other => panic!("{other:?}"),
    }
}

#[test]
fn failed_work_aborts_unless_canceled() {
    let cfg = config(&[]);
    let (mut w, mut sp) = begun(vec![]);
    match w.process_job(&mut sp, &cfg, 1, Event::Failed("disk full".into())) {
        Action::Finish(Some(e)) => assert_eq!(e, "disk full"),
        other => panic!("{other:?}"),
    }
    assert_eq!(w.stage, Stage::Over);
    assert!(!w.expects(&Event::Done));
    assert_eq!(sp.job(1).unwrap().state, J_ABORTED);
    assert_eq!(sp.job(1).unwrap().message, "disk full");
    let (mut w, mut sp) = begun(vec![]);
    sp.set_job_state(1, J_CANCELED, "canceled");
    w.process_job(&mut sp, &cfg, 1, Event::Failed("disk full".into()));
    assert_eq!(sp.job(1).unwrap().state, J_CANCELED);
}

#[test]
fn rejected_pass_aborts() {
    let cfg = config(&[]);
    let (mut w, mut sp) = begun(vec![Attr::str(ipp::T_KEYWORD, "sides", "one-sided")]);
    assert!(matches!(
        w.process_job(&mut sp, &cfg, 1, Event::Done),
        Action::Forward { doc: Doc::Input, .. }
    ));
    assert_eq!(sp.job(1).unwrap().message, "printing (pass-through)");
    let refused = Event::Reply(answer(ipp::ERR_INTERNAL, vec![]));
    assert!(matches!(
        w.process_job(&mut sp, &cfg, 1, refused),
        Action::Finish(Some(_))
    ));
    assert_eq!(
        sp.job(1).unwrap().message,
        "real printer rejected the job (ipp status 0x0500)"
    );
}

#[test]
fn blank_page_of_a_zero_page_document() {
    let cfg = config(&["--no-gui"]);
    let (mut w, mut sp) = begun(vec![]);
    w.process_job(&mut sp, &cfg, 1, Event::Done);
    w.process_job(&mut sp, &cfg, 1, Event::Pages(0));
    w.process_job(&mut sp, &cfg, 1, Event::Done);
    let id = vec![Attr::integer(ipp::T_INTEGER, "job-id", 5)];
    w.process_job(&mut sp, &cfg, 1, Event::Reply(answer(0, id)));
    let done = vec![Attr::integer(ipp::T_ENUM, "job-state", 9)];
    assert!(matches!(
        w.process_job(&mut sp, &cfg, 1, Event::Reply(answer(0, done))),
        Action::Finish(None)
    ));
    assert_eq!(sp.job(1).unwrap().state, J_COMPLETED);
}

#[test]
fn dialogs() {
    assert_eq!(candidate(0), Some(Tool::Zenity));
    assert_eq!(candidate(1), Some(Tool::Kdialog));
    assert_eq!(candidate(2), Some(Tool::Xmessage));
    assert_eq!(candidate(3), None);
    let text = "doc: odd pages printed.\nFlip the stack and reload it, then click OK to print the backs.";
    assert_eq!(
        Tool::Zenity.args("doc"),
        [
            "--question",
            "--title",
            "ipp-duplexd",
            "--text",
            text,
            "--ok-label",
            "OK, print backs",
            "--cancel-label",
            "Not yet"
        ]
    );
    assert_eq!(
        Tool::Kdialog.args("doc"),
        ["--title", "ipp-duplexd", "--yesno", text]
    );
    assert_eq!(
        Tool::Xmessage.args("doc"),
        ["-center", "-buttons", "OK, print backs:101,Not yet:102", text]
    );
    assert_eq!(Tool::Kdialog.opened(), "flip dialog opened via kdialog");
    let mut sp = Spooler::new();
    for (tool, code, step) in [
        (Tool::Zenity, Some(1), DialogStep::Dismissed),
        (Tool::Zenity, Some(101), DialogStep::Dismissed),
        (Tool::Kdialog, None, DialogStep::Dismissed),
        (Tool::Xmessage, Some(0), DialogStep::Dismissed),
        (Tool::Xmessage, Some(102), DialogStep::Dismissed),
    ] {
        assert_eq!(on_dialog(&mut sp, tool, Dialog::Closed(code)), step);
        assert!(!sp.flip_requested);
    }
    assert_eq!(on_dialog(&mut sp, Tool::Zenity, Dialog::Gone), DialogStep::Stop);
    assert_eq!(on_dialog(&mut sp, Tool::Zenity, Dialog::Open), DialogStep::Wait);
    assert!(!sp.flip_requested);
    for (tool, code) in [(Tool::Zenity, 0), (Tool::Kdialog, 0), (Tool::Xmessage, 101)] {
        let mut sp = Spooler::new();
        let step = on_dialog(&mut sp, tool, Dialog::Closed(Some(code)));
        assert_eq!(step, DialogStep::Wake);
        assert!(sp.flip_requested);
    }
}
