//! The daemon's command line and the setup.

use ipp_duplexd::config::{parse_args, Blank, Config};
use ipp_duplexd::ipp::{self, Attr, Msg};
use ipp_duplexd::setup::{
    add_queue, ask, choices, choose_printer, config_line, confirm, cups_queues, daemon_args,
    find_duplexd, have, listen_port, lpadmin_args, missing_display, needs_unit, parse_call, probe,
    probed, queue_default, run, service_running, step, unit, usable_queues, write_config, Advanced,
    Call, ConfigStep, QueueStep, Setup, Step,
};

fn strings(args: &[&str]) -> Vec<String> {
    args.iter().map(|s| s.to_string()).collect()
}

fn config(args: &[&str]) -> Result<Config, String> {
    parse_args(&strings(args)).0
}

#[test]
fn defaults_of_the_daemon() {
    let c = config(&["--printer", "ipp://h/p"]).unwrap();
    assert_eq!(c.listen, "127.0.0.1:6632");
    assert_eq!((c.printer.host.as_str(), c.printer.port), ("h", 631));
    assert_eq!(c.name, "manual-duplex");
    assert_eq!(c.blank, Blank::Leading);
    assert_eq!((c.auto_continue, c.rotate_even, c.poll), (0, 180, 2));
    assert!(c.gui);
    assert_eq!(c.clone().listen, c.listen);
}

#[test]
fn flags_of_the_daemon() {
    let c = config(&[
        "--listen",
        "localhost:1",
        "--name",
        "n",
        "--blank",
        "none",
        "--auto-continue",
        "30",
        "--rotate-even",
        "0",
        "--poll",
        "0",
        "--no-gui",
        "--printer",
        "http://a:1/x",
        "--name",
        "--last-wins",
    ])
    .unwrap();
    assert_eq!((c.listen.as_str(), c.name.as_str()), ("localhost:1", "--last-wins"));
    assert_eq!(c.blank, Blank::Nowhere);
    assert_eq!((c.auto_continue, c.rotate_even, c.poll), (30, 0, 1));
    assert!(!c.gui);
    assert!(config(&["--no-gui", "--gui", "--printer", "ipp://h"]).unwrap().gui);
    let c = config(&["--blank", "trailing", "--printer", "ipp://h"]).unwrap();
    assert_eq!(c.blank, Blank::Trailing);
}

#[test]
fn errors_of_the_daemon() {
    let err = |args: &[&str]| config(args).unwrap_err();
    assert_eq!(err(&[]), "--printer is required");
    assert_eq!(err(&["-h"]), "");
    assert_eq!(err(&["--gui", "--help", "--bogus"]), "");
    assert_eq!(err(&["--bogus"]), "unknown argument '--bogus'");
    assert_eq!(err(&["--poll"]), "--poll needs a value");
    assert_eq!(err(&["--printer"]), "--printer needs a value");
    assert_eq!(err(&["--printer", "ipp://h:x"]), "bad port");
    assert_eq!(err(&["--auto-continue", "-1"]), "bad --auto-continue");
    assert_eq!(err(&["--rotate-even", "4294967296"]), "bad --rotate-even");
    assert_eq!(err(&["--rotate-even", "90"]), "--rotate-even must be 0 or 180");
    assert_eq!(err(&["--poll", "x"]), "bad --poll");
    assert_eq!(
        err(&["--blank", "both"]),
        "--blank must be trailing, leading or none"
    );
}

#[test]
fn warning_of_the_daemon() {
    let warn = |listen: &str| parse_args(&strings(&["--listen", listen])).1;
    for listen in ["127.0.0.1:1", "127.1", "localhost:1", "[::1]:1"] {
        assert_eq!(warn(listen), None);
    }
    assert_eq!(
        warn("0.0.0.0:6632").as_deref(),
        Some("warning: listening on non-loopback address 0.0.0.0:6632")
    );
    assert!(warn("localhost").is_some());
    let (c, w) = parse_args(&strings(&["--listen", "0.0.0.0:1", "--blank", "x"]));
    assert!(c.is_err() && w.is_none());
}

fn setup_call(args: &[&str]) -> Setup {
    match parse_call(&strings(args)) {
        Call::Run(s) => s,
        other => panic!("{other:?}"),
    }
}

#[test]
fn options_of_the_setup() {
    let s = setup_call(&[]);
    assert_eq!((s.printer, s.queue), (None, None));
    assert_eq!(s.listen, "127.0.0.1:6632");
    assert!(s.service && s.add_queue && !s.yes);
    let s = setup_call(&[
        "--printer",
        "ipp://h",
        "--queue",
        "q",
        "--listen",
        "x:1",
        "--no-service",
        "--no-queue",
        "--yes",
    ]);
    assert_eq!(s.printer.as_deref(), Some("ipp://h"));
    assert_eq!(s.queue.as_deref(), Some("q"));
    assert_eq!(s.listen, "x:1");
    assert!(!s.service && !s.add_queue && s.yes);
    assert_eq!(setup_call(&["--printer", "a", "--printer"]).printer, None);
    assert_eq!(setup_call(&["--listen"]).listen, "127.0.0.1:6632");
    assert!(matches!(parse_call(&strings(&["--yes", "-h"])), Call::Help));
    match parse_call(&strings(&["--nope", "--help"])) {
        Call::Unknown(e) => assert_eq!(e, "unknown option '--nope'"),
        other => panic!("{other:?}"),
    }
}

#[test]
fn questions_and_answers() {
    assert_eq!(ask("  laser \n", "x"), "laser");
    assert_eq!(ask("\n", "x"), "x");
    assert_eq!(ask("", "x"), "x");
    for (answer, default, yes) in [
        ("y", false, true),
        ("YES", false, true),
        ("n", true, false),
        ("No", true, false),
        ("Y/n", true, true),
        ("y/N", false, false),
        ("maybe", true, true),
    ] {
        assert_eq!(confirm(answer, default), yes, "{answer}");
    }
    assert_eq!((choices(true), choices(false)), ("Y/n", "y/N"));
}

#[test]
fn outcomes_of_programs() {
    assert!(have(true, b"", b""));
    assert!(have(false, b"", b"usage"));
    assert!(have(false, b"v1", b""));
    assert!(!have(false, b"", b""));
    assert_eq!(run(true, b"ok\n", b"warn", "exit status: 0"), Ok("ok\n".into()));
    assert_eq!(
        run(false, b"ok", b" bad thing\n", "exit status: 1"),
        Err("bad thing".into())
    );
    assert_eq!(
        run(false, b"", b" \n", "exit status: 1"),
        Err("exit status exit status: 1".into())
    );
    assert_eq!(run(true, b"\xff", b"", ""), Ok("\u{fffd}".into()));
    assert_eq!(
        find_duplexd("/usr/bin::/opt/"),
        ["/usr/bin/ipp-duplexd", "ipp-duplexd", "/opt/ipp-duplexd"]
    );
}

#[test]
fn probing_a_printer() {
    let m = probe("ipp://h/p");
    assert_eq!(m.op_status, ipp::OP_GET_PRINTER_ATTRS);
    assert_eq!(m.groups[0].attrs.len(), 3);
    assert_eq!(m.find("printer-uri").unwrap().first_str(), Some("ipp://h/p"));
    let mut resp = Msg::response(ipp::OK, 1);
    assert_eq!(probed(&resp), "(unnamed IPP printer)");
    resp.add_group(
        ipp::G_PRINTER,
        vec![Attr::str(ipp::T_TEXT, "printer-make-and-model", "HL")],
    );
    assert_eq!(probed(&resp), "HL");
}

fn pairs(list: &[(&str, &str)]) -> Vec<(String, String)> {
    list.iter()
        .map(|(a, b)| (a.to_string(), b.to_string()))
        .collect()
}

#[test]
fn queues_of_cups() {
    let out = "device for laser: ipp://h/p\nsystem default: x\ndevice for  self : ipp://localhost:6632/ipp/print\r\ndevice for nouri\ndevice for own: ipp://127.0.0.1:6632/x";
    let queues = cups_queues(out);
    assert_eq!(
        queues,
        pairs(&[
            ("laser", "ipp://h/p"),
            ("self", "ipp://localhost:6632/ipp/print"),
            ("own", "ipp://127.0.0.1:6632/x")
        ])
    );
    assert_eq!(usable_queues(queues), pairs(&[("laser", "ipp://h/p")]));
    assert!(cups_queues("").is_empty());
}

#[test]
fn choosing_a_printer() {
    let queues = pairs(&[("a", "x"), ("b", "y")]);
    assert_eq!(
        choose_printer("2", &queues).as_deref(),
        Some("ipp://127.0.0.1:631/printers/b")
    );
    assert_eq!(
        choose_printer("+1", &queues).as_deref(),
        Some("ipp://127.0.0.1:631/printers/a")
    );
    for answer in ["0", "3", "-1", "a", "ipps://h"] {
        assert_eq!(choose_printer(answer, &queues), None, "{answer}");
    }
    assert_eq!(
        choose_printer("http://h", &queues).as_deref(),
        Some("http://h")
    );
    assert_eq!(queue_default("ipp://h/printers/laser"), "laser-duplex");
    assert_eq!(queue_default("ipp://h/printers/a/printers/b"), "b-duplex");
    assert_eq!(queue_default("ipp://h/ipp/print"), "manual-duplex");
}

#[test]
fn written_arguments_are_read_by_the_daemon() {
    assert_eq!(
        daemon_args("ipp://h/p", "127.0.0.1:6632", &None),
        "--printer ipp://h/p"
    );
    let advanced = Some(Advanced {
        gui: false,
        rotate: false,
        blank: "trailing".into(),
    });
    let args = daemon_args("ipp://h/p", "127.0.0.1:7000", &advanced);
    assert_eq!(
        args,
        "--printer ipp://h/p --listen 127.0.0.1:7000 --no-gui --rotate-even 0 --blank trailing"
    );
    let words: Vec<&str> = args.split_whitespace().collect();
    let c = config(&words).unwrap();
    assert_eq!(c.listen, "127.0.0.1:7000");
    assert_eq!(c.printer.uri, "ipp://h/p");
    assert_eq!((c.blank, c.rotate_even, c.gui), (Blank::Trailing, 0, false));
    let plain = Some(Advanced {
        gui: true,
        rotate: true,
        blank: "leading".into(),
    });
    assert_eq!(
        daemon_args("ipp://h", "127.0.0.1:6632", &plain),
        "--printer ipp://h"
    );
}

#[test]
fn config_file_steps() {
    let line = config_line("--printer x");
    assert_eq!(line, "IPP_DUPLEXD_ARGS=--printer x\n");
    assert!(matches!(write_config(&None, &line), ConfigStep::Write));
    assert!(matches!(
        write_config(&Some(line.clone()), &line),
        ConfigStep::Keep
    ));
    match write_config(&Some("1\n2\n3\n4\n5\n6\n".into()), &line) {
        ConfigStep::Ask(lines) => assert_eq!(lines, ["1", "2", "3", "4", "5"]),
        other => panic!("{other:?}"),
    }
    match write_config(&Some("1\r\n2".into()), &line) {
        ConfigStep::Ask(lines) => assert_eq!(lines, ["1", "2"]),
        other => panic!("{other:?}"),
    }
}

#[test]
fn units_and_display_variables() {
    assert_eq!(
        unit("/usr/bin/ipp-duplexd", true),
        "[Unit]\nDescription=Manual duplex virtual IPP printer\nAfter=network.target\nAfter=graphical-session.target\nPartOf=graphical-session.target\n\n[Service]\nEnvironmentFile=%h/.config/ipp-duplexd.conf\nExecStart=/usr/bin/ipp-duplexd $IPP_DUPLEXD_ARGS\nRestart=on-failure\nRestartSec=5\n\n[Install]\nWantedBy=graphical-session.target\n"
    );
    assert_eq!(
        unit("d", false),
        "[Unit]\nDescription=Manual duplex virtual IPP printer\nAfter=network.target\n\n[Service]\nEnvironmentFile=%h/.config/ipp-duplexd.conf\nExecStart=d $IPP_DUPLEXD_ARGS\nRestart=on-failure\nRestartSec=5\n\n[Install]\nWantedBy=default.target\n"
    );
    assert!(needs_unit(false, false) && !needs_unit(true, false) && !needs_unit(false, true));
    let x = Some(":0".to_string());
    let w = Some("wayland-0".to_string());
    assert_eq!(
        missing_display("HOME=/x\nDISPLAYS=1", &x, &w),
        ["DISPLAY=:0", "WAYLAND_DISPLAY=wayland-0"]
    );
    assert_eq!(
        missing_display("DISPLAY=:9\nA=B", &x, &w),
        ["WAYLAND_DISPLAY=wayland-0"]
    );
    assert!(missing_display("", &None, &None).is_empty());
}

#[test]
fn service_after_the_setup() {
    assert!(service_running(true, true, true));
    assert!(service_running(false, false, true));
    assert!(!service_running(true, false, true));
    assert!(!service_running(true, true, false));
    assert!(!service_running(false, false, false));
}

#[test]
fn queue_steps() {
    let queues = pairs(&[("q", "ipp://self"), ("r", "ipp://other"), ("q", "ipp://x")]);
    assert!(matches!(
        add_queue(&queues, "q", "ipp://self"),
        QueueStep::Keep
    ));
    match add_queue(&queues, "r", "ipp://self") {
        QueueStep::Ask(uri) => assert_eq!(uri, "ipp://other"),
        other => panic!("{other:?}"),
    }
    assert!(matches!(
        add_queue(&queues, "s", "ipp://self"),
        QueueStep::Add
    ));
    assert_eq!(
        lpadmin_args("q", "ipp://self"),
        ["-p", "q", "-E", "-v", "ipp://self", "-m", "everywhere"]
    );
    assert_eq!(step(true, true), Step::Run);
    assert_eq!(step(true, false), Step::ByHand);
    assert_eq!(step(false, true), Step::Skip);
    assert_eq!(step(false, false), Step::Skip);
    assert_eq!(listen_port("127.0.0.1:7000"), 7000);
    assert_eq!(listen_port("8000"), 8000);
    assert_eq!(listen_port("[::1]:x"), 6632);
    assert_eq!(listen_port("host:70000"), 6632);
}
