//! The attributes of the virtual printer.

use ipp_duplexd::ipp::{self, Attr, Group, Msg};
use ipp_duplexd::jobs::{Spooler, J_COMPLETED, J_PROCESSING, J_STOPPED};
use ipp_duplexd::printer::{
    apply_overrides, fallback_printer_attrs, op_get_printer_attrs, printer_attrs_request,
    printer_uuid, AttrCache,
};

fn find<'a>(attrs: &'a [Attr], name: &str) -> Option<&'a Attr> {
    attrs.iter().find(|a| a.name == name)
}

fn text(attrs: &[Attr], name: &str) -> String {
    find(attrs, name)
        .and_then(|a| a.first_str())
        .unwrap_or("<none>")
        .to_string()
}

fn number(attrs: &[Attr], name: &str) -> Option<i32> {
    find(attrs, name).and_then(|a| a.first_int())
}

fn hardware() -> Vec<Attr> {
    vec![
        Attr::str(ipp::T_TEXT, "printer-make-and-model", "Brother HL-1234"),
        Attr::str(ipp::T_KEYWORD, "media-default", "iso_a5_148x210mm"),
        Attr::str(ipp::T_NAME, "printer-name", "real-laser"),
        Attr::integer(ipp::T_ENUM, "printer-state", 4),
        Attr::strs(
            ipp::T_KEYWORD,
            "printer-state-reasons",
            &["toner-low", "door-open"],
        ),
        Attr::str(ipp::T_TEXT, "printer-state-message", "warming up"),
        Attr::boolean("printer-is-accepting-jobs", false),
        Attr::str(ipp::T_URI, "device-uri", "usb://x"),
        Attr::str(ipp::T_URI, "printer-icons", "http://x/icon"),
        Attr::str(ipp::T_KEYWORD, "print-color-mode-supported", "monochrome"),
    ]
}

fn shown(sp: &Spooler, mut attrs: Vec<Attr>, online: bool) -> Vec<Attr> {
    apply_overrides(sp, "manual-duplex", 6632, &mut attrs, online);
    attrs
}

fn with_job(state: i32) -> Spooler {
    let mut sp = Spooler::new();
    let id = sp.new_job("n".into(), "u".into(), None);
    sp.set_job_state(id, state, "");
    sp
}

#[test]
fn uuids_of_names() {
    assert_eq!(
        printer_uuid("manual-duplex"),
        "urn:uuid:9073406b-ba8f-418c-870b-f6b873428acc"
    );
    assert_eq!(
        printer_uuid(""),
        "urn:uuid:cbf29ce4-8422-4325-811c-9dc5811c9dc5"
    );
    assert_eq!(
        printer_uuid("Büro"),
        "urn:uuid:e42c3a18-36c4-4c65-8369-659bc9a25905"
    );
    assert_eq!(printer_uuid("laser").len(), 45);
}

#[test]
fn own_attributes_in_their_order() {
    let attrs = shown(&Spooler::new(), hardware(), true);
    let names: Vec<&str> = attrs.iter().map(|a| a.name.as_str()).collect();
    assert_eq!(
        names,
        [
            "media-default",
            "print-color-mode-supported",
            "printer-uri-supported",
            "uri-security-supported",
            "uri-authentication-supported",
            "printer-name",
            "printer-uuid",
            "printer-state",
            "printer-state-reasons",
            "printer-state-message",
            "printer-is-accepting-jobs",
            "queued-job-count",
            "sides-supported",
            "sides-default",
            "operations-supported",
            "document-format-supported",
            "document-format-default",
            "printer-make-and-model",
            "printer-info",
            "printer-location",
        ]
    );
    assert_eq!(
        text(&attrs, "printer-uri-supported"),
        "ipp://127.0.0.1:6632/ipp/print"
    );
    assert_eq!(text(&attrs, "uri-security-supported"), "none");
    assert_eq!(text(&attrs, "printer-name"), "manual-duplex");
    assert_eq!(
        text(&attrs, "printer-uuid"),
        "urn:uuid:9073406b-ba8f-418c-870b-f6b873428acc"
    );
    assert_eq!(
        text(&attrs, "printer-make-and-model"),
        "Brother HL-1234 + manual duplex"
    );
    assert_eq!(
        text(&attrs, "printer-info"),
        "Manual duplex on Brother HL-1234"
    );
    assert_eq!(text(&attrs, "printer-location"), "localhost");
    assert_eq!(text(&attrs, "sides-default"), "two-sided-long-edge");
    assert_eq!(text(&attrs, "document-format-default"), "application/pdf");
    let ops: Vec<i32> = find(&attrs, "operations-supported")
        .unwrap()
        .values
        .iter()
        .map(|(_, v)| i32::from_be_bytes([v[0], v[1], v[2], v[3]]))
        .collect();
    assert_eq!(ops, [2, 4, 5, 6, 8, 9, 10, 11]);
}

#[test]
fn reachable_printer_is_mirrored() {
    let attrs = shown(&Spooler::new(), hardware(), true);
    assert_eq!(number(&attrs, "printer-state"), Some(4));
    assert_eq!(
        find(&attrs, "printer-state-reasons").unwrap().values.len(),
        2
    );
    assert_eq!(text(&attrs, "printer-state-message"), "warming up");
    assert_eq!(
        find(&attrs, "printer-is-accepting-jobs").unwrap().values[0].1,
        [0]
    );
    assert_eq!(number(&attrs, "queued-job-count"), Some(0));
    assert_eq!(text(&attrs, "media-default"), "iso_a5_148x210mm");
    assert!(find(&attrs, "device-uri").is_none());
    assert!(find(&attrs, "printer-icons").is_none());
}

#[test]
fn odd_states_count_as_idle() {
    for state in [2, 6, -1] {
        let attrs = shown(
            &Spooler::new(),
            vec![Attr::integer(ipp::T_ENUM, "printer-state", state)],
            true,
        );
        assert_eq!(number(&attrs, "printer-state"), Some(3), "{state}");
    }
    let attrs = shown(&Spooler::new(), vec![], true);
    assert_eq!(number(&attrs, "printer-state"), Some(3));
    assert_eq!(text(&attrs, "printer-state-reasons"), "none");
    assert_eq!(text(&attrs, "printer-state-message"), "");
    assert_eq!(
        text(&attrs, "printer-make-and-model"),
        "printer + manual duplex"
    );
    assert_eq!(
        find(&attrs, "printer-is-accepting-jobs").unwrap().values[0].1,
        [1]
    );
}

#[test]
fn own_jobs_show_first() {
    let attrs = shown(&with_job(J_PROCESSING), vec![], true);
    assert_eq!(number(&attrs, "printer-state"), Some(4));
    assert_eq!(number(&attrs, "queued-job-count"), Some(1));
    for online in [true, false] {
        let attrs = shown(&with_job(J_STOPPED), hardware(), online);
        assert_eq!(number(&attrs, "printer-state"), Some(5));
        assert_eq!(text(&attrs, "printer-state-reasons"), "media-needed");
        assert_eq!(
            text(&attrs, "printer-state-message"),
            "odd pages printed - flip the stack and confirm"
        );
    }
    let attrs = shown(&with_job(J_COMPLETED), hardware(), true);
    assert_eq!(number(&attrs, "printer-state"), Some(4));
    assert_eq!(number(&attrs, "queued-job-count"), Some(0));
}

#[test]
fn reported_state_shows_while_a_job_prints() {
    for state in [3, 4, 5] {
        let attrs = shown(
            &with_job(J_PROCESSING),
            vec![
                Attr::integer(ipp::T_ENUM, "printer-state", state),
                Attr::str(ipp::T_KEYWORD, "printer-state-reasons", "media-jam"),
                Attr::str(ipp::T_TEXT, "printer-state-message", "paper jam"),
                Attr::boolean("printer-is-accepting-jobs", false),
            ],
            true,
        );
        assert_eq!(number(&attrs, "printer-state"), Some(state));
        assert_eq!(text(&attrs, "printer-state-reasons"), "media-jam");
        assert_eq!(text(&attrs, "printer-state-message"), "paper jam");
        assert_eq!(
            find(&attrs, "printer-is-accepting-jobs").unwrap().values[0].1,
            [0]
        );
    }
    let attrs = shown(
        &with_job(J_PROCESSING),
        vec![Attr::integer(ipp::T_ENUM, "printer-state", 6)],
        true,
    );
    assert_eq!(number(&attrs, "printer-state"), Some(4));
}

#[test]
fn unreachable_printer_still_accepts() {
    let attrs = shown(&with_job(J_PROCESSING), hardware(), false);
    assert_eq!(number(&attrs, "printer-state"), Some(5));
    assert_eq!(text(&attrs, "printer-state-reasons"), "offline-report");
    assert_eq!(
        text(&attrs, "printer-state-message"),
        "real printer is unreachable"
    );
    assert_eq!(
        find(&attrs, "printer-is-accepting-jobs").unwrap().values[0].1,
        [1]
    );
}

#[test]
fn answer_without_the_real_printer() {
    let resp = op_get_printer_attrs(&Spooler::new(), "n", 1, 42, None);
    assert_eq!((resp.op_status, resp.request_id), (ipp::OK, 42));
    assert_eq!(resp.groups[1].tag, ipp::G_PRINTER);
    assert_eq!(
        resp.find("printer-make-and-model").unwrap().first_str(),
        Some("ipp-duplexd virtual printer + manual duplex")
    );
    assert_eq!(
        resp.find("printer-state-reasons").unwrap().first_str(),
        Some("offline-report")
    );
    let fallback = fallback_printer_attrs();
    assert_eq!(fallback.len(), 9);
    assert_eq!(text(&fallback, "charset-configured"), "utf-8");
    assert_eq!(text(&fallback, "media-default"), "iso_a4_210x297mm");
    assert_eq!(
        find(&fallback, "ipp-versions-supported").unwrap().values,
        vec![(0x44, b"1.1".to_vec()), (0x44, b"2.0".to_vec())]
    );
}

#[test]
fn attributes_are_asked_for() {
    let req = printer_attrs_request("ipp://h/p");
    assert_eq!((req.op_status, req.request_id), (0x000b, 1));
    let names: Vec<&str> = req.groups[0]
        .attrs
        .iter()
        .map(|a| a.name.as_str())
        .collect();
    assert_eq!(
        names,
        [
            "attributes-charset",
            "attributes-natural-language",
            "printer-uri",
            "requested-attributes"
        ]
    );
    assert_eq!(req.find("printer-uri").unwrap().first_str(), Some("ipp://h/p"));
    assert_eq!(
        req.find("requested-attributes").unwrap().first_str(),
        Some("all")
    );
}

#[test]
fn what_the_printer_said_is_remembered() {
    let mut cache = AttrCache::new();
    assert!(cache.recent(0).is_none());
    let mut resp = Msg::response(ipp::OK, 1);
    for tag in [ipp::G_PRINTER, ipp::G_JOB, ipp::G_PRINTER] {
        resp.groups.push(Group {
            tag,
            attrs: vec![Attr::integer(ipp::T_INTEGER, "x", tag as i32)],
        });
    }
    let said = cache.proxied_printer_attrs(Ok(resp)).unwrap();
    assert_eq!(said.len(), 2);
    assert_eq!(cache.recent(29).unwrap().unwrap().len(), 2);
    assert!(cache.recent(30).is_none());
    assert!(cache
        .proxied_printer_attrs(Ok(Msg::response(ipp::OK, 1)))
        .is_none());
    assert!(matches!(cache.recent(4), Some(None)));
    assert!(cache.recent(5).is_none());
    assert!(cache.proxied_printer_attrs(Err("e".into())).is_none());
    assert!(matches!(cache.recent(0), Some(None)));
}
