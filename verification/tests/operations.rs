//! IPP operations on jobs, and the HTTP requests that carry them.

use ipp_duplexd::ipp::{self, Attr, Group, Msg};
use ipp_duplexd::jobs::{
    job_reason, state_name, Spooler, J_ABORTED, J_CANCELED, J_COMPLETED, J_PENDING, J_PROCESSING,
    J_STOPPED,
};
use ipp_duplexd::server::{
    handle_ipp, op_get_jobs, req_job_id, req_job_name, req_user, respond, status_page, Outcome,
    PrintTask, Response,
};

const PORT: u16 = 6632;

fn request(op: u16, attrs: Vec<Attr>, data: &[u8]) -> Msg {
    let mut m = Msg::new(op, 99);
    m.groups.push(Group {
        tag: ipp::G_OPERATION,
        attrs,
    });
    m.data = data.to_vec();
    m
}

fn id_attr(id: i32) -> Attr {
    Attr::integer(ipp::T_INTEGER, "job-id", id)
}

fn reply(out: Outcome) -> Msg {
    match out {
        Outcome::Reply(m) => m,
        other => panic!("{other:?}"),
    }
}

fn printed(out: Outcome) -> (Msg, PrintTask) {
    match out {
        Outcome::Print(m, t) => (m, t),
        other => panic!("{other:?}"),
    }
}

fn state(sp: &Spooler, id: i32) -> (i32, String) {
    let j = sp.job(id).unwrap();
    (j.state, j.message.clone())
}

#[test]
fn states_in_words() {
    let names: Vec<&str> = (2..11).map(state_name).collect();
    assert_eq!(
        names,
        [
            "unknown",
            "pending",
            "pending-held",
            "processing",
            "stopped",
            "canceled",
            "aborted",
            "completed",
            "unknown"
        ]
    );
    let reasons: Vec<&str> = (3..10).map(job_reason).collect();
    assert_eq!(
        reasons,
        [
            "none",
            "none",
            "none",
            "media-needed",
            "job-canceled-by-user",
            "aborted-by-system",
            "job-completed-successfully"
        ]
    );
}

#[test]
fn canceled_jobs_stay_canceled() {
    let mut sp = Spooler::new();
    let id = sp.new_job("n".into(), "u".into(), None);
    assert_eq!(id, 1);
    assert!(!sp.job_canceled(id));
    assert!(sp.job_canceled(77), "a job that is not there");
    sp.set_job_state(id, J_CANCELED, "canceled");
    sp.set_job_state(id, J_COMPLETED, "done");
    assert_eq!(state(&sp, id), (J_CANCELED, "canceled".into()));
    sp.set_job_state(id, J_CANCELED, "again");
    assert_eq!(state(&sp, id), (J_CANCELED, "again".into()));
    assert!(sp.job_canceled(id));
}

#[test]
fn ids_wrap_around_and_keep_their_order() {
    let mut sp = Spooler::new();
    sp.next_id = i32::MAX;
    assert_eq!(sp.new_job("a".into(), "u".into(), None), i32::MAX);
    assert_eq!(sp.new_job("b".into(), "u".into(), None), i32::MIN);
    assert_eq!(sp.new_job("c".into(), "u".into(), None), i32::MIN + 1);
    let ids: Vec<i32> = sp.list().iter().map(|j| j.id).collect();
    assert_eq!(ids, [i32::MIN, i32::MIN + 1, i32::MAX]);
    sp.next_id = i32::MAX;
    sp.new_job("d".into(), "v".into(), None);
    assert_eq!(sp.list().len(), 3, "a job of the same id gives way");
    assert_eq!(sp.job_name(i32::MAX), "d");
    assert_eq!(sp.job_user(i32::MAX), "v");
    assert_eq!((sp.job_name(5), sp.job_user(5)), (String::new(), String::new()));
}

#[test]
fn jobs_are_listed_by_ascending_ids() {
    let mut sp = Spooler::new();
    for (n, id) in [40, 7, 900, -3, 12, 8, 0, 333].into_iter().enumerate() {
        sp.next_id = id;
        sp.new_job(format!("n{n}"), "u".into(), Some(vec![]));
    }
    sp.set_job_state(12, J_COMPLETED, "done");
    sp.set_job_state(333, J_CANCELED, "canceled");
    sp.set_job_state(5, J_ABORTED, "nobody");
    assert!(sp.take_pending(7).is_some());
    assert!(sp.take_pending(7).is_none());
    assert!(sp.take_pending(5).is_none());
    let ids: Vec<i32> = sp.list().iter().map(|j| j.id).collect();
    assert_eq!(ids, [-3, 0, 7, 8, 12, 40, 333, 900]);
    let listed = |which: &str| -> Vec<i32> {
        let req = request(
            ipp::OP_GET_JOBS,
            vec![Attr::str(ipp::T_KEYWORD, "which-jobs", which)],
            b"",
        );
        op_get_jobs(&sp, PORT, &req).groups[1..]
            .iter()
            .map(|g| {
                let id = g.attrs.iter().find(|a| a.name == "job-id").unwrap();
                id.first_int().unwrap()
            })
            .collect()
    };
    assert_eq!(listed("not-completed"), [-3, 0, 7, 8, 40, 900]);
    assert_eq!(listed("completed"), [12, 333]);
    let page = status_page(&sp, "n", "u");
    let lines: Vec<&str> = page.lines().filter(|l| l.starts_with("job ")).collect();
    assert_eq!(lines.len(), 8);
    assert!(lines[0].starts_with("job -3 ") && lines[7].starts_with("job 900 "));
}

#[test]
fn what_a_request_says_of_its_job() {
    let mut m = request(ipp::OP_PRINT_JOB, vec![], b"");
    assert_eq!(req_user(&m), "anonymous");
    assert_eq!(req_job_name(&m), "untitled");
    assert_eq!(req_job_id(&m), None);
    m.groups.push(Group {
        tag: ipp::G_JOB,
        attrs: vec![Attr::str(ipp::T_NAME, "job-name", "from the job group")],
    });
    assert_eq!(req_job_name(&m), "from the job group");
    m.groups[0]
        .attrs
        .push(Attr::str(ipp::T_NAME, "job-name", "from the operation"));
    m.groups[0]
        .attrs
        .push(Attr::str(ipp::T_NAME, "requesting-user-name", "me"));
    assert_eq!(req_job_name(&m), "from the operation");
    assert_eq!(req_user(&m), "me");
    // an operation attribute that is no text hides the one of the job
    m.groups[0].attrs[0].values[0].1 = vec![0xff];
    assert_eq!(req_job_name(&m), "untitled");
}

#[test]
fn print_job_operation() {
    let mut sp = Spooler::new();
    let empty = request(ipp::OP_PRINT_JOB, vec![], b"");
    let m = reply(handle_ipp(&mut sp, PORT, empty));
    assert_eq!((m.op_status, m.request_id), (ipp::ERR_BAD_REQUEST, 99));
    assert!(sp.list().is_empty());
    let mut req = request(
        ipp::OP_PRINT_JOB,
        vec![Attr::str(ipp::T_NAME, "job-name", "doc")],
        b"%PDF",
    );
    req.groups.push(Group {
        tag: ipp::G_JOB,
        attrs: vec![Attr::integer(ipp::T_INTEGER, "copies", 2)],
    });
    let (m, t) = printed(handle_ipp(&mut sp, PORT, req));
    assert_eq!((t.id, t.data.as_slice(), t.attrs.len()), (1, &b"%PDF"[..], 1));
    assert_eq!(m.op_status, ipp::OK);
    assert_eq!(m.groups[1].tag, ipp::G_JOB);
    assert_eq!(m.find("job-id").unwrap().first_int(), Some(1));
    assert_eq!(
        m.find("job-uri").unwrap().first_str(),
        Some("ipp://127.0.0.1:6632/jobs/1")
    );
    assert_eq!(m.find("job-state").unwrap().first_int(), Some(3));
    assert_eq!(m.find("job-state-reasons").unwrap().first_str(), Some("none"));
    assert_eq!(m.find("job-state-message").unwrap().first_str(), Some(""));
    assert_eq!(state(&sp, 1), (J_PENDING, String::new()));
}

#[test]
fn create_job_and_send_document() {
    let mut sp = Spooler::new();
    for _ in 0..3 {
        let create = request(ipp::OP_CREATE_JOB, vec![], b"");
        assert_eq!(
            reply(handle_ipp(&mut sp, PORT, create)).op_status,
            ipp::OK
        );
    }
    let mut send = |attrs: Vec<Attr>, data: &[u8]| {
        handle_ipp(&mut sp, PORT, request(ipp::OP_SEND_DOCUMENT, attrs, data))
    };
    assert_eq!(reply(send(vec![], b"x")).op_status, ipp::ERR_BAD_REQUEST);
    assert_eq!(
        reply(send(vec![id_attr(9)], b"x")).op_status,
        ipp::ERR_NOT_FOUND
    );
    let (m, t) = printed(send(vec![id_attr(1)], b"x"));
    assert_eq!((m.op_status, t.id), (ipp::OK, 1));
    assert_eq!(
        reply(send(vec![id_attr(1)], b"x")).op_status,
        ipp::ERR_NOT_POSSIBLE
    );
    let more = vec![id_attr(2), Attr::boolean("last-document", false)];
    assert_eq!(reply(send(more, b"x")).op_status, ipp::ERR_OP_NOT_SUPPORTED);
    assert_eq!(
        reply(send(vec![id_attr(3)], b"")).op_status,
        ipp::ERR_BAD_REQUEST
    );
    assert_eq!(
        state(&sp, 2),
        (J_ABORTED, "multi-document jobs not supported".into())
    );
    assert_eq!(state(&sp, 3), (J_ABORTED, "empty document".into()));
    assert_eq!(state(&sp, 1), (J_PENDING, String::new()));
}

#[test]
fn jobs_are_listed() {
    let mut sp = Spooler::new();
    for name in ["a", "b", "c"] {
        sp.new_job(name.into(), "u".into(), None);
    }
    sp.set_job_state(2, J_COMPLETED, "done");
    sp.set_job_state(3, J_STOPPED, "flip");
    let mut list = |which: Option<&str>| -> Vec<(i32, String)> {
        let attrs = which
            .map(|w| vec![Attr::str(ipp::T_KEYWORD, "which-jobs", w)])
            .unwrap_or_default();
        let m = reply(handle_ipp(
            &mut sp,
            PORT,
            request(ipp::OP_GET_JOBS, attrs, b""),
        ));
        assert_eq!(m.op_status, ipp::OK);
        m.groups[1..]
            .iter()
            .map(|g| {
                (
                    g.attrs[0].first_int().unwrap(),
                    g.attrs[5].first_str().unwrap().to_string(),
                )
            })
            .collect()
    };
    assert_eq!(list(None), [(1, "a".to_string()), (3, "c".to_string())]);
    assert_eq!(
        list(Some("not-completed")),
        [(1, "a".to_string()), (3, "c".to_string())]
    );
    assert_eq!(list(Some("completed")), [(2, "b".to_string())]);
    assert_eq!(list(Some("all")).len(), 2);
}

#[test]
fn job_attributes_are_told() {
    let mut sp = Spooler::new();
    sp.new_job("doc".into(), "me".into(), None);
    sp.set_job_state(1, J_STOPPED, "flip the stack");
    let get = |attrs| request(ipp::OP_GET_JOB_ATTRS, attrs, b"");
    let m = reply(handle_ipp(&mut sp, PORT, get(vec![id_attr(1)])));
    assert_eq!(m.find("job-state").unwrap().first_int(), Some(6));
    assert_eq!(
        m.find("job-state-reasons").unwrap().first_str(),
        Some("media-needed")
    );
    assert_eq!(
        m.find("job-state-message").unwrap().first_str(),
        Some("flip the stack")
    );
    assert_eq!(m.find("job-name").unwrap().first_str(), Some("doc"));
    assert_eq!(
        m.find("job-originating-user-name").unwrap().first_str(),
        Some("me")
    );
    for attrs in [vec![], vec![id_attr(2)]] {
        let m = reply(handle_ipp(&mut sp, PORT, get(attrs)));
        assert_eq!(m.op_status, ipp::ERR_NOT_FOUND);
    }
}

#[test]
fn jobs_are_canceled() {
    let mut sp = Spooler::new();
    sp.new_job("doc".into(), "me".into(), None);
    let cancel = |attrs| request(ipp::OP_CANCEL_JOB, attrs, b"");
    let m = reply(handle_ipp(&mut sp, PORT, cancel(vec![])));
    assert_eq!(m.op_status, ipp::ERR_BAD_REQUEST);
    let m = reply(handle_ipp(&mut sp, PORT, cancel(vec![id_attr(5)])));
    assert_eq!(m.op_status, ipp::ERR_NOT_FOUND);
    match handle_ipp(&mut sp, PORT, cancel(vec![id_attr(1)])) {
        Outcome::Canceled(m) => assert_eq!(m.op_status, ipp::OK),
        other => panic!("{other:?}"),
    }
    assert_eq!(state(&sp, 1), (J_CANCELED, "canceled".into()));
    let m = reply(handle_ipp(&mut sp, PORT, cancel(vec![id_attr(1)])));
    assert_eq!(m.op_status, ipp::ERR_NOT_POSSIBLE);
}

#[test]
fn other_operations() {
    let mut sp = Spooler::new();
    let m = reply(handle_ipp(
        &mut sp,
        PORT,
        request(ipp::OP_VALIDATE_JOB, vec![], b""),
    ));
    assert_eq!((m.op_status, m.request_id), (ipp::OK, 99));
    let m = reply(handle_ipp(&mut sp, PORT, request(0x4002, vec![], b"")));
    assert_eq!(m.op_status, ipp::ERR_OP_NOT_SUPPORTED);
    let ask = request(ipp::OP_GET_PRINTER_ATTRS, vec![], b"");
    assert!(matches!(
        handle_ipp(&mut sp, PORT, ask),
        Outcome::AskPrinter
    ));
}

#[test]
fn status_page_lists_jobs() {
    let mut sp = Spooler::new();
    sp.new_job("doc".into(), "me".into(), None);
    sp.new_job("two".into(), "you".into(), None);
    sp.set_job_state(1, J_PROCESSING, "printing odd pages");
    assert_eq!(
        status_page(&sp, "manual-duplex", "ipp://h/p"),
        "ipp-duplexd 'manual-duplex' -> ipp://h/p\nGET /flip to continue after flipping the stack\n\n\
         job 1 \"doc\" (me): processing printing odd pages\njob 2 \"two\" (you): pending \n"
    );
}

#[test]
fn http_requests_are_answered() {
    let mut sp = Spooler::new();
    let mut ask = |method: &str, path: &str, body: &[u8]| {
        respond(&mut sp, "n", "ipp://h/p", PORT, method, path, body)
    };
    match ask("PUT", "/", b"") {
        Response::Done(r) => {
            assert_eq!(r.status, "405 Method Not Allowed");
            assert_eq!(r.body, b"nope\n");
        }
        other => panic!("{other:?}"),
    }
    match ask("POST", "/anything", b"short") {
        Response::Done(r) => {
            assert_eq!(r.status, "400 Bad Request");
            assert_eq!(r.content_type, "text/plain");
            assert_eq!(r.body, b"ipp message too short");
        }
        other => panic!("{other:?}"),
    }
    match ask("GET", "/", b"") {
        Response::Done(r) => assert!(r.body.starts_with(b"ipp-duplexd 'n' -> ipp://h/p\n")),
        other => panic!("{other:?}"),
    }
    match ask("GET", "/flip", b"") {
        Response::Wake(r) => assert_eq!(r.body, b"no job is waiting for a flip\n"),
        other => panic!("{other:?}"),
    }
    let bytes = request(ipp::OP_GET_PRINTER_ATTRS, vec![], b"").encode();
    assert!(matches!(
        ask("POST", "/ipp/print", &bytes),
        Response::AskPrinter(99)
    ));
    let bytes = request(ipp::OP_PRINT_JOB, vec![], b"doc").encode();
    match ask("POST", "/ipp/print", &bytes) {
        Response::Print(r, t) => {
            assert_eq!((r.status.as_str(), t.data), ("200 OK", b"doc".to_vec()));
            assert_eq!(r.content_type, "application/ipp");
        }
        other => panic!("{other:?}"),
    }
    let bytes = request(ipp::OP_CANCEL_JOB, vec![id_attr(1)], b"").encode();
    assert!(matches!(ask("POST", "/", &bytes), Response::Wake(_)));
    sp.new_job("x".into(), "u".into(), None);
    sp.set_job_state(2, J_STOPPED, "");
    match respond(&mut sp, "n", "u", PORT, "GET", "/flip", b"") {
        Response::Wake(r) => assert_eq!(r.body, b"ok, printing the backs\n"),
        other => panic!("{other:?}"),
    }
    assert!(sp.flip_requested);
}
