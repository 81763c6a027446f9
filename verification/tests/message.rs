//! IPP messages in memory and in bytes.

use ipp_duplexd::ipp::{self, parse, parse_uri, Attr, Group, Msg};

fn sample() -> Msg {
    let mut m = Msg::new(ipp::OP_PRINT_JOB, 0x01020304);
    m.groups.push(Group {
        tag: ipp::G_OPERATION,
        attrs: vec![
            Attr::str(ipp::T_CHARSET, "attributes-charset", "utf-8"),
            Attr::strs(ipp::T_KEYWORD, "kinds", &["a", "bc"]),
        ],
    });
    m.groups.push(Group {
        tag: ipp::G_JOB,
        attrs: vec![
            Attr::integer(ipp::T_INTEGER, "copies", -2),
            Attr::ints(ipp::T_ENUM, "finishings", &[3, 4]),
            Attr::boolean("fit", true),
        ],
    });
    m.data = b"%PDF".to_vec();
    m
}

fn same_msg(a: &Msg, b: &Msg) -> bool {
    format!("{a:?}") == format!("{b:?}")
}

#[test]
fn values_and_their_bytes() {
    let a = Attr::str(ipp::T_TEXT, "n", "é");
    assert_eq!(a.name, "n");
    assert_eq!(a.values, vec![(0x41, vec![0xc3, 0xa9])]);
    assert_eq!(a.first_str(), Some("é"));
    assert_eq!(a.first_int(), None);
    let i = Attr::integer(ipp::T_INTEGER, "i", -2);
    assert_eq!(i.values, vec![(0x21, vec![0xff, 0xff, 0xff, 0xfe])]);
    assert_eq!(i.first_int(), Some(-2));
    for v in [0, 1, -1, 256, i32::MAX, i32::MIN] {
        let a = Attr::integer(ipp::T_ENUM, "v", v);
        assert_eq!(a.values[0].1, v.to_be_bytes().to_vec());
        assert_eq!(a.first_int(), Some(v));
    }
    let b = Attr::boolean("b", false);
    assert_eq!(b.values, vec![(0x22, vec![0])]);
    let none = Attr::strs(ipp::T_KEYWORD, "none", &[]);
    assert_eq!((none.first_str(), none.first_int()), (None, None));
    let bad = Attr {
        name: "bad".into(),
        values: vec![(0x41, vec![0xff, 0xfe, 0xfd, 0xfc])],
    };
    assert_eq!(bad.first_str(), None);
    assert_eq!(bad.first_int(), Some(-66052));
}

#[test]
fn encoding_byte_by_byte() {
    let mut m = Msg::new(0x000b, 1);
    m.groups.push(Group {
        tag: 4,
        attrs: vec![Attr {
            name: "ab".into(),
            values: vec![(0x44, vec![7]), (0x45, vec![])],
        }],
    });
    m.data = vec![9, 9];
    assert_eq!(
        m.encode(),
        vec![
            2, 0, 0, 11, 0, 0, 0, 1, // header
            4, 0x44, 0, 2, b'a', b'b', 0, 1, 7, // group and first value
            0x45, 0, 0, 0, 0, // a further value has no name
            3, 9, 9 // end and data
        ]
    );
}

#[test]
fn messages_survive_the_round_trip() {
    let m = sample();
    let bytes = m.encode();
    let back = parse(&bytes).unwrap();
    assert!(same_msg(&m, &back));
    assert_eq!(back.encode(), bytes);
    assert!(same_msg(&m, &m.clone()));
}

#[test]
fn unknown_tags_survive_the_round_trip() {
    // a collection, in pieces that mean nothing here
    let mut bytes = vec![1, 1, 0, 11, 0, 0, 0, 9, 4];
    bytes.extend_from_slice(&[0x34, 0, 1, b'c', 0, 0]);
    bytes.extend_from_slice(&[0x4a, 0, 0, 0, 2, b'm', b'n']);
    bytes.extend_from_slice(&[0x37, 0, 0, 0, 0]);
    bytes.push(9);
    bytes.extend_from_slice(&[0x13, 0, 1, b'd', 0, 0]);
    bytes.push(3);
    let m = parse(&bytes).unwrap();
    assert_eq!(m.version, (1, 1));
    assert_eq!(m.groups.len(), 2);
    assert_eq!(m.groups[0].attrs[0].values.len(), 3);
    assert_eq!(m.groups[1].tag, 9);
    assert_eq!(m.encode(), bytes);
}

#[test]
fn names_that_are_not_utf8_are_repaired() {
    let mut bytes = vec![2, 0, 0, 2, 0, 0, 0, 1, 1];
    bytes.extend_from_slice(&[0x44, 0, 3, b'a', 0xff, b'b', 0, 0]);
    bytes.push(3);
    let m = parse(&bytes).unwrap();
    assert_eq!(m.groups[0].attrs[0].name, "a\u{fffd}b");
    assert_ne!(m.encode(), bytes);
    assert!(same_msg(&parse(&m.encode()).unwrap(), &m));
}

#[test]
fn missing_end_tag_is_tolerated() {
    let m = parse(&[2, 0, 0, 2, 0, 0, 0, 1, 1]).unwrap();
    assert_eq!(m.groups.len(), 1);
    assert!(m.data.is_empty());
    let m = parse(&[2, 0, 0, 2, 0, 0, 0, 1, 3]).unwrap();
    assert!(m.groups.is_empty());
    let mut m = sample();
    m.data.clear();
    let whole = m.encode();
    let (end, cut) = whole.split_last().unwrap();
    assert_eq!(*end, ipp::G_END);
    assert!(same_msg(&parse(cut).unwrap(), &m));
}

#[test]
fn data_follows_the_end_tag() {
    let m = sample();
    let mut bytes = m.encode();
    bytes.extend_from_slice(&[3, 0x44, 0]);
    let mut longer = sample();
    longer.data.extend_from_slice(&[3, 0x44, 0]);
    assert!(same_msg(&parse(&bytes).unwrap(), &longer));
    let bad = [2, 0, 0, 2, 0, 0, 0, 1, 1, 0x44, 0, 0, 0, 0, 3];
    let e = parse(&bad).unwrap_err();
    assert_eq!(parse(&[&bad[..], b"more"].concat()).unwrap_err(), e);
}

#[test]
fn encoding_adds_the_end_tag() {
    let bytes = [2, 0, 0, 2, 0, 0, 0, 1, 1, 0x44, 0, 1, b'a', 0, 1, b'v'];
    let m = parse(&bytes).unwrap();
    assert_eq!(m.encode(), [&bytes[..], &[ipp::G_END]].concat());
}

#[test]
fn finding_in_a_tag_is_finding_in_its_groups() {
    let mut m = sample();
    m.groups.push(Group {
        tag: ipp::G_JOB,
        attrs: vec![Attr::str(ipp::T_NAME, "late", "1")],
    });
    m.groups.push(Group {
        tag: ipp::G_JOB,
        attrs: vec![Attr::str(ipp::T_NAME, "late", "2")],
    });
    let names: Vec<String> = m
        .groups
        .iter()
        .flat_map(|g| g.attrs.iter().map(|a| a.name.clone()))
        .collect();
    for tag in [ipp::G_OPERATION, ipp::G_JOB, ipp::G_PRINTER] {
        let mut only = parse(&m.encode()).unwrap();
        only.groups.retain(|g| g.tag == tag);
        for name in &names {
            assert_eq!(
                m.find_in(tag, name).map(|a| &a.values),
                only.find(name).map(|a| &a.values)
            );
        }
    }
    assert_eq!(m.find_in(ipp::G_JOB, "late").unwrap().first_str(), Some("1"));
}

#[test]
fn names_are_never_empty() {
    for name in [&[0xff][..], &[0xc3], &[0xed, 0xa0, 0x80], b"n"] {
        let mut bytes = vec![2, 0, 0, 2, 0, 0, 0, 1, 1, 0x44, 0, name.len() as u8];
        bytes.extend_from_slice(name);
        bytes.extend_from_slice(&[0, 1, b'v', 0x44, 0, 0, 0, 0]);
        let m = parse(&bytes).unwrap();
        let a = &m.groups[0].attrs[0];
        assert_eq!(a.name, String::from_utf8_lossy(name));
        assert!(!a.name.is_empty());
        assert_eq!(a.values.len(), 2);
        let cut = m.encode();
        assert!(same_msg(&parse(&cut[..cut.len() - 1]).unwrap(), &m));
    }
}

#[test]
fn decoding_errors() {
    let err = |bytes: &[u8]| parse(bytes).unwrap_err();
    let head = [2, 0, 0, 2, 0, 0, 0, 1];
    assert_eq!(err(&head), "ipp message too short");
    assert_eq!(err(&[]), "ipp message too short");
    let with = |tail: &[u8]| {
        let mut v = head.to_vec();
        v.extend_from_slice(tail);
        v
    };
    for tail in [
        &[1, 0x44][..],
        &[1, 0x44, 0],
        &[1, 0x44, 0, 2, b'a'],
        &[1, 0x44, 0, 1, b'a', 0],
        &[1, 0x44, 0, 1, b'a', 0, 1],
        &[0x44, 0, 5],
    ] {
        assert_eq!(err(&with(tail)), "truncated ipp attribute", "{tail:?}");
    }
    assert_eq!(
        err(&with(&[0x44, 0, 1, b'a', 0, 0])),
        "attribute outside of any group"
    );
    assert_eq!(
        err(&with(&[1, 0x44, 0, 0, 0, 0])),
        "additional value with no previous attribute"
    );
}

#[test]
fn responses_begin_with_charset_and_language() {
    let m = Msg::response(ipp::ERR_NOT_FOUND, 77);
    assert_eq!((m.version, m.op_status, m.request_id), ((2, 0), 0x0406, 77));
    assert_eq!(m.groups.len(), 1);
    assert_eq!(m.groups[0].tag, ipp::G_OPERATION);
    assert_eq!(
        m.find("attributes-charset").unwrap().first_str(),
        Some("utf-8")
    );
    assert_eq!(
        m.find("attributes-natural-language").unwrap().first_str(),
        Some("en")
    );
    assert!(m.data.is_empty());
}

#[test]
fn finding_attributes() {
    let mut m = sample();
    m.groups.push(Group {
        tag: ipp::G_JOB,
        attrs: vec![
            Attr::integer(ipp::T_INTEGER, "copies", 5),
            Attr::integer(ipp::T_INTEGER, "kinds", 6),
        ],
    });
    assert_eq!(m.find("copies").unwrap().first_int(), Some(-2));
    assert_eq!(
        m.find_in(ipp::G_JOB, "kinds").unwrap().first_int(),
        Some(6)
    );
    assert_eq!(m.find("kinds").unwrap().first_str(), Some("a"));
    assert!(m.find("missing").is_none());
    assert!(m.find_in(ipp::G_PRINTER, "copies").is_none());
    let job = m.attrs_of(ipp::G_JOB);
    let names: Vec<&str> = job.iter().map(|a| a.name.as_str()).collect();
    assert_eq!(names, ["copies", "finishings", "fit", "copies", "kinds"]);
}

#[test]
fn printer_addresses() {
    let u = parse_uri("ipp://host:8631/printers/x").unwrap();
    assert_eq!(
        (u.host.as_str(), u.port, u.path.as_str(), u.uri.as_str()),
        ("host", 8631, "/printers/x", "ipp://host:8631/printers/x")
    );
    let u = parse_uri("http://host").unwrap();
    assert_eq!((u.host.as_str(), u.port, u.path.as_str()), ("host", 631, "/"));
    let u = parse_uri("ipp://[::1]:80/a:b").unwrap();
    assert_eq!((u.host.as_str(), u.port, u.path.as_str()), ("[::1]", 80, "/a:b"));
    let u = parse_uri("ipp://a:b:9").unwrap();
    assert_eq!((u.host.as_str(), u.port), ("a:b", 9));
    let err = |s: &str| parse_uri(s).unwrap_err();
    assert_eq!(
        err("ipps://host/"),
        "unsupported printer URI 'ipps://host/' (need ipp:// or http://; TLS-only ipps:// is not supported)"
    );
    assert_eq!(err("ipp://host:/x"), "bad port");
    assert_eq!(err("ipp://host:65536/"), "bad port");
    assert_eq!(err("ipp://:631/x"), "empty host in printer URI");
    assert_eq!(err("ipp:///x"), "empty host in printer URI");
    assert_eq!(
        ipp_duplexd::uri::self_uri(6632),
        "ipp://127.0.0.1:6632/ipp/print"
    );
    let back = parse_uri(&ipp_duplexd::uri::self_uri(6632)).unwrap();
    assert_eq!(
        (back.host.as_str(), back.port, back.path.as_str()),
        ("127.0.0.1", 6632, "/ipp/print")
    );
}
