//! The attributes of the virtual printer: those of the real one, with the
//! identity, the state and the duplex ability that are its own.

use crate::ipp::{
    attr_views, attrs_in, be32, boolean_attr, clone_attrs, find_attr, first_named, int_attr,
    ints_attr, lemma_find_in_only_group, lemma_first_named_absent, lemma_first_named_at,
    lemma_first_named_concat, lemma_first_named_filter, lemma_first_named_name, msg_result, new_msg,
    preamble, preamble_attrs, response_msg, signed, str_attr, strs_attr, value_view, Attr, AttrView,
    GroupView, Msg, MsgView, G_OPERATION, G_PRINTER, OK, OP_CANCEL_JOB, OP_CREATE_JOB, OP_GET_JOBS,
    OP_GET_JOB_ATTRS, OP_GET_PRINTER_ATTRS, OP_PRINT_JOB, OP_SEND_DOCUMENT, OP_VALIDATE_JOB,
    T_CHARSET, T_ENUM, T_INTEGER, T_KEYWORD, T_LANGUAGE, T_MIME, T_NAME, T_TEXT, T_URI,
};
use crate::jobs::{
    any_in_state, pending_view, JobView, Spooler, SpoolerView, J_CANCELED, J_PROCESSING, J_STOPPED,
};
use crate::server::{attr_number, attr_text, is_done, number_of, text_or, with_group};
use crate::table::looked_up;
use crate::text::{
    bytes_of, decimal, hex_byte, hex_digit, in_list, push_hex_byte, push_hex_digit, same, same_bytes,
};
use crate::uri::{self_uri, self_uri_text};
use crate::wire::{law_int_reads_back, law_str_reads_back};
use vstd::prelude::*;
use vstd::string::StringExecFns;
use vstd::utf8::*;

verus! {

// ------------------------------------------------------------- identity

/// The FNV-1a step over a run of bytes.
pub open spec fn fnv(bytes: Seq<u8>, seed: u64, prime: u64) -> u64
    decreases bytes.len(),
{
    if bytes.len() == 0 {
        seed
    } else {
        (fnv(bytes.drop_last(), seed, prime) ^ (bytes.last() as u64)).wrapping_mul(prime)
    }
}

/// A number as eight bytes, the most significant first.
pub open spec fn be64(n: u64) -> Seq<u8> {
    be32((n / 0x1_0000_0000) as nat) + be32((n % 0x1_0000_0000) as nat)
}

/// The hexadecimal digits of a run of bytes.
pub open spec fn hex_bytes(bytes: Seq<u8>) -> Seq<char>
    decreases bytes.len(),
{
    if bytes.len() == 0 {
        seq![]
    } else {
        hex_bytes(bytes.drop_last()) + hex_byte(bytes.last())
    }
}

/// The sixteen bytes that stand for a printer name.
pub open spec fn name_hash(name: Seq<char>) -> Seq<u8> {
    be64(fnv(encode_utf8(name), 0xcbf29ce484222325, 0x100000001b3)) + be64(
        fnv(encode_utf8(name), 0x811c9dc5811c9dc5, 0x1000193),
    )
}

/// The UUID that the sixteen bytes spell, with the version digit 4 and the
/// variant digit 8 in their places.
pub open spec fn uuid_of(b: Seq<u8>) -> Seq<char> {
    "urn:uuid:"@ + hex_bytes(b.subrange(0, 4)) + "-"@ + hex_bytes(b.subrange(4, 6)) + "-4"@ + seq![
        hex_digit((b[6] % 16) as nat),
    ] + hex_bytes(b.subrange(7, 8)) + "-8"@ + seq![hex_digit((b[8] % 16) as nat)] + hex_bytes(
        b.subrange(9, 10),
    ) + "-"@ + hex_bytes(b.subrange(10, 16))
}

/// Appends a number as eight bytes.
fn push_u64(out: &mut Vec<u8>, n: u64)
    ensures
        final(out)@ == old(out)@ + be64(n),
{
    let hi: u64 = n / 0x1_0000_0000;
    let lo: u64 = n % 0x1_0000_0000;
    out.push((hi / 0x1000000) as u8);
    out.push((hi / 0x10000 % 256) as u8);
    out.push((hi / 256 % 256) as u8);
    out.push((hi % 256) as u8);
    out.push((lo / 0x1000000) as u8);
    out.push((lo / 0x10000 % 256) as u8);
    out.push((lo / 256 % 256) as u8);
    out.push((lo % 256) as u8);
    assert(out@ =~= old(out)@ + be64(n));
}

/// Appends the hexadecimal digits of the bytes from `from` up to `to`.
fn push_hex_bytes(out: &mut String, bytes: &Vec<u8>, from: usize, to: usize)
    requires
        from <= to <= bytes@.len(),
    ensures
        final(out)@ == old(out)@ + hex_bytes(bytes@.subrange(from as int, to as int)),
{
    let mut i: usize = from;
    assert(bytes@.subrange(from as int, from as int) =~= seq![]);
    assert(out@ =~= old(out)@ + hex_bytes(seq![]));
    while i < to
        invariant
            from <= i <= to <= bytes@.len(),
            out@ == old(out)@ + hex_bytes(bytes@.subrange(from as int, i as int)),
        decreases to - i,
    {
        let ghost next = bytes@.subrange(from as int, i + 1);
        assert(next.drop_last() =~= bytes@.subrange(from as int, i as int));
        assert(next.last() == bytes@[i as int]);
        push_hex_byte(out, bytes[i]);
        i += 1;
        assert(out@ =~= old(out)@ + hex_bytes(next));
    }
}

/// Deterministic urn:uuid derived from the printer name (FNV-1a based).
pub fn printer_uuid(name: &str) -> (r: String)
    ensures
        r@ == uuid_of(name_hash(name@)),
{
    let bytes = bytes_of(name);
    let mut h1: u64 = 0xcbf29ce484222325;
    let mut h2: u64 = 0x811c9dc5811c9dc5;
    let mut i: usize = 0;
    assert(bytes@.take(0) =~= seq![]);
    while i < bytes.len()
        invariant
            i <= bytes@.len(),
            h1 == fnv(bytes@.take(i as int), 0xcbf29ce484222325, 0x100000001b3),
            h2 == fnv(bytes@.take(i as int), 0x811c9dc5811c9dc5, 0x1000193),
        decreases bytes@.len() - i,
    {
        assert(bytes@.take(i + 1).drop_last() =~= bytes@.take(i as int));
        assert(bytes@.take(i + 1).last() == bytes@[i as int]);
        h1 = (h1 ^ (bytes[i] as u64)).wrapping_mul(0x100000001b3);
        h2 = (h2 ^ (bytes[i] as u64)).wrapping_mul(0x1000193);
        i += 1;
    }
    assert(bytes@.take(i as int) =~= bytes@);
    let mut b: Vec<u8> = Vec::new();
    push_u64(&mut b, h1);
    push_u64(&mut b, h2);
    assert(b@ =~= name_hash(name@));
    let mut s = "urn:uuid:".to_owned();
    push_hex_bytes(&mut s, &b, 0, 4);
    s.append("-");
    push_hex_bytes(&mut s, &b, 4, 6);
    s.append("-4");
    push_hex_digit(&mut s, b[6] % 16);
    push_hex_bytes(&mut s, &b, 7, 8);
    s.append("-8");
    push_hex_digit(&mut s, b[8] % 16);
    push_hex_bytes(&mut s, &b, 9, 10);
    s.append("-");
    push_hex_bytes(&mut s, &b, 10, 16);
    assert(s@ =~= uuid_of(name_hash(name@)));
    s
}

// --------------------------------------------------------------- fallback

/// The attributes that stand in for those of a printer that cannot be reached.
pub open spec fn fallback_attrs() -> Seq<AttrView> {
    seq![
        str_attr(T_CHARSET, "charset-configured"@, "utf-8"@),
        str_attr(T_CHARSET, "charset-supported"@, "utf-8"@),
        str_attr(T_LANGUAGE, "natural-language-configured"@, "en"@),
        str_attr(T_LANGUAGE, "generated-natural-language-supported"@, "en"@),
        strs_attr(T_KEYWORD, "ipp-versions-supported"@, seq!["1.1"@, "2.0"@]),
        strs_attr(T_KEYWORD, "pdl-override-supported"@, seq!["attempted"@]),
        strs_attr(
            T_KEYWORD,
            "media-supported"@,
            seq!["iso_a4_210x297mm"@, "na_letter_8.5x11in"@],
        ),
        str_attr(T_KEYWORD, "media-default"@, "iso_a4_210x297mm"@),
        str_attr(T_TEXT, "printer-make-and-model"@, "ipp-duplexd virtual printer"@),
    ]
}

/// The attributes that stand in for those of a printer that cannot be reached.
pub fn fallback_printer_attrs() -> (r: Vec<Attr>)
    ensures
        attr_views(r@) == fallback_attrs(),
{
    let versions: [&str; 2] = ["1.1", "2.0"];
    let overrides: [&str; 1] = ["attempted"];
    let media: [&str; 2] = ["iso_a4_210x297mm", "na_letter_8.5x11in"];
    proof {
        assert(versions@.map_values(|v: &str| v@) =~= seq!["1.1"@, "2.0"@]);
        assert(overrides@.map_values(|v: &str| v@) =~= seq!["attempted"@]);
        assert(media@.map_values(|v: &str| v@) =~= seq!["iso_a4_210x297mm"@, "na_letter_8.5x11in"@]);
    }
    let mut attrs: Vec<Attr> = Vec::new();
    attrs.push(Attr::str(T_CHARSET, "charset-configured", "utf-8"));
    attrs.push(Attr::str(T_CHARSET, "charset-supported", "utf-8"));
    attrs.push(Attr::str(T_LANGUAGE, "natural-language-configured", "en"));
    attrs.push(Attr::str(T_LANGUAGE, "generated-natural-language-supported", "en"));
    attrs.push(Attr::strs(T_KEYWORD, "ipp-versions-supported", &versions));
    attrs.push(Attr::strs(T_KEYWORD, "pdl-override-supported", &overrides));
    attrs.push(Attr::strs(T_KEYWORD, "media-supported", &media));
    attrs.push(Attr::str(T_KEYWORD, "media-default", "iso_a4_210x297mm"));
    attrs.push(Attr::str(T_TEXT, "printer-make-and-model", "ipp-duplexd virtual printer"));
    assert(attr_views(attrs@) =~= fallback_attrs());
    attrs
}

// -------------------------------------------------------------- overrides

/// The attributes that are the virtual printer's own matter.
pub open spec fn overridden() -> Seq<Seq<char>> {
    seq![
        "printer-uri-supported"@,
        "uri-security-supported"@,
        "uri-authentication-supported"@,
        "printer-name"@,
        "printer-uuid"@,
        "printer-state"@,
        "printer-state-reasons"@,
        "printer-state-message"@,
        "printer-is-accepting-jobs"@,
        "sides-supported"@,
        "sides-default"@,
        "operations-supported"@,
        "document-format-supported"@,
        "document-format-default"@,
        "printer-info"@,
        "printer-location"@,
        "printer-more-info"@,
        "queued-job-count"@,
        "printer-icons"@,
        "printer-device-id"@,
        "printer-supply-info-uri"@,
        "device-uri"@,
        "printer-alert"@,
        "printer-alert-description"@,
    ]
}

/// The real printer's attributes that the virtual printer passes on.
pub open spec fn passed_on(attrs: Seq<AttrView>) -> Seq<AttrView> {
    attrs.filter(|a: AttrView| !overridden().contains(a.name))
}

/// Those that it passes on under the same name and with the same value.
pub open spec fn unchanged(attrs: Seq<AttrView>) -> Seq<AttrView> {
    passed_on(attrs).filter(|a: AttrView| a.name != "printer-make-and-model"@)
}

/// The make and model of the real printer.
pub open spec fn make_of(attrs: Seq<AttrView>) -> Seq<char> {
    text_or(first_named(passed_on(attrs), "printer-make-and-model"@), "printer"@)
}

/// Whether the real printer says that it accepts jobs; it does unless it denies it.
pub open spec fn accepts(attrs: Seq<AttrView>) -> bool {
    match first_named(attrs, "printer-is-accepting-jobs"@) {
        Some(a) => a.values.len() == 0 || a.values[0].1 != seq![0u8],
        None => true,
    }
}

/// The state that the real printer reports, where it is one of idle, processing
/// and stopped.
pub open spec fn reported_state(attrs: Seq<AttrView>) -> Option<i32> {
    match number_of(first_named(attrs, "printer-state"@)) {
        Some(s) => if 3 <= s <= 5 {
            Some(s)
        } else {
            None
        },
        None => None,
    }
}

/// The state of a printer that has these jobs: processing or idle.
pub open spec fn busy_state(jobs: Seq<JobView>) -> i32 {
    if any_in_state(jobs, J_PROCESSING) {
        4
    } else {
        3
    }
}

/// The state, the reasons and the message that the virtual printer shows. A job
/// that waits for the flip comes first, then a printer that cannot be reached;
/// otherwise the real printer is mirrored. Where it reports no state, the jobs
/// decide between processing and idle.
pub open spec fn shown_state(attrs: Seq<AttrView>, jobs: Seq<JobView>, online: bool) -> (
    i32,
    AttrView,
    AttrView,
) {
    if any_in_state(jobs, J_STOPPED) {
        (
            5,
            str_attr(T_KEYWORD, "printer-state-reasons"@, "media-needed"@),
            str_attr(
                T_TEXT,
                "printer-state-message"@,
                "odd pages printed - flip the stack and confirm"@,
            ),
        )
    } else if !online {
        (
            5,
            str_attr(T_KEYWORD, "printer-state-reasons"@, "offline-report"@),
            str_attr(T_TEXT, "printer-state-message"@, "real printer is unreachable"@),
        )
    } else {
        (
            match reported_state(attrs) {
                Some(s) => s,
                None => busy_state(jobs),
            },
            match first_named(attrs, "printer-state-reasons"@) {
                Some(a) => a,
                None => str_attr(T_KEYWORD, "printer-state-reasons"@, "none"@),
            },
            match first_named(attrs, "printer-state-message"@) {
                Some(a) => a,
                None => str_attr(T_TEXT, "printer-state-message"@, ""@),
            },
        )
    }
}

/// How many jobs are not over.
pub open spec fn active_count(jobs: Seq<JobView>) -> nat {
    jobs.filter(|j: JobView| !is_done(j)).len()
}

/// The attributes that say which printer it is and how it is.
pub open spec fn statuses(
    attrs: Seq<AttrView>,
    jobs: Seq<JobView>,
    name: Seq<char>,
    port: u16,
    online: bool,
) -> Seq<AttrView> {
    let (state, reasons, message) = shown_state(attrs, jobs, online);
    seq![
        str_attr(T_URI, "printer-uri-supported"@, self_uri_text(port)),
        str_attr(T_KEYWORD, "uri-security-supported"@, "none"@),
        str_attr(T_KEYWORD, "uri-authentication-supported"@, "none"@),
        str_attr(T_NAME, "printer-name"@, name),
        str_attr(T_URI, "printer-uuid"@, uuid_of(name_hash(name))),
        int_attr(T_ENUM, "printer-state"@, state),
        reasons,
        message,
        boolean_attr("printer-is-accepting-jobs"@, accepts(attrs) || !online),
        int_attr(
            T_INTEGER,
            "queued-job-count"@,
            signed(active_count(jobs) % 0x1_0000_0000),
        ),
    ]
}

/// The attributes that say what the virtual printer can do.
pub open spec fn abilities() -> Seq<AttrView> {
    seq![
        strs_attr(
            T_KEYWORD,
            "sides-supported"@,
            seq!["one-sided"@, "two-sided-long-edge"@, "two-sided-short-edge"@],
        ),
        str_attr(T_KEYWORD, "sides-default"@, "two-sided-long-edge"@),
        ints_attr(
            T_ENUM,
            "operations-supported"@,
            seq![
                OP_PRINT_JOB as i32,
                OP_VALIDATE_JOB as i32,
                OP_CREATE_JOB as i32,
                OP_SEND_DOCUMENT as i32,
                OP_CANCEL_JOB as i32,
                OP_GET_JOB_ATTRS as i32,
                OP_GET_JOBS as i32,
                OP_GET_PRINTER_ATTRS as i32,
            ],
        ),
        strs_attr(
            T_MIME,
            "document-format-supported"@,
            seq!["application/pdf"@, "application/octet-stream"@],
        ),
        str_attr(T_MIME, "document-format-default"@, "application/pdf"@),
    ]
}

/// The attributes that describe the virtual printer in words.
pub open spec fn descriptions(make: Seq<char>) -> Seq<AttrView> {
    seq![
        str_attr(T_TEXT, "printer-make-and-model"@, make + " + manual duplex"@),
        str_attr(T_TEXT, "printer-info"@, "Manual duplex on "@ + make),
        str_attr(T_TEXT, "printer-location"@, "localhost"@),
    ]
}

/// The attributes that the virtual printer adds.
pub open spec fn own_attrs(
    attrs: Seq<AttrView>,
    jobs: Seq<JobView>,
    name: Seq<char>,
    port: u16,
    online: bool,
) -> Seq<AttrView> {
    statuses(attrs, jobs, name, port, online) + abilities() + descriptions(make_of(attrs))
}

/// All attributes of the virtual printer.
pub open spec fn presented(
    attrs: Seq<AttrView>,
    jobs: Seq<JobView>,
    name: Seq<char>,
    port: u16,
    online: bool,
) -> Seq<AttrView> {
    unchanged(attrs) + own_attrs(attrs, jobs, name, port, online)
}

/// Whether an attribute is the virtual printer's own matter.
fn is_overridden(name: &str) -> (r: bool)
    ensures
        r == overridden().contains(name@),
{
    let names: [&str; 24] = [
        "printer-uri-supported",
        "uri-security-supported",
        "uri-authentication-supported",
        "printer-name",
        "printer-uuid",
        "printer-state",
        "printer-state-reasons",
        "printer-state-message",
        "printer-is-accepting-jobs",
        "sides-supported",
        "sides-default",
        "operations-supported",
        "document-format-supported",
        "document-format-default",
        "printer-info",
        "printer-location",
        "printer-more-info",
        "queued-job-count",
        "printer-icons",
        "printer-device-id",
        "printer-supply-info-uri",
        "device-uri",
        "printer-alert",
        "printer-alert-description",
    ];
    assert(names@.map_values(|s: &str| s@) =~= overridden());
    in_list(name, &names)
}

/// The real printer's attributes that the virtual printer passes on.
fn pass_on(attrs: &Vec<Attr>) -> (r: Vec<Attr>)
    ensures
        attr_views(r@) == passed_on(attr_views(attrs@)),
{
    let ghost all = attr_views(attrs@);
    let ghost keep = |a: AttrView| !overridden().contains(a.name);
    let mut out: Vec<Attr> = Vec::new();
    let mut i: usize = 0;
    reveal(Seq::filter);
    assert(attr_views(out@) =~= all.take(0).filter(keep));
    while i < attrs.len()
        invariant
            i <= attrs@.len(),
            all == attr_views(attrs@),
            keep == (|a: AttrView| !overridden().contains(a.name)),
            attr_views(out@) == all.take(i as int).filter(keep),
        decreases attrs@.len() - i,
    {
        let ghost before = attr_views(out@);
        reveal(Seq::filter);
        assert(all.take(i + 1).drop_last() =~= all.take(i as int));
        assert(all.take(i + 1).last() == attrs@[i as int]@);
        if !is_overridden(attrs[i].name.as_str()) {
            out.push(attrs[i].clone());
            assert(attr_views(out@) =~= before.push(all[i as int]));
        }
        i += 1;
    }
    assert(all.take(i as int) =~= all);
    out
}

/// The attributes but those that name the make and model.
fn without_make(attrs: &Vec<Attr>) -> (r: Vec<Attr>)
    ensures
        attr_views(r@) == attr_views(attrs@).filter(
            |a: AttrView| a.name != "printer-make-and-model"@,
        ),
{
    let ghost all = attr_views(attrs@);
    let ghost keep = |a: AttrView| a.name != "printer-make-and-model"@;
    let mut out: Vec<Attr> = Vec::new();
    let mut i: usize = 0;
    reveal(Seq::filter);
    assert(attr_views(out@) =~= all.take(0).filter(keep));
    while i < attrs.len()
        invariant
            i <= attrs@.len(),
            all == attr_views(attrs@),
            keep == (|a: AttrView| a.name != "printer-make-and-model"@),
            attr_views(out@) == all.take(i as int).filter(keep),
        decreases attrs@.len() - i,
    {
        let ghost before = attr_views(out@);
        reveal(Seq::filter);
        assert(all.take(i + 1).drop_last() =~= all.take(i as int));
        assert(all.take(i + 1).last() == attrs@[i as int]@);
        if !same(attrs[i].name.as_str(), "printer-make-and-model") {
            out.push(attrs[i].clone());
            assert(attr_views(out@) =~= before.push(all[i as int]));
        }
        i += 1;
    }
    assert(all.take(i as int) =~= all);
    out
}

/// Whether the real printer says that it accepts jobs.
fn accepting(attrs: &Vec<Attr>) -> (r: bool)
    ensures
        r == accepts(attr_views(attrs@)),
{
    match find_attr(attrs, "printer-is-accepting-jobs") {
        Some(a) => {
            if a.values.len() == 0 {
                true
            } else {
                assert(a@.values[0] == value_view(a.values@[0]));
                let zero: [u8; 1] = [0];
                assert(zero@ =~= seq![0u8]);
                !same_bytes(&a.values[0].1, &zero)
            }
        },
        None => true,
    }
}

/// How many jobs are not over, as the number that the attribute carries.
fn queued(sp: &Spooler) -> (r: i32)
    ensures
        r == signed(active_count(sp@.jobs) % 0x1_0000_0000),
{
    let ghost all = sp@.jobs;
    let ghost active = |j: JobView| !is_done(j);
    let jobs = sp.list();
    let mut n: u64 = 0;
    let mut i: usize = 0;
    reveal(Seq::filter);
    assert(all.take(0).filter(active).len() == 0);
    while i < jobs.len()
        invariant
            i <= jobs@.len(),
            all == looked_up(jobs@),
            active == (|j: JobView| !is_done(j)),
            n == all.take(i as int).filter(active).len(),
            n <= i,
        decreases jobs@.len() - i,
    {
        reveal(Seq::filter);
        assert(all.take(i + 1).drop_last() =~= all.take(i as int));
        assert(all.take(i + 1).last() == jobs@[i as int]@);
        if jobs[i].state < J_CANCELED {
            n += 1;
        }
        i += 1;
    }
    assert(all.take(i as int) =~= all);
    let low: i64 = (n % 0x1_0000_0000) as i64;
    if low < 0x8000_0000 {
        low as i32
    } else {
        (low - 0x1_0000_0000) as i32
    }
}

/// The state, the reasons and the message that the virtual printer shows.
fn show_state(sp: &Spooler, attrs: &Vec<Attr>, online: bool) -> (r: (i32, Attr, Attr))
    ensures
        (r.0, r.1@, r.2@) == shown_state(attr_views(attrs@), sp@.jobs, online),
{
    if sp.any_in(J_STOPPED) {
        (
            5,
            Attr::str(T_KEYWORD, "printer-state-reasons", "media-needed"),
            Attr::str(
                T_TEXT,
                "printer-state-message",
                "odd pages printed - flip the stack and confirm",
            ),
        )
    } else if !online {
        (
            5,
            Attr::str(T_KEYWORD, "printer-state-reasons", "offline-report"),
            Attr::str(T_TEXT, "printer-state-message", "real printer is unreachable"),
        )
    } else {
        let reported = match attr_number(find_attr(attrs, "printer-state")) {
            Some(s) => if 3 <= s && s <= 5 {
                Some(s)
            } else {
                None
            },
            None => None,
        };
        let state = match reported {
            Some(s) => s,
            None => if sp.any_in(J_PROCESSING) {
                4
            } else {
                3
            },
        };
        let reasons = match find_attr(attrs, "printer-state-reasons") {
            Some(a) => a.clone(),
            None => Attr::str(T_KEYWORD, "printer-state-reasons", "none"),
        };
        let message = match find_attr(attrs, "printer-state-message") {
            Some(a) => a.clone(),
            None => Attr::str(T_TEXT, "printer-state-message", ""),
        };
        (state, reasons, message)
    }
}

/// The attributes that say what the virtual printer can do.
fn ability_attrs() -> (r: Vec<Attr>)
    ensures
        attr_views(r@) == abilities(),
{
    let sides: [&str; 3] = ["one-sided", "two-sided-long-edge", "two-sided-short-edge"];
    let formats: [&str; 2] = ["application/pdf", "application/octet-stream"];
    let operations: [i32; 8] = [
        OP_PRINT_JOB as i32,
        OP_VALIDATE_JOB as i32,
        OP_CREATE_JOB as i32,
        OP_SEND_DOCUMENT as i32,
        OP_CANCEL_JOB as i32,
        OP_GET_JOB_ATTRS as i32,
        OP_GET_JOBS as i32,
        OP_GET_PRINTER_ATTRS as i32,
    ];
    proof {
        assert(sides@.map_values(|v: &str| v@) =~= seq![
            "one-sided"@,
            "two-sided-long-edge"@,
            "two-sided-short-edge"@,
        ]);
        assert(formats@.map_values(|v: &str| v@) =~= seq![
            "application/pdf"@,
            "application/octet-stream"@,
        ]);
        assert(operations@ =~= seq![
            OP_PRINT_JOB as i32,
            OP_VALIDATE_JOB as i32,
            OP_CREATE_JOB as i32,
            OP_SEND_DOCUMENT as i32,
            OP_CANCEL_JOB as i32,
            OP_GET_JOB_ATTRS as i32,
            OP_GET_JOBS as i32,
            OP_GET_PRINTER_ATTRS as i32,
        ]);
    }
    let mut attrs: Vec<Attr> = Vec::new();
    attrs.push(Attr::strs(T_KEYWORD, "sides-supported", &sides));
    attrs.push(Attr::str(T_KEYWORD, "sides-default", "two-sided-long-edge"));
    attrs.push(Attr::ints(T_ENUM, "operations-supported", &operations));
    attrs.push(Attr::strs(T_MIME, "document-format-supported", &formats));
    attrs.push(Attr::str(T_MIME, "document-format-default", "application/pdf"));
    assert(attr_views(attrs@) =~= abilities());
    attrs
}

/// The attributes that describe the virtual printer in words.
fn description_attrs(make: &str) -> (r: Vec<Attr>)
    ensures
        attr_views(r@) == descriptions(make@),
{
    let mut model = make.to_owned();
    model.append(" + manual duplex");
    let mut info = "Manual duplex on ".to_owned();
    info.append(make);
    let mut attrs: Vec<Attr> = Vec::new();
    attrs.push(Attr::str(T_TEXT, "printer-make-and-model", model.as_str()));
    attrs.push(Attr::str(T_TEXT, "printer-info", info.as_str()));
    attrs.push(Attr::str(T_TEXT, "printer-location", "localhost"));
    assert(attr_views(attrs@) =~= descriptions(make@));
    attrs
}

/// The attributes that say which printer it is and how it is.
fn status_attrs(sp: &Spooler, name: &str, port: u16, given: &Vec<Attr>, online: bool) -> (r: Vec<
    Attr,
>)
    ensures
        attr_views(r@) == statuses(attr_views(given@), sp@.jobs, name@, port, online),
{
    let (state, reasons, message) = show_state(sp, given, online);
    let accepts_jobs = accepting(given) || !online;
    let uri = self_uri(port);
    let uuid = printer_uuid(name);
    let mut attrs: Vec<Attr> = Vec::new();
    attrs.push(Attr::str(T_URI, "printer-uri-supported", uri.as_str()));
    attrs.push(Attr::str(T_KEYWORD, "uri-security-supported", "none"));
    attrs.push(Attr::str(T_KEYWORD, "uri-authentication-supported", "none"));
    attrs.push(Attr::str(T_NAME, "printer-name", name));
    attrs.push(Attr::str(T_URI, "printer-uuid", uuid.as_str()));
    attrs.push(Attr::integer(T_ENUM, "printer-state", state));
    attrs.push(reasons);
    attrs.push(message);
    attrs.push(Attr::boolean("printer-is-accepting-jobs", accepts_jobs));
    attrs.push(Attr::integer(T_INTEGER, "queued-job-count", queued(sp)));
    assert(attr_views(attrs@) =~= statuses(attr_views(given@), sp@.jobs, name@, port, online));
    attrs
}

/// Turns the real printer's attributes into those of the virtual printer.
pub fn apply_overrides(
    sp: &Spooler,
    name: &str,
    port: u16,
    attrs: &mut Vec<Attr>,
    online: bool,
)
    ensures
        attr_views(final(attrs)@) == presented(
            attr_views(old(attrs)@),
            sp@.jobs,
            name@,
            port,
            online,
        ),
{
    let ghost given = attr_views(attrs@);
    let kept = pass_on(attrs);
    let make = attr_text(find_attr(&kept, "printer-make-and-model"), "printer");
    let mut out = without_make(&kept);
    let mut status = status_attrs(sp, name, port, attrs, online);
    let mut ability = ability_attrs();
    let mut description = description_attrs(make.as_str());
    let ghost parts = (out@, status@, ability@, description@);
    out.append(&mut status);
    out.append(&mut ability);
    out.append(&mut description);
    assert(attr_views(out@) =~= attr_views(parts.0) + (attr_views(parts.1) + attr_views(parts.2)
        + attr_views(parts.3)));
    *attrs = out;
}

/// Get-Printer-Attributes: the answer, given what the real printer said of
/// itself, or that it said nothing.
pub open spec fn printer_answer(
    sp: SpoolerView,
    name: Seq<char>,
    port: u16,
    request_id: u32,
    proxied: Option<Seq<AttrView>>,
) -> MsgView {
    with_group(
        response_msg(OK, request_id),
        GroupView {
            tag: G_PRINTER,
            attrs: match proxied {
                Some(attrs) => presented(attrs, sp.jobs, name, port, true),
                None => presented(fallback_attrs(), sp.jobs, name, port, false),
            },
        },
    )
}

/// Get-Printer-Attributes: the answer, given what the real printer said of
/// itself, or that it said nothing.
pub fn op_get_printer_attrs(
    sp: &Spooler,
    name: &str,
    port: u16,
    request_id: u32,
    proxied: Option<Vec<Attr>>,
) -> (r: Msg)
    ensures
        r@ == printer_answer(sp@, name@, port, request_id, pending_view(proxied)),
{
    let online = proxied.is_some();
    let mut attrs = match proxied {
        Some(attrs) => attrs,
        None => fallback_printer_attrs(),
    };
    apply_overrides(sp, name, port, &mut attrs, online);
    let mut resp = Msg::response(OK, request_id);
    resp.add_group(G_PRINTER, attrs);
    resp
}

// ------------------------------------------------------------------ proxy

/// The request for all attributes of the printer at `uri`.
pub open spec fn attrs_query(uri: Seq<char>) -> MsgView {
    with_group(
        new_msg(OP_GET_PRINTER_ATTRS, 1),
        GroupView {
            tag: G_OPERATION,
            attrs: preamble() + seq![
                str_attr(T_URI, "printer-uri"@, uri),
                str_attr(T_KEYWORD, "requested-attributes"@, "all"@),
            ],
        },
    )
}

/// The request for all attributes of the printer at `uri`.
pub fn printer_attrs_request(uri: &str) -> (r: Msg)
    ensures
        r@ == attrs_query(uri@),
{
    let mut attrs = preamble_attrs();
    attrs.push(Attr::str(T_URI, "printer-uri", uri));
    attrs.push(Attr::str(T_KEYWORD, "requested-attributes", "all"));
    assert(attr_views(attrs@) =~= preamble() + seq![
        str_attr(T_URI, "printer-uri"@, uri@),
        str_attr(T_KEYWORD, "requested-attributes"@, "all"@),
    ]);
    let mut req = Msg::new(OP_GET_PRINTER_ATTRS, 1);
    req.add_group(G_OPERATION, attrs);
    req
}

/// What the real printer said of itself: the attributes of all printer groups
/// of its reply. A reply without any says nothing, and so does none at all.
pub open spec fn said(reply: Result<MsgView, Seq<char>>) -> Option<Seq<AttrView>> {
    match reply {
        Ok(resp) => {
            let attrs = attrs_in(resp.groups, G_PRINTER);
            if attrs.len() == 0 {
                None
            } else {
                Some(attrs)
            }
        },
        Err(_) => None,
    }
}

/// How many seconds what the real printer said is used again: 30, or 5 where it
/// said nothing, so that an unreachable printer does not stall every query.
pub open spec fn lifetime(result: Option<Seq<AttrView>>) -> u64 {
    if result is Some {
        30
    } else {
        5
    }
}

/// What is kept of the real printer's reply.
pub open spec fn remembered(reply: Result<MsgView, Seq<char>>) -> Option<Option<Seq<AttrView>>> {
    Some(said(reply))
}

/// What is used again of what the real printer said `age` full seconds ago.
pub open spec fn still_recent(last: Option<Option<Seq<AttrView>>>, age: u64) -> Option<
    Option<Seq<AttrView>>,
> {
    match last {
        Some(result) => if age < lifetime(result) {
            Some(result)
        } else {
            None
        },
        None => None,
    }
}

/// What the real printer said last.
#[derive(Debug)]
pub struct AttrCache {
    pub last: Option<Option<Vec<Attr>>>,
}

impl View for AttrCache {
    type V = Option<Option<Seq<AttrView>>>;

    open spec fn view(&self) -> Option<Option<Seq<AttrView>>> {
        cached_view(self.last)
    }
}

/// What was found in the cache as a mathematical value.
pub open spec fn cached_view(c: Option<Option<Vec<Attr>>>) -> Option<Option<Seq<AttrView>>> {
    match c {
        Some(result) => Some(pending_view(result)),
        None => None,
    }
}

/// A copy of optional attributes.
fn copy_result(result: &Option<Vec<Attr>>) -> (r: Option<Vec<Attr>>)
    ensures
        pending_view(r) == pending_view(*result),
{
    match result {
        Some(attrs) => Some(clone_attrs(attrs)),
        None => None,
    }
}

impl AttrCache {
    /// A cache that holds nothing yet.
    pub fn new() -> (r: AttrCache)
        ensures
            r@ == None::<Option<Seq<AttrView>>>,
    {
        AttrCache { last: None }
    }

    /// What the real printer said `age` full seconds ago, while that is recent
    /// enough.
    pub fn recent(&self, age: u64) -> (r: Option<Option<Vec<Attr>>>)
        ensures
            cached_view(r) == still_recent(self@, age),
            cached_view(r) == (match self@ {
                Some(result) => if age < lifetime(result) {
                    Some(result)
                } else {
                    None
                },
                None => None,
            }),
    {
        match &self.last {
            Some(result) => {
                let limit: u64 = if result.is_some() {
                    30
                } else {
                    5
                };
                if age < limit {
                    Some(copy_result(result))
                } else {
                    None
                }
            },
            None => None,
        }
    }

    /// Takes the real printer's reply to `printer_attrs_request`, remembers what
    /// it said, and returns that.
    pub fn proxied_printer_attrs(&mut self, reply: Result<Msg, String>) -> (r: Option<Vec<Attr>>)
        ensures
            pending_view(r) == said(msg_result(reply)),
            final(self)@ == Some(said(msg_result(reply))),
            final(self)@ == remembered(msg_result(reply)),
    {
        let result = match reply {
            Ok(resp) => {
                let attrs = resp.attrs_of(G_PRINTER);
                assert(attr_views(attrs@).len() == attrs@.len());
                if attrs.len() == 0 {
                    None
                } else {
                    Some(attrs)
                }
            },
            Err(_) => None,
        };
        self.last = Some(copy_result(&result));
        result
    }
}

// ------------------------------------------------------------------- laws

/// The names of the attributes that the virtual printer adds, in their order.
pub open spec fn own_names() -> Seq<Seq<char>> {
    seq![
        "printer-uri-supported"@,
        "uri-security-supported"@,
        "uri-authentication-supported"@,
        "printer-name"@,
        "printer-uuid"@,
        "printer-state"@,
        "printer-state-reasons"@,
        "printer-state-message"@,
        "printer-is-accepting-jobs"@,
        "queued-job-count"@,
        "sides-supported"@,
        "sides-default"@,
        "operations-supported"@,
        "document-format-supported"@,
        "document-format-default"@,
        "printer-make-and-model"@,
        "printer-info"@,
        "printer-location"@,
    ]
}

#[verifier::spinoff_prover]
#[verifier::rlimit(40)]
proof fn lemma_statuses(
    attrs: Seq<AttrView>,
    jobs: Seq<JobView>,
    name: Seq<char>,
    port: u16,
    online: bool,
)
    ensures
        ({
            let s = statuses(attrs, jobs, name, port, online);
            let shown = shown_state(attrs, jobs, online);
            &&& s.len() == 10
            &&& s[5] == int_attr(T_ENUM, "printer-state"@, shown.0)
            &&& s[6] == shown.1
            &&& s[7] == shown.2
            &&& s[8] == boolean_attr("printer-is-accepting-jobs"@, accepts(attrs) || !online)
            &&& forall|i: int| 0 <= i < 10 ==> (#[trigger] s[i]).name == own_names()[i]
        }),
{
    lemma_first_named_name(attrs, "printer-state-reasons"@);
    lemma_first_named_name(attrs, "printer-state-message"@);
    let s = statuses(attrs, jobs, name, port, online);
    let names = own_names();
    assert(s[0].name == names[0]);
    assert(s[1].name == names[1]);
    assert(s[2].name == names[2]);
    assert(s[3].name == names[3]);
    assert(s[4].name == names[4]);
    assert(s[5].name == names[5]);
    assert(s[6].name == names[6]);
    assert(s[7].name == names[7]);
    assert(s[8].name == names[8]);
    assert(s[9].name == names[9]);
}

proof fn lemma_abilities()
    ensures
        abilities().len() == 5,
        forall|i: int| 0 <= i < 5 ==> (#[trigger] abilities()[i]).name == own_names()[i + 10],
{
}

proof fn lemma_descriptions(make: Seq<char>)
    ensures
        descriptions(make).len() == 3,
        forall|i: int|
            0 <= i < 3 ==> (#[trigger] descriptions(make)[i]).name == own_names()[i + 15],
{
}

/// The attributes that the virtual printer adds, with their three parts given.
proof fn lemma_parts(s: Seq<AttrView>, a: Seq<AttrView>, d: Seq<AttrView>, names: Seq<Seq<char>>)
    requires
        s.len() == 10,
        a.len() == 5,
        d.len() == 3,
        forall|i: int| 0 <= i < 10 ==> (#[trigger] s[i]).name == names[i],
        forall|i: int| 0 <= i < 5 ==> (#[trigger] a[i]).name == names[i + 10],
        forall|i: int| 0 <= i < 3 ==> (#[trigger] d[i]).name == names[i + 15],
    ensures
        (s + a + d).len() == 18,
        forall|i: int| 0 <= i < 10 ==> #[trigger] (s + a + d)[i] == s[i],
        forall|i: int| 0 <= i < 18 ==> (#[trigger] (s + a + d)[i]).name == names[i],
{
    let own = s + a + d;
    assert forall|i: int| 0 <= i < 18 implies (#[trigger] own[i]).name == names[i] by {
        if i < 10 {
            assert(own[i] == s[i]);
        } else if i < 15 {
            assert(own[i] == a[i - 10]);
        } else {
            assert(own[i] == d[i - 15]);
        }
    }
}

proof fn lemma_own_names(
    attrs: Seq<AttrView>,
    jobs: Seq<JobView>,
    name: Seq<char>,
    port: u16,
    online: bool,
)
    ensures
        own_names().len() == 18,
        own_attrs(attrs, jobs, name, port, online).len() == 18,
        forall|i: int|
            0 <= i < 10 ==> #[trigger] own_attrs(attrs, jobs, name, port, online)[i] == statuses(
                attrs,
                jobs,
                name,
                port,
                online,
            )[i],
        forall|i: int|
            0 <= i < 18 ==> (#[trigger] own_attrs(attrs, jobs, name, port, online)[i]).name
                == own_names()[i],
{
    lemma_statuses(attrs, jobs, name, port, online);
    lemma_abilities();
    lemma_descriptions(make_of(attrs));
    lemma_parts(
        statuses(attrs, jobs, name, port, online),
        abilities(),
        descriptions(make_of(attrs)),
        own_names(),
    );
}

#[verifier::spinoff_prover]
#[verifier::rlimit(40)]
proof fn lemma_status_found(
    attrs: Seq<AttrView>,
    jobs: Seq<JobView>,
    name: Seq<char>,
    port: u16,
    online: bool,
    i: int,
)
    requires
        0 <= i < 10,
    ensures
        first_named(presented(attrs, jobs, name, port, online), own_names()[i]) == Some(
            statuses(attrs, jobs, name, port, online)[i],
        ),
{
    law_own_attributes_found(attrs, jobs, name, port, online, i);
    lemma_own_names(attrs, jobs, name, port, online);
    assert(own_attrs(attrs, jobs, name, port, online)[i] == statuses(
        attrs,
        jobs,
        name,
        port,
        online,
    )[i]);
}

/// What a client finds of the virtual printer's state.
#[verifier::spinoff_prover]
#[verifier::rlimit(40)]
proof fn lemma_state_found(
    attrs: Seq<AttrView>,
    jobs: Seq<JobView>,
    name: Seq<char>,
    port: u16,
    online: bool,
)
    ensures
        ({
            let all = presented(attrs, jobs, name, port, online);
            let shown = shown_state(attrs, jobs, online);
            &&& first_named(all, "printer-state"@) == Some(
                int_attr(T_ENUM, "printer-state"@, shown.0),
            )
            &&& first_named(all, "printer-state-reasons"@) == Some(shown.1)
            &&& first_named(all, "printer-state-message"@) == Some(shown.2)
            &&& first_named(all, "printer-is-accepting-jobs"@) == Some(
                boolean_attr("printer-is-accepting-jobs"@, accepts(attrs) || !online),
            )
        }),
{
    lemma_status_found(attrs, jobs, name, port, online, 5);
    lemma_status_found(attrs, jobs, name, port, online, 6);
    lemma_status_found(attrs, jobs, name, port, online, 7);
    lemma_status_found(attrs, jobs, name, port, online, 8);
    lemma_statuses(attrs, jobs, name, port, online);
}

proof fn lemma_boolean_accepts(attrs: Seq<AttrView>, v: bool)
    requires
        first_named(attrs, "printer-is-accepting-jobs"@) == Some(
            boolean_attr("printer-is-accepting-jobs"@, v),
        ),
    ensures
        accepts(attrs) == v,
{
    assert(seq![1u8][0] != seq![0u8][0]);
}

proof fn lemma_own_names_distinct()
    ensures
        forall|i: int, j: int|
            0 <= i < j < own_names().len() ==> #[trigger] own_names()[i] != #[trigger] own_names()[j],
{
    reveal_strlit("printer-uri-supported");
    reveal_strlit("uri-security-supported");
    reveal_strlit("uri-authentication-supported");
    reveal_strlit("printer-name");
    reveal_strlit("printer-uuid");
    reveal_strlit("printer-state");
    reveal_strlit("printer-state-reasons");
    reveal_strlit("printer-state-message");
    reveal_strlit("printer-is-accepting-jobs");
    reveal_strlit("queued-job-count");
    reveal_strlit("sides-supported");
    reveal_strlit("sides-default");
    reveal_strlit("operations-supported");
    reveal_strlit("document-format-supported");
    reveal_strlit("document-format-default");
    reveal_strlit("printer-make-and-model");
    reveal_strlit("printer-info");
    reveal_strlit("printer-location");
    let names = own_names();
    // what tells apart the names of one length
    let mark = |s: Seq<char>| (s.len(), s[0], s[s.len() - 1]);
    assert(forall|i: int, j: int| 0 <= i < j < names.len() ==> mark(names[i]) != mark(names[j]));
    assert forall|i: int, j: int| 0 <= i < j < names.len() implies #[trigger] names[i]
        != #[trigger] names[j] by {
        assert(mark(names[i]) != mark(names[j]));
    }
}

proof fn lemma_own_names_overridden()
    ensures
        forall|i: int|
            0 <= i < own_names().len() ==> overridden().contains(#[trigger] own_names()[i])
                || own_names()[i] == "printer-make-and-model"@,
{
    let o = overridden();
    assert(o[0] == "printer-uri-supported"@);
    assert(o[1] == "uri-security-supported"@);
    assert(o[2] == "uri-authentication-supported"@);
    assert(o[3] == "printer-name"@);
    assert(o[4] == "printer-uuid"@);
    assert(o[5] == "printer-state"@);
    assert(o[6] == "printer-state-reasons"@);
    assert(o[7] == "printer-state-message"@);
    assert(o[8] == "printer-is-accepting-jobs"@);
    assert(o[9] == "sides-supported"@);
    assert(o[10] == "sides-default"@);
    assert(o[11] == "operations-supported"@);
    assert(o[12] == "document-format-supported"@);
    assert(o[13] == "document-format-default"@);
    assert(o[14] == "printer-info"@);
    assert(o[15] == "printer-location"@);
    assert(o[17] == "queued-job-count"@);
}

proof fn lemma_unchanged_names(attrs: Seq<AttrView>)
    ensures
        forall|i: int|
            0 <= i < unchanged(attrs).len() ==> !overridden().contains(
                (#[trigger] unchanged(attrs)[i]).name,
            ) && unchanged(attrs)[i].name != "printer-make-and-model"@,
{
    let first = |a: AttrView| !overridden().contains(a.name);
    let second = |a: AttrView| a.name != "printer-make-and-model"@;
    let u = unchanged(attrs);
    assert forall|i: int| 0 <= i < u.len() implies !overridden().contains((#[trigger] u[i]).name)
        && u[i].name != "printer-make-and-model"@ by {
        passed_on(attrs).lemma_filter_pred(second, i);
        assert(u.contains(u[i]));
        passed_on(attrs).lemma_filter_contains_rev(second, u[i]);
        let k = choose|k: int| 0 <= k < passed_on(attrs).len() && passed_on(attrs)[k] == u[i];
        attrs.lemma_filter_pred(first, k);
    }
}

/// Whatever the real printer says of itself, a client finds the virtual
/// printer's own attributes under their names: identity, state and sides.
pub proof fn law_own_attributes_found(
    attrs: Seq<AttrView>,
    jobs: Seq<JobView>,
    name: Seq<char>,
    port: u16,
    online: bool,
    i: int,
)
    requires
        0 <= i < own_names().len(),
    ensures
        first_named(presented(attrs, jobs, name, port, online), own_names()[i]) == Some(
            own_attrs(attrs, jobs, name, port, online)[i],
        ),
{
    let own = own_attrs(attrs, jobs, name, port, online);
    let n = own_names()[i];
    lemma_own_names(attrs, jobs, name, port, online);
    lemma_own_names_distinct();
    lemma_own_names_overridden();
    lemma_unchanged_names(attrs);
    lemma_first_named_absent(unchanged(attrs), n);
    lemma_first_named_concat(unchanged(attrs), own, n);
    lemma_first_named_at(own, n, i);
}

/// What is neither the virtual printer's own matter nor the make and model is
/// found as the real printer has it: media sizes, resolutions, colour modes.
pub proof fn law_other_attributes_pass(
    attrs: Seq<AttrView>,
    jobs: Seq<JobView>,
    name: Seq<char>,
    port: u16,
    online: bool,
    wanted: Seq<char>,
)
    requires
        !overridden().contains(wanted),
        wanted != "printer-make-and-model"@,
    ensures
        first_named(presented(attrs, jobs, name, port, online), wanted) == first_named(
            attrs,
            wanted,
        ),
{
    let own = own_attrs(attrs, jobs, name, port, online);
    lemma_own_names(attrs, jobs, name, port, online);
    lemma_own_names_overridden();
    assert forall|j: int| 0 <= j < own.len() implies (#[trigger] own[j]).name != wanted by {
        assert(own[j].name == own_names()[j]);
    }
    lemma_first_named_absent(own, wanted);
    lemma_first_named_concat(unchanged(attrs), own, wanted);
    lemma_first_named_filter(attrs, |a: AttrView| !overridden().contains(a.name), wanted);
    lemma_first_named_filter(
        passed_on(attrs),
        |a: AttrView| a.name != "printer-make-and-model"@,
        wanted,
    );
}

/// What would give the real printer away and has no counterpart of the virtual
/// printer's own, such as its icons or its device URI, is not found.
pub proof fn law_hidden_attributes(
    attrs: Seq<AttrView>,
    jobs: Seq<JobView>,
    name: Seq<char>,
    port: u16,
    online: bool,
    wanted: Seq<char>,
)
    requires
        overridden().contains(wanted),
        !own_names().contains(wanted),
    ensures
        first_named(presented(attrs, jobs, name, port, online), wanted) is None,
{
    let own = own_attrs(attrs, jobs, name, port, online);
    lemma_own_names(attrs, jobs, name, port, online);
    lemma_unchanged_names(attrs);
    assert forall|j: int| 0 <= j < own.len() implies (#[trigger] own[j]).name != wanted by {
        assert(own[j].name == own_names()[j]);
    }
    lemma_first_named_absent(unchanged(attrs), wanted);
    lemma_first_named_absent(own, wanted);
    lemma_first_named_concat(unchanged(attrs), own, wanted);
}

/// While a job waits for the flip, the virtual printer is stopped and says that
/// it needs media, whether or not the real printer can be reached.
pub proof fn law_waiting_shows_media_needed(
    attrs: Seq<AttrView>,
    jobs: Seq<JobView>,
    name: Seq<char>,
    port: u16,
    online: bool,
)
    requires
        any_in_state(jobs, J_STOPPED),
    ensures
        ({
            let shown = presented(attrs, jobs, name, port, online);
            &&& number_of(first_named(shown, "printer-state"@)) == Some(5i32)
            &&& text_or(first_named(shown, "printer-state-reasons"@), ""@) == "media-needed"@
        }),
{
    lemma_state_found(attrs, jobs, name, port, online);
    law_int_reads_back(T_ENUM, "printer-state"@, 5);
    law_str_reads_back(T_KEYWORD, "printer-state-reasons"@, "media-needed"@);
}

/// While the real printer cannot be reached and no job waits for the flip, the
/// virtual printer is stopped and reports that it is offline; it accepts jobs
/// all the same.
pub proof fn law_unreachable_shows_offline(
    attrs: Seq<AttrView>,
    jobs: Seq<JobView>,
    name: Seq<char>,
    port: u16,
)
    requires
        !any_in_state(jobs, J_STOPPED),
    ensures
        ({
            let shown = presented(attrs, jobs, name, port, false);
            &&& number_of(first_named(shown, "printer-state"@)) == Some(5i32)
            &&& text_or(first_named(shown, "printer-state-reasons"@), ""@) == "offline-report"@
            &&& accepts(shown)
        }),
{
    lemma_state_found(attrs, jobs, name, port, false);
    law_int_reads_back(T_ENUM, "printer-state"@, 5);
    law_str_reads_back(T_KEYWORD, "printer-state-reasons"@, "offline-report"@);
    lemma_boolean_accepts(presented(attrs, jobs, name, port, false), true);
}

/// While the real printer can be reached and no job waits for the flip, a client
/// sees the state, the reasons, the message and the readiness to accept jobs that
/// the real printer reports, also while a job of the virtual printer is in
/// progress.
pub proof fn law_reachable_is_mirrored(
    attrs: Seq<AttrView>,
    jobs: Seq<JobView>,
    name: Seq<char>,
    port: u16,
)
    requires
        !any_in_state(jobs, J_STOPPED),
    ensures
        ({
            let shown = presented(attrs, jobs, name, port, true);
            &&& number_of(first_named(attrs, "printer-state"@)) matches Some(s) ==> (3 <= s <= 5
                ==> number_of(first_named(shown, "printer-state"@)) == Some(s))
            &&& first_named(attrs, "printer-state-reasons"@) matches Some(a) ==> first_named(
                shown,
                "printer-state-reasons"@,
            ) == Some(a)
            &&& first_named(attrs, "printer-state-message"@) matches Some(a) ==> first_named(
                shown,
                "printer-state-message"@,
            ) == Some(a)
            &&& accepts(shown) == accepts(attrs)
        }),
{
    lemma_state_found(attrs, jobs, name, port, true);
    if let Some(s) = reported_state(attrs) {
        law_int_reads_back(T_ENUM, "printer-state"@, s);
    }
    lemma_boolean_accepts(presented(attrs, jobs, name, port, true), accepts(attrs));
}

proof fn lemma_hex_bytes(b: Seq<u8>)
    ensures
        hex_bytes(b).len() == 2 * b.len(),
        forall|i: int| 0 <= i < hex_bytes(b).len() ==> is_hex(#[trigger] hex_bytes(b)[i]),
    decreases b.len(),
{
    if b.len() > 0 {
        lemma_hex_bytes(b.drop_last());
        let front = hex_bytes(b.drop_last());
        assert forall|i: int| 0 <= i < hex_bytes(b).len() implies is_hex(
            #[trigger] hex_bytes(b)[i],
        ) by {
            if i < front.len() {
                assert(hex_bytes(b)[i] == front[i]);
            } else {
                assert(hex_bytes(b)[i] == hex_byte(b.last())[i - front.len()]);
            }
        }
    }
}

/// A lower-case hexadecimal digit.
pub open spec fn is_hex(c: char) -> bool {
    '0' <= c <= '9' || 'a' <= c <= 'f'
}

/// The identifier of every printer name is a well-formed UUID: 36 characters
/// after the prefix, dashes in their places, the version digit 4, the variant
/// digit 8, and hexadecimal digits everywhere else.
pub proof fn law_uuid_is_well_formed(name: Seq<char>)
    ensures
        ({
            let uuid = uuid_of(name_hash(name));
            &&& "urn:uuid:"@.is_prefix_of(uuid)
            &&& uuid.len() == 45
            &&& uuid[23] == '4'
            &&& uuid[28] == '8'
            &&& forall|i: int|
                9 <= i < 45 ==> if i == 17 || i == 22 || i == 27 || i == 32 {
                    #[trigger] uuid[i] == '-'
                } else {
                    is_hex(uuid[i])
                }
        }),
{
    reveal_strlit("urn:uuid:");
    reveal_strlit("-");
    reveal_strlit("-4");
    reveal_strlit("-8");
    let b = name_hash(name);
    lemma_hex_bytes(b.subrange(0, 4));
    lemma_hex_bytes(b.subrange(4, 6));
    lemma_hex_bytes(b.subrange(7, 8));
    lemma_hex_bytes(b.subrange(9, 10));
    lemma_hex_bytes(b.subrange(10, 16));
    let uuid = uuid_of(b);
    assert("urn:uuid:"@ =~= uuid.subrange(0, 9));
    assert forall|i: int| 9 <= i < 45 implies if i == 17 || i == 22 || i == 27 || i == 32 {
        #[trigger] uuid[i] == '-'
    } else {
        is_hex(uuid[i])
    } by {
        if 9 <= i < 17 {
            assert(uuid[i] == hex_bytes(b.subrange(0, 4))[i - 9]);
        } else if 18 <= i < 22 {
            assert(uuid[i] == hex_bytes(b.subrange(4, 6))[i - 18]);
        } else if 25 <= i < 27 {
            assert(uuid[i] == hex_bytes(b.subrange(7, 8))[i - 25]);
        } else if 30 <= i < 32 {
            assert(uuid[i] == hex_bytes(b.subrange(9, 10))[i - 30]);
        } else if 33 <= i {
            assert(uuid[i] == hex_bytes(b.subrange(10, 16))[i - 33]);
        }
    }
}

/// The names that are spelled out in the laws are those that are listed.
proof fn lemma_overridden_names(wanted: Seq<char>)
    ensures
        wanted != "printer-uri-supported"@ && wanted != "uri-security-supported"@
            && wanted != "uri-authentication-supported"@ && wanted != "printer-name"@
            && wanted != "printer-uuid"@ && wanted != "printer-state"@
            && wanted != "printer-state-reasons"@ && wanted != "printer-state-message"@
            && wanted != "printer-is-accepting-jobs"@ && wanted != "sides-supported"@
            && wanted != "sides-default"@ && wanted != "operations-supported"@
            && wanted != "document-format-supported"@ && wanted != "document-format-default"@
            && wanted != "printer-info"@ && wanted != "printer-location"@
            && wanted != "printer-more-info"@ && wanted != "queued-job-count"@
            && wanted != "printer-icons"@ && wanted != "printer-device-id"@
            && wanted != "printer-supply-info-uri"@ && wanted != "device-uri"@
            && wanted != "printer-alert"@ && wanted != "printer-alert-description"@
            && wanted != "printer-make-and-model"@ ==> !overridden().contains(wanted),
        wanted == "printer-more-info"@ || wanted == "printer-icons"@
            || wanted == "printer-device-id"@ || wanted == "printer-supply-info-uri"@
            || wanted == "device-uri"@ || wanted == "printer-alert"@
            || wanted == "printer-alert-description"@ ==> overridden().contains(wanted),
{
    let o = overridden();
    assert(o[0] == "printer-uri-supported"@);
    assert(o[1] == "uri-security-supported"@);
    assert(o[2] == "uri-authentication-supported"@);
    assert(o[3] == "printer-name"@);
    assert(o[4] == "printer-uuid"@);
    assert(o[5] == "printer-state"@);
    assert(o[6] == "printer-state-reasons"@);
    assert(o[7] == "printer-state-message"@);
    assert(o[8] == "printer-is-accepting-jobs"@);
    assert(o[9] == "sides-supported"@);
    assert(o[10] == "sides-default"@);
    assert(o[11] == "operations-supported"@);
    assert(o[12] == "document-format-supported"@);
    assert(o[13] == "document-format-default"@);
    assert(o[14] == "printer-info"@);
    assert(o[15] == "printer-location"@);
    assert(o[16] == "printer-more-info"@);
    assert(o[17] == "queued-job-count"@);
    assert(o[18] == "printer-icons"@);
    assert(o[19] == "printer-device-id"@);
    assert(o[20] == "printer-supply-info-uri"@);
    assert(o[21] == "device-uri"@);
    assert(o[22] == "printer-alert"@);
    assert(o[23] == "printer-alert-description"@);
}

proof fn lemma_hidden_names(wanted: Seq<char>)
    requires
        wanted == "printer-more-info"@ || wanted == "printer-icons"@
            || wanted == "printer-device-id"@ || wanted == "printer-supply-info-uri"@
            || wanted == "device-uri"@ || wanted == "printer-alert"@
            || wanted == "printer-alert-description"@,
    ensures
        !own_names().contains(wanted),
{
    reveal_strlit("printer-uri-supported");
    reveal_strlit("uri-security-supported");
    reveal_strlit("uri-authentication-supported");
    reveal_strlit("printer-name");
    reveal_strlit("printer-uuid");
    reveal_strlit("printer-state");
    reveal_strlit("printer-state-reasons");
    reveal_strlit("printer-state-message");
    reveal_strlit("printer-is-accepting-jobs");
    reveal_strlit("queued-job-count");
    reveal_strlit("sides-supported");
    reveal_strlit("sides-default");
    reveal_strlit("operations-supported");
    reveal_strlit("document-format-supported");
    reveal_strlit("document-format-default");
    reveal_strlit("printer-make-and-model");
    reveal_strlit("printer-info");
    reveal_strlit("printer-location");
    reveal_strlit("printer-more-info");
    reveal_strlit("printer-icons");
    reveal_strlit("printer-device-id");
    reveal_strlit("printer-supply-info-uri");
    reveal_strlit("device-uri");
    reveal_strlit("printer-alert");
    reveal_strlit("printer-alert-description");
    let names = own_names();
    let mark = |s: Seq<char>| (s.len(), s[0], s[s.len() - 1]);
    assert forall|i: int| 0 <= i < names.len() implies names[i] != wanted by {
        assert(mark(names[i]) != mark(wanted));
    }
}

/// Whatever the real printer says of itself is shown as it says it, except under 25
/// names: of these the virtual printer has its own, or nothing at all.
pub proof fn law_only_some_attributes_are_replaced(
    attrs: Seq<AttrView>,
    jobs: Seq<JobView>,
    name: Seq<char>,
    port: u16,
    online: bool,
    wanted: Seq<char>,
)
    ensures
        wanted != "printer-uri-supported"@ && wanted != "uri-security-supported"@
            && wanted != "uri-authentication-supported"@ && wanted != "printer-name"@
            && wanted != "printer-uuid"@ && wanted != "printer-state"@
            && wanted != "printer-state-reasons"@ && wanted != "printer-state-message"@
            && wanted != "printer-is-accepting-jobs"@ && wanted != "sides-supported"@
            && wanted != "sides-default"@ && wanted != "operations-supported"@
            && wanted != "document-format-supported"@ && wanted != "document-format-default"@
            && wanted != "printer-info"@ && wanted != "printer-location"@
            && wanted != "printer-more-info"@ && wanted != "queued-job-count"@
            && wanted != "printer-icons"@ && wanted != "printer-device-id"@
            && wanted != "printer-supply-info-uri"@ && wanted != "device-uri"@
            && wanted != "printer-alert"@ && wanted != "printer-alert-description"@
            && wanted != "printer-make-and-model"@
            ==> first_named(presented(attrs, jobs, name, port, online), wanted)
            == first_named(attrs, wanted),
        wanted == "printer-more-info"@ || wanted == "printer-icons"@
            || wanted == "printer-device-id"@ || wanted == "printer-supply-info-uri"@
            || wanted == "device-uri"@ || wanted == "printer-alert"@
            || wanted == "printer-alert-description"@
            ==> first_named(presented(attrs, jobs, name, port, online), wanted) is None,
{
    lemma_overridden_names(wanted);
    if wanted != "printer-uri-supported"@ && wanted != "uri-security-supported"@
        && wanted != "uri-authentication-supported"@ && wanted != "printer-name"@
        && wanted != "printer-uuid"@ && wanted != "printer-state"@
        && wanted != "printer-state-reasons"@ && wanted != "printer-state-message"@
        && wanted != "printer-is-accepting-jobs"@ && wanted != "sides-supported"@
        && wanted != "sides-default"@ && wanted != "operations-supported"@
        && wanted != "document-format-supported"@ && wanted != "document-format-default"@
        && wanted != "printer-info"@ && wanted != "printer-location"@
        && wanted != "printer-more-info"@ && wanted != "queued-job-count"@
        && wanted != "printer-icons"@ && wanted != "printer-device-id"@
        && wanted != "printer-supply-info-uri"@ && wanted != "device-uri"@
        && wanted != "printer-alert"@ && wanted != "printer-alert-description"@
        && wanted != "printer-make-and-model"@ {
        law_other_attributes_pass(attrs, jobs, name, port, online, wanted);
    }
    if wanted == "printer-more-info"@ || wanted == "printer-icons"@
        || wanted == "printer-device-id"@ || wanted == "printer-supply-info-uri"@
        || wanted == "device-uri"@ || wanted == "printer-alert"@
        || wanted == "printer-alert-description"@ {
        lemma_hidden_names(wanted);
        law_hidden_attributes(attrs, jobs, name, port, online, wanted);
    }
}

/// The attributes that are shown as they are keep their order, each as often as the
/// real printer has it.
pub proof fn law_other_attributes_keep_their_order(attrs: Seq<AttrView>, a: AttrView)
    ensures
        unchanged(Seq::<AttrView>::empty()).len() == 0,
        a.name != "printer-uri-supported"@ && a.name != "uri-security-supported"@
            && a.name != "uri-authentication-supported"@ && a.name != "printer-name"@
            && a.name != "printer-uuid"@ && a.name != "printer-state"@
            && a.name != "printer-state-reasons"@ && a.name != "printer-state-message"@
            && a.name != "printer-is-accepting-jobs"@ && a.name != "sides-supported"@
            && a.name != "sides-default"@ && a.name != "operations-supported"@
            && a.name != "document-format-supported"@ && a.name != "document-format-default"@
            && a.name != "printer-info"@ && a.name != "printer-location"@
            && a.name != "printer-more-info"@ && a.name != "queued-job-count"@
            && a.name != "printer-icons"@ && a.name != "printer-device-id"@
            && a.name != "printer-supply-info-uri"@ && a.name != "device-uri"@
            && a.name != "printer-alert"@ && a.name != "printer-alert-description"@
            && a.name != "printer-make-and-model"@
            ==> unchanged(attrs.push(a)) == unchanged(attrs).push(a),
{
    reveal(Seq::filter);
    lemma_overridden_names(a.name);
    assert(attrs.push(a).drop_last() =~= attrs);
    assert(attrs.push(a).last() == a);
    if !overridden().contains(a.name) && a.name != "printer-make-and-model"@ {
        assert(passed_on(attrs.push(a)) =~= passed_on(attrs).push(a));
        assert(passed_on(attrs).push(a).drop_last() =~= passed_on(attrs));
        assert(passed_on(attrs).push(a).last() == a);
    }
}

#[verifier::spinoff_prover]
#[verifier::rlimit(40)]
proof fn lemma_ability_found(
    attrs: Seq<AttrView>,
    jobs: Seq<JobView>,
    name: Seq<char>,
    port: u16,
    online: bool,
    i: int,
)
    requires
        0 <= i < 5,
    ensures
        first_named(presented(attrs, jobs, name, port, online), own_names()[i + 10]) == Some(
            abilities()[i],
        ),
{
    law_own_attributes_found(attrs, jobs, name, port, online, i + 10);
    lemma_statuses(attrs, jobs, name, port, online);
    lemma_abilities();
    assert(own_attrs(attrs, jobs, name, port, online)[i + 10] == abilities()[i]);
}

#[verifier::spinoff_prover]
#[verifier::rlimit(40)]
proof fn lemma_description_found(
    attrs: Seq<AttrView>,
    jobs: Seq<JobView>,
    name: Seq<char>,
    port: u16,
    online: bool,
    i: int,
)
    requires
        0 <= i < 3,
    ensures
        first_named(presented(attrs, jobs, name, port, online), own_names()[i + 15]) == Some(
            descriptions(make_of(attrs))[i],
        ),
{
    law_own_attributes_found(attrs, jobs, name, port, online, i + 15);
    lemma_statuses(attrs, jobs, name, port, online);
    lemma_abilities();
    lemma_descriptions(make_of(attrs));
    assert(own_attrs(attrs, jobs, name, port, online)[i + 15] == descriptions(make_of(attrs))[i]);
}

/// The first value of what is shown under a name, as a text.
pub open spec fn shows(shown: Seq<AttrView>, wanted: Seq<char>, text: Seq<char>) -> bool {
    first_named(shown, wanted) matches Some(a) && a.values.len() == 1 && a.first_str() == Some(text)
}

/// The virtual printer shows who it is: its name, its address on this machine, and
/// an identifier of its own.
#[verifier::spinoff_prover]
#[verifier::rlimit(40)]
pub proof fn law_identity_is_shown(
    attrs: Seq<AttrView>,
    jobs: Seq<JobView>,
    name: Seq<char>,
    port: u16,
    online: bool,
)
    ensures
        ({
            let shown = presented(attrs, jobs, name, port, online);
            &&& shows(shown, "printer-name"@, name)
            &&& shows(
                shown,
                "printer-uri-supported"@,
                "ipp://127.0.0.1:"@ + decimal(port as nat) + "/ipp/print"@,
            )
            &&& shows(shown, "printer-uuid"@, uuid_of(name_hash(name)))
            &&& shows(shown, "uri-security-supported"@, "none"@)
            &&& shows(shown, "uri-authentication-supported"@, "none"@)
        }),
{
    let s = statuses(attrs, jobs, name, port, online);
    let n = own_names();
    lemma_status_found(attrs, jobs, name, port, online, 0);
    lemma_status_found(attrs, jobs, name, port, online, 1);
    lemma_status_found(attrs, jobs, name, port, online, 2);
    lemma_status_found(attrs, jobs, name, port, online, 3);
    lemma_status_found(attrs, jobs, name, port, online, 4);
    assert(n[0] == "printer-uri-supported"@ && n[1] == "uri-security-supported"@);
    assert(n[2] == "uri-authentication-supported"@ && n[3] == "printer-name"@);
    assert(n[4] == "printer-uuid"@);
    assert(s[0] == str_attr(T_URI, "printer-uri-supported"@, self_uri_text(port)));
    assert(s[1] == str_attr(T_KEYWORD, "uri-security-supported"@, "none"@));
    assert(s[2] == str_attr(T_KEYWORD, "uri-authentication-supported"@, "none"@));
    assert(s[3] == str_attr(T_NAME, "printer-name"@, name));
    assert(s[4] == str_attr(T_URI, "printer-uuid"@, uuid_of(name_hash(name))));
    law_str_reads_back(T_URI, "printer-uri-supported"@, self_uri_text(port));
    law_str_reads_back(T_KEYWORD, "uri-security-supported"@, "none"@);
    law_str_reads_back(T_KEYWORD, "uri-authentication-supported"@, "none"@);
    law_str_reads_back(T_NAME, "printer-name"@, name);
    law_str_reads_back(T_URI, "printer-uuid"@, uuid_of(name_hash(name)));
}

/// The virtual printer offers printing on one side and on both, on both unless it
/// is told otherwise; it takes PDF, and supports the eight operations that it
/// answers.
#[verifier::spinoff_prover]
#[verifier::rlimit(40)]
pub proof fn law_abilities_are_shown(
    attrs: Seq<AttrView>,
    jobs: Seq<JobView>,
    name: Seq<char>,
    port: u16,
    online: bool,
)
    ensures
        ({
            let shown = presented(attrs, jobs, name, port, online);
            &&& first_named(shown, "sides-supported"@) == Some(
                strs_attr(
                    0x44,
                    "sides-supported"@,
                    seq!["one-sided"@, "two-sided-long-edge"@, "two-sided-short-edge"@],
                ),
            )
            &&& shows(shown, "sides-default"@, "two-sided-long-edge"@)
            &&& first_named(shown, "operations-supported"@) == Some(
                ints_attr(
                    0x23,
                    "operations-supported"@,
                    seq![2i32, 4i32, 5i32, 6i32, 8i32, 9i32, 10i32, 11i32],
                ),
            )
            &&& first_named(shown, "document-format-supported"@) == Some(
                strs_attr(
                    0x49,
                    "document-format-supported"@,
                    seq!["application/pdf"@, "application/octet-stream"@],
                ),
            )
            &&& shows(shown, "document-format-default"@, "application/pdf"@)
        }),
{
    let n = own_names();
    lemma_ability_found(attrs, jobs, name, port, online, 0);
    lemma_ability_found(attrs, jobs, name, port, online, 1);
    lemma_ability_found(attrs, jobs, name, port, online, 2);
    lemma_ability_found(attrs, jobs, name, port, online, 3);
    lemma_ability_found(attrs, jobs, name, port, online, 4);
    assert(n[10] == "sides-supported"@ && n[11] == "sides-default"@);
    assert(n[12] == "operations-supported"@ && n[13] == "document-format-supported"@);
    assert(n[14] == "document-format-default"@);
    let ops = seq![
        OP_PRINT_JOB as i32,
        OP_VALIDATE_JOB as i32,
        OP_CREATE_JOB as i32,
        OP_SEND_DOCUMENT as i32,
        OP_CANCEL_JOB as i32,
        OP_GET_JOB_ATTRS as i32,
        OP_GET_JOBS as i32,
        OP_GET_PRINTER_ATTRS as i32,
    ];
    assert(ops =~= seq![2i32, 4i32, 5i32, 6i32, 8i32, 9i32, 10i32, 11i32]);
    assert(abilities()[1] == str_attr(T_KEYWORD, "sides-default"@, "two-sided-long-edge"@));
    assert(abilities()[4] == str_attr(T_MIME, "document-format-default"@, "application/pdf"@));
    law_str_reads_back(T_KEYWORD, "sides-default"@, "two-sided-long-edge"@);
    law_str_reads_back(T_MIME, "document-format-default"@, "application/pdf"@);
}

proof fn lemma_make_passes()
    ensures
        !overridden().contains("printer-make-and-model"@),
{
    reveal_strlit("printer-uri-supported");
    reveal_strlit("uri-security-supported");
    reveal_strlit("uri-authentication-supported");
    reveal_strlit("printer-name");
    reveal_strlit("printer-uuid");
    reveal_strlit("printer-state");
    reveal_strlit("printer-state-reasons");
    reveal_strlit("printer-state-message");
    reveal_strlit("printer-is-accepting-jobs");
    reveal_strlit("sides-supported");
    reveal_strlit("sides-default");
    reveal_strlit("operations-supported");
    reveal_strlit("document-format-supported");
    reveal_strlit("document-format-default");
    reveal_strlit("printer-info");
    reveal_strlit("printer-location");
    reveal_strlit("printer-more-info");
    reveal_strlit("queued-job-count");
    reveal_strlit("printer-icons");
    reveal_strlit("printer-device-id");
    reveal_strlit("printer-supply-info-uri");
    reveal_strlit("device-uri");
    reveal_strlit("printer-alert");
    reveal_strlit("printer-alert-description");
    reveal_strlit("printer-make-and-model");
    let o = overridden();
    let make = "printer-make-and-model"@;
    let mark = |s: Seq<char>| (s.len(), s[0]);
    assert forall|i: int| 0 <= i < o.len() implies o[i] != make by {
        assert(mark(o[i]) != mark(make));
    }
}

/// The virtual printer shows the real one's make and model, and that it adds manual
/// duplex to it; without one it is some printer.
#[verifier::spinoff_prover]
#[verifier::rlimit(40)]
pub proof fn law_make_is_shown(
    attrs: Seq<AttrView>,
    jobs: Seq<JobView>,
    name: Seq<char>,
    port: u16,
    online: bool,
)
    ensures
        ({
            let shown = presented(attrs, jobs, name, port, online);
            let make = match first_named(attrs, "printer-make-and-model"@) {
                Some(a) => match a.first_str() {
                    Some(s) => s,
                    None => "printer"@,
                },
                None => "printer"@,
            };
            &&& shows(shown, "printer-make-and-model"@, make + " + manual duplex"@)
            &&& shows(shown, "printer-info"@, "Manual duplex on "@ + make)
            &&& shows(shown, "printer-location"@, "localhost"@)
        }),
{
    let n = own_names();
    lemma_make_passes();
    lemma_first_named_filter(
        attrs,
        |a: AttrView| !overridden().contains(a.name),
        "printer-make-and-model"@,
    );
    let make = make_of(attrs);
    lemma_description_found(attrs, jobs, name, port, online, 0);
    lemma_description_found(attrs, jobs, name, port, online, 1);
    lemma_description_found(attrs, jobs, name, port, online, 2);
    assert(n[15] == "printer-make-and-model"@ && n[16] == "printer-info"@);
    assert(n[17] == "printer-location"@);
    law_str_reads_back(T_TEXT, "printer-make-and-model"@, make + " + manual duplex"@);
    law_str_reads_back(T_TEXT, "printer-info"@, "Manual duplex on "@ + make);
    law_str_reads_back(T_TEXT, "printer-location"@, "localhost"@);
}

/// The virtual printer shows how many jobs are not over, that is in a state below 7.
#[verifier::spinoff_prover]
#[verifier::rlimit(40)]
pub proof fn law_queue_is_counted(
    attrs: Seq<AttrView>,
    jobs: Seq<JobView>,
    name: Seq<char>,
    port: u16,
    online: bool,
)
    requires
        jobs.len() < 0x8000_0000,
    ensures
        number_of(first_named(presented(attrs, jobs, name, port, online), "queued-job-count"@))
            == Some(jobs.filter(|j: JobView| j.state < 7).len() as i32),
{
    let count = active_count(jobs);
    lemma_status_found(attrs, jobs, name, port, online, 9);
    lemma_count_status(attrs, jobs, name, port, online);
    assert(own_names()[9] == "queued-job-count"@);
    lemma_open_jobs(jobs);
    law_int_reads_back(T_INTEGER, "queued-job-count"@, count as i32);
}

proof fn lemma_count_status(
    attrs: Seq<AttrView>,
    jobs: Seq<JobView>,
    name: Seq<char>,
    port: u16,
    online: bool,
)
    ensures
        statuses(attrs, jobs, name, port, online)[9] == int_attr(
            T_INTEGER,
            "queued-job-count"@,
            signed(active_count(jobs) % 0x1_0000_0000),
        ),
{
}

proof fn lemma_open_jobs(jobs: Seq<JobView>)
    ensures
        jobs.filter(|j: JobView| j.state < 7).len() == active_count(jobs),
        active_count(jobs) <= jobs.len(),
{
    assert((|j: JobView| j.state < 7) =~= (|j: JobView| !is_done(j)));
    lemma_filter_len(jobs, |j: JobView| !is_done(j));
}

proof fn lemma_filter_len(jobs: Seq<JobView>, keep: spec_fn(JobView) -> bool)
    ensures
        jobs.filter(keep).len() <= jobs.len(),
    decreases jobs.len(),
{
    reveal(Seq::filter);
    if jobs.len() > 0 {
        lemma_filter_len(jobs.drop_last(), keep);
    }
}

/// The real printer accepts jobs unless it says that it does not.
pub proof fn law_accepting_is_read(attrs: Seq<AttrView>)
    ensures
        first_named(attrs, "printer-is-accepting-jobs"@) is None ==> accepts(attrs),
        first_named(attrs, "printer-is-accepting-jobs"@) == Some(
            boolean_attr("printer-is-accepting-jobs"@, true),
        ) ==> accepts(attrs),
        first_named(attrs, "printer-is-accepting-jobs"@) == Some(
            boolean_attr("printer-is-accepting-jobs"@, false),
        ) ==> !accepts(attrs),
        first_named(attrs, "printer-is-accepting-jobs"@) matches Some(a) ==> (!accepts(attrs)
            <==> a.values.len() > 0 && a.values[0].1.len() == 1 && a.values[0].1[0] == 0),
{
    assert(seq![1u8][0] != seq![0u8][0]);
    if let Some(a) = first_named(attrs, "printer-is-accepting-jobs"@) {
        if a.values.len() > 0 && a.values[0].1.len() == 1 && a.values[0].1[0] == 0 {
            assert(a.values[0].1 =~= seq![0u8]);
        }
    }
}

/// A client that asks for the printer's attributes is answered with them, in one
/// group: those of the real printer as they are shown, or those that stand in for
/// them while it is out of reach.
pub proof fn law_printer_query_is_answered(
    sp: SpoolerView,
    name: Seq<char>,
    port: u16,
    request_id: u32,
    attrs: Seq<AttrView>,
)
    ensures
        ({
            let m = printer_answer(sp, name, port, request_id, Some(attrs));
            let n = printer_answer(sp, name, port, request_id, None);
            &&& m.op_status == 0 && m.request_id == request_id && m.groups.len() == 2
            &&& m.groups[1].tag == 0x04
            &&& m.groups[1].attrs == presented(attrs, sp.jobs, name, port, true)
            &&& n.op_status == 0 && n.request_id == request_id && n.groups.len() == 2
            &&& n.groups[1].tag == 0x04
            &&& n.groups[1].attrs == presented(fallback_attrs(), sp.jobs, name, port, false)
        }),
{
}

/// The real printer is asked for all of its attributes, at its own address.
pub proof fn law_real_printer_is_asked_for_all(uri: Seq<char>)
    ensures
        ({
            let m = attrs_query(uri);
            &&& m.op_status == 0x000b
            &&& m.find_in(0x01, "printer-uri"@) matches Some(a) && a.first_str() == Some(uri)
            &&& m.find_in(0x01, "requested-attributes"@) matches Some(a) && a.values.len() == 1
                && a.first_str() == Some("all"@)
            &&& m.data.len() == 0
        }),
{
    let m = attrs_query(uri);
    reveal_strlit("attributes-charset");
    reveal_strlit("attributes-natural-language");
    reveal_strlit("printer-uri");
    reveal_strlit("requested-attributes");
    assert("attributes-charset"@.len() == 18);
    assert("attributes-natural-language"@.len() == 27);
    assert("printer-uri"@.len() == 11);
    assert("requested-attributes"@.len() == 20);
    let op = m.groups[0].attrs;
    assert(op[0].name == "attributes-charset"@);
    assert(op[1].name == "attributes-natural-language"@);
    assert(op[2].name == "printer-uri"@);
    assert(op[3].name == "requested-attributes"@);
    lemma_find_in_only_group(m, 0, "printer-uri"@);
    lemma_find_in_only_group(m, 0, "requested-attributes"@);
    lemma_first_named_at(op, "printer-uri"@, 2);
    lemma_first_named_at(op, "requested-attributes"@, 3);
    law_str_reads_back(T_URI, "printer-uri"@, uri);
    law_str_reads_back(T_KEYWORD, "requested-attributes"@, "all"@);
}

/// What the real printer said is what stands in the printer groups of its reply, all
/// of it; a reply without any, and no reply, is that it said nothing. The one is
/// used for 30 seconds, the other for 5.
pub proof fn law_reply_is_used(resp: MsgView, e: Seq<char>)
    ensures
        attrs_in(resp.groups, 0x04).len() > 0 ==> said(Ok(resp)) == Some(
            attrs_in(resp.groups, 0x04),
        ),
        attrs_in(resp.groups, 0x04).len() == 0 ==> said(Ok(resp)) is None,
        said(Err(e)) is None,
        forall|attrs: Seq<AttrView>| #[trigger] lifetime(Some(attrs)) == 30,
        lifetime(None) == 5,
{
}

/// What stands in for a printer out of reach has what a client cannot do without.
pub proof fn law_fallback_attributes()
    ensures
        fallback_attrs() == seq![
            str_attr(0x47, "charset-configured"@, "utf-8"@),
            str_attr(0x47, "charset-supported"@, "utf-8"@),
            str_attr(0x48, "natural-language-configured"@, "en"@),
            str_attr(0x48, "generated-natural-language-supported"@, "en"@),
            strs_attr(0x44, "ipp-versions-supported"@, seq!["1.1"@, "2.0"@]),
            strs_attr(0x44, "pdl-override-supported"@, seq!["attempted"@]),
            strs_attr(
                0x44,
                "media-supported"@,
                seq!["iso_a4_210x297mm"@, "na_letter_8.5x11in"@],
            ),
            str_attr(0x44, "media-default"@, "iso_a4_210x297mm"@),
            str_attr(0x41, "printer-make-and-model"@, "ipp-duplexd virtual printer"@),
        ],
{
}

/// The hash of a name goes on byte by byte: each byte is mixed in, and then the whole
/// is multiplied.
pub proof fn law_hash_goes_on(bytes: Seq<u8>, b: u8, seed: u64, prime: u64)
    ensures
        fnv(Seq::<u8>::empty(), seed, prime) == seed,
        fnv(bytes.push(b), seed, prime) == (fnv(bytes, seed, prime) ^ (b as u64)).wrapping_mul(
            prime,
        ),
{
    assert(bytes.push(b).drop_last() =~= bytes);
    assert(bytes.push(b).last() == b);
}

/// The hash is taken twice, from two starts, and written one behind the other, the
/// most significant byte first.
pub proof fn law_hash_is_taken_twice(name: Seq<char>, i: int)
    requires
        0 <= i < 4,
    ensures
        ({
            let one = fnv(encode_utf8(name), 0xcbf29ce484222325, 0x100000001b3);
            let two = fnv(encode_utf8(name), 0x811c9dc5811c9dc5, 0x1000193);
            let h = name_hash(name);
            &&& h.len() == 16
            &&& h[i] == be32((one / 0x1_0000_0000) as nat)[i]
            &&& h[i + 4] == be32((one % 0x1_0000_0000) as nat)[i]
            &&& h[i + 8] == be32((two / 0x1_0000_0000) as nat)[i]
            &&& h[i + 12] == be32((two % 0x1_0000_0000) as nat)[i]
        }),
{
}

/// The identifier spells the hash of the name, byte by byte, but for the two digits
/// that say what kind of identifier it is.
pub proof fn law_uuid_spells_the_hash(b: Seq<u8>)
    requires
        b.len() == 16,
    ensures
        ({
            let uuid = uuid_of(b);
            &&& uuid.subrange(9, 17) == hex_bytes(b.subrange(0, 4))
            &&& uuid.subrange(18, 22) == hex_bytes(b.subrange(4, 6))
            &&& uuid[24] == hex_byte(b[6])[1]
            &&& uuid.subrange(25, 27) == hex_bytes(b.subrange(7, 8))
            &&& uuid[29] == hex_byte(b[8])[1]
            &&& uuid.subrange(30, 32) == hex_bytes(b.subrange(9, 10))
            &&& uuid.subrange(33, 45) == hex_bytes(b.subrange(10, 16))
        }),
{
    reveal_strlit("urn:uuid:");
    reveal_strlit("-");
    reveal_strlit("-4");
    reveal_strlit("-8");
    lemma_hex_bytes(b.subrange(0, 4));
    lemma_hex_bytes(b.subrange(4, 6));
    lemma_hex_bytes(b.subrange(7, 8));
    lemma_hex_bytes(b.subrange(9, 10));
    lemma_hex_bytes(b.subrange(10, 16));
    let uuid = uuid_of(b);
    assert(uuid.subrange(9, 17) =~= hex_bytes(b.subrange(0, 4)));
    assert(uuid.subrange(18, 22) =~= hex_bytes(b.subrange(4, 6)));
    assert(uuid.subrange(25, 27) =~= hex_bytes(b.subrange(7, 8)));
    assert(uuid.subrange(30, 32) =~= hex_bytes(b.subrange(9, 10)));
    assert(uuid.subrange(33, 45) =~= hex_bytes(b.subrange(10, 16)));
}

/// Bytes are spelled one behind the other, each in its two hexadecimal digits.
pub proof fn law_bytes_are_spelled(bytes: Seq<u8>, b: u8)
    ensures
        hex_bytes(Seq::<u8>::empty()).len() == 0,
        hex_bytes(bytes.push(b)) == hex_bytes(bytes) + hex_byte(b),
{
    assert(bytes.push(b).drop_last() =~= bytes);
    assert(bytes.push(b).last() == b);
}

/// What the real printer said is used again for 30 seconds, and that it said nothing
/// for 5; then it is asked anew, and so it is where it was never asked.
pub proof fn law_cache_is_used(attrs: Seq<AttrView>, age: u64)
    ensures
        age < 30 ==> still_recent(Some(Some(attrs)), age) == Some(Some(attrs)),
        age >= 30 ==> still_recent(Some(Some(attrs)), age) is None,
        age < 5 ==> still_recent(Some(None), age) == Some(None::<Seq<AttrView>>),
        age >= 5 ==> still_recent(Some(None), age) is None,
        still_recent(None, age) is None,
{
}

/// What a client is told beside the state: to flip the stack while a job waits, that
/// the real printer is out of reach, or, where that printer is reached and gives no
/// reasons or no message, that there are none.
#[verifier::spinoff_prover]
pub proof fn law_state_is_explained(
    attrs: Seq<AttrView>,
    jobs: Seq<JobView>,
    name: Seq<char>,
    port: u16,
    online: bool,
)
    ensures
        ({
            let shown = presented(attrs, jobs, name, port, online);
            let waiting = exists|i: int|
                0 <= i < jobs.len() && (#[trigger] jobs[i]).state == 6;
            &&& waiting ==> shows(
                shown,
                "printer-state-message"@,
                "odd pages printed - flip the stack and confirm"@,
            )
            &&& !waiting && !online ==> shows(
                shown,
                "printer-state-message"@,
                "real printer is unreachable"@,
            )
            &&& !waiting && online && first_named(attrs, "printer-state-message"@) is None
                ==> shows(shown, "printer-state-message"@, ""@)
            &&& !waiting && online && first_named(attrs, "printer-state-reasons"@) is None
                ==> shows(shown, "printer-state-reasons"@, "none"@)
        }),
{
    lemma_state_found(attrs, jobs, name, port, online);
    law_str_reads_back(
        T_TEXT,
        "printer-state-message"@,
        "odd pages printed - flip the stack and confirm"@,
    );
    law_str_reads_back(T_TEXT, "printer-state-message"@, "real printer is unreachable"@);
    law_str_reads_back(T_TEXT, "printer-state-message"@, ""@);
    law_str_reads_back(T_KEYWORD, "printer-state-reasons"@, "none"@);
}

/// A real printer that is reached and reports no state, or one that there is not, is
/// shown as processing while a job is in progress, and as idle otherwise. Whatever is
/// reported, the state that is shown is one of idle, processing and stopped.
#[verifier::spinoff_prover]
pub proof fn law_state_is_always_shown(
    attrs: Seq<AttrView>,
    jobs: Seq<JobView>,
    name: Seq<char>,
    port: u16,
    online: bool,
)
    ensures
        ({
            let shown = presented(attrs, jobs, name, port, online);
            let reported = number_of(first_named(attrs, "printer-state"@));
            let any = |state: i32|
                exists|i: int| 0 <= i < jobs.len() && (#[trigger] jobs[i]).state == state;
            &&& number_of(first_named(shown, "printer-state"@)) matches Some(s) && 3 <= s <= 5
            &&& online && !any(6) && !(reported matches Some(s) && 3 <= s <= 5) ==> number_of(
                first_named(shown, "printer-state"@),
            ) == Some(
                if any(5) {
                    4i32
                } else {
                    3i32
                },
            )
        }),
{
    lemma_state_found(attrs, jobs, name, port, online);
    law_int_reads_back(T_ENUM, "printer-state"@, shown_state(attrs, jobs, online).0);
}

/// A reply is used again for its time as it was taken when it came, and so is that
/// there was none: the real printer is not asked again meanwhile.
pub proof fn law_reply_is_remembered(resp: MsgView, e: Seq<char>, age: u64)
    ensures
        attrs_in(resp.groups, 0x04).len() > 0 && age < 30 ==> still_recent(
            remembered(Ok(resp)),
            age,
        ) == Some(Some(attrs_in(resp.groups, 0x04))),
        attrs_in(resp.groups, 0x04).len() == 0 && age < 5 ==> still_recent(
            remembered(Ok(resp)),
            age,
        ) == Some(None::<Seq<AttrView>>),
        age < 5 ==> still_recent(remembered(Err(e)), age) == Some(None::<Seq<AttrView>>),
        age >= 30 ==> still_recent(remembered(Ok(resp)), age) is None,
        age >= 5 ==> still_recent(remembered(Err(e)), age) is None,
{
}

} // verus!
