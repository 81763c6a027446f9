//! What is said to the real printer about a job, and what its replies mean.

use crate::ipp::{
    attr_views, first_named, int_attr, lemma_find_in_only_group, lemma_first_named_absent,
    lemma_first_named_at, lemma_first_named_concat, lemma_first_named_filter, msg_result, new_msg,
    preamble, preamble_attrs, str_attr, Attr, AttrView, GroupView, Msg, MsgView, G_JOB,
    G_OPERATION, OP_CANCEL_JOB, OP_GET_JOB_ATTRS, OP_PRINT_JOB, T_INTEGER, T_KEYWORD, T_MIME,
    T_NAME, T_URI,
};
use crate::jobs::{state_name, state_text, J_ABORTED, J_CANCELED, J_COMPLETED};
use crate::server::{attr_number, number_of, with_group};
use crate::text::{decimal_int, hex_word, in_list, push_decimal_int, push_hex_word};
use crate::wire::{law_int_reads_back, law_str_reads_back};
use vstd::prelude::*;
use vstd::string::StringExecFns;

verus! {

// -------------------------------------------------------------- forwarding

/// Job attributes that must not be forwarded: either they were applied here, or
/// they would change the pagination underneath the split.
pub open spec fn no_forward() -> Seq<Seq<char>> {
    seq![
        "sides"@,
        "copies"@,
        "page-ranges"@,
        "number-up"@,
        "number-up-layout"@,
        "page-border"@,
        "multiple-document-handling"@,
        "job-hold-until"@,
    ]
}

/// The job attributes that the real printer gets.
pub open spec fn forwarded_attrs(attrs: Seq<AttrView>) -> Seq<AttrView> {
    attrs.filter(|a: AttrView| !no_forward().contains(a.name)).push(
        str_attr(T_KEYWORD, "sides"@, "one-sided"@),
    )
}

/// The Print-Job request for one pass.
pub open spec fn forward_msg(
    uri: Seq<char>,
    name: Seq<char>,
    user: Seq<char>,
    attrs: Seq<AttrView>,
    data: Seq<u8>,
) -> MsgView {
    MsgView {
        groups: seq![
            GroupView {
                tag: G_OPERATION,
                attrs: preamble() + seq![
                    str_attr(T_URI, "printer-uri"@, uri),
                    str_attr(T_NAME, "requesting-user-name"@, user),
                    str_attr(T_NAME, "job-name"@, name),
                    str_attr(T_MIME, "document-format"@, "application/pdf"@),
                ],
            },
            GroupView { tag: G_JOB, attrs: forwarded_attrs(attrs) },
        ],
        data,
        ..new_msg(OP_PRINT_JOB, 1)
    }
}

/// Whether a job attribute is kept from the real printer.
fn is_kept_back(name: &str) -> (r: bool)
    ensures
        r == no_forward().contains(name@),
{
    let names: [&str; 8] = [
        "sides",
        "copies",
        "page-ranges",
        "number-up",
        "number-up-layout",
        "page-border",
        "multiple-document-handling",
        "job-hold-until",
    ];
    assert(names@.map_values(|s: &str| s@) =~= no_forward());
    in_list(name, &names)
}

/// The job attributes that the real printer gets.
fn attrs_to_forward(attrs: &Vec<Attr>) -> (r: Vec<Attr>)
    ensures
        attr_views(r@) == forwarded_attrs(attr_views(attrs@)),
{
    let ghost all = attr_views(attrs@);
    let ghost keep = |a: AttrView| !no_forward().contains(a.name);
    let mut out: Vec<Attr> = Vec::new();
    let mut i: usize = 0;
    reveal(Seq::filter);
    assert(attr_views(out@) =~= all.take(0).filter(keep));
    while i < attrs.len()
        invariant
            i <= attrs@.len(),
            all == attr_views(attrs@),
            keep == (|a: AttrView| !no_forward().contains(a.name)),
            attr_views(out@) == all.take(i as int).filter(keep),
        decreases attrs@.len() - i,
    {
        let ghost before = attr_views(out@);
        reveal(Seq::filter);
        assert(all.take(i + 1).drop_last() =~= all.take(i as int));
        assert(all.take(i + 1).last() == attrs@[i as int]@);
        if !is_kept_back(attrs[i].name.as_str()) {
            out.push(attrs[i].clone());
            assert(attr_views(out@) =~= before.push(all[i as int]));
        }
        i += 1;
    }
    assert(all.take(i as int) =~= all);
    let ghost kept = attr_views(out@);
    out.push(Attr::str(T_KEYWORD, "sides", "one-sided"));
    assert(attr_views(out@) =~= kept.push(str_attr(T_KEYWORD, "sides"@, "one-sided"@)));
    out
}

/// The Print-Job request for one pass, with the document in it.
pub fn forward_message(
    uri: &str,
    name: &str,
    user: &str,
    attrs: &Vec<Attr>,
    data: Vec<u8>,
) -> (r: Msg)
    ensures
        r@ == forward_msg(uri@, name@, user@, attr_views(attrs@), data@),
{
    let mut op = preamble_attrs();
    op.push(Attr::str(T_URI, "printer-uri", uri));
    op.push(Attr::str(T_NAME, "requesting-user-name", user));
    op.push(Attr::str(T_NAME, "job-name", name));
    op.push(Attr::str(T_MIME, "document-format", "application/pdf"));
    assert(attr_views(op@) =~= preamble() + seq![
        str_attr(T_URI, "printer-uri"@, uri@),
        str_attr(T_NAME, "requesting-user-name"@, user@),
        str_attr(T_NAME, "job-name"@, name@),
        str_attr(T_MIME, "document-format"@, "application/pdf"@),
    ]);
    let mut msg = Msg::new(OP_PRINT_JOB, 1);
    msg.add_group(G_OPERATION, op);
    msg.add_group(G_JOB, attrs_to_forward(attrs));
    msg.data = data;
    assert(msg@ =~= forward_msg(uri@, name@, user@, attr_views(attrs@), data@));
    msg
}

/// The real printer's id for the job that it was sent, or why there is none.
pub open spec fn forward_result(resp: MsgView) -> Result<i32, Seq<char>> {
    if resp.op_status > 0x00ff {
        Err("real printer rejected the job (ipp status 0x"@ + hex_word(resp.op_status) + ")"@)
    } else {
        match number_of(resp.find("job-id"@)) {
            Some(id) => Ok(id),
            None => Err("real printer returned no job-id"@),
        }
    }
}

/// A job id as a mathematical value, or the error.
pub open spec fn id_result(r: Result<i32, String>) -> Result<i32, Seq<char>> {
    match r {
        Ok(id) => Ok(id),
        Err(e) => Err(e@),
    }
}

/// The real printer's id for the job that it was sent, or why there is none.
pub fn forwarded(resp: &Msg) -> (r: Result<i32, String>)
    ensures
        id_result(r) == forward_result(resp@),
{
    if resp.op_status > 0x00ff {
        let mut e = "real printer rejected the job (ipp status 0x".to_owned();
        push_hex_word(&mut e, resp.op_status);
        e.append(")");
        return Err(e);
    }
    match attr_number(resp.find("job-id")) {
        Some(id) => Ok(id),
        None => Err("real printer returned no job-id".to_owned()),
    }
}

// ---------------------------------------------------------------- watching

/// The request to cancel a job of the real printer.
pub open spec fn cancel_msg(uri: Seq<char>, remote_id: i32) -> MsgView {
    with_group(
        new_msg(OP_CANCEL_JOB, 1),
        GroupView {
            tag: G_OPERATION,
            attrs: preamble() + seq![
                str_attr(T_URI, "printer-uri"@, uri),
                int_attr(T_INTEGER, "job-id"@, remote_id),
            ],
        },
    )
}

/// The request for the state of a job of the real printer.
pub open spec fn state_msg(uri: Seq<char>, remote_id: i32) -> MsgView {
    with_group(
        new_msg(OP_GET_JOB_ATTRS, 1),
        GroupView {
            tag: G_OPERATION,
            attrs: preamble() + seq![
                str_attr(T_URI, "printer-uri"@, uri),
                int_attr(T_INTEGER, "job-id"@, remote_id),
                str_attr(T_KEYWORD, "requested-attributes"@, "job-state"@),
            ],
        },
    )
}

/// The request to cancel a job of the real printer.
pub fn cancel_request(uri: &str, remote_id: i32) -> (r: Msg)
    ensures
        r@ == cancel_msg(uri@, remote_id),
{
    let mut attrs = preamble_attrs();
    attrs.push(Attr::str(T_URI, "printer-uri", uri));
    attrs.push(Attr::integer(T_INTEGER, "job-id", remote_id));
    assert(attr_views(attrs@) =~= preamble() + seq![
        str_attr(T_URI, "printer-uri"@, uri@),
        int_attr(T_INTEGER, "job-id"@, remote_id),
    ]);
    let mut msg = Msg::new(OP_CANCEL_JOB, 1);
    msg.add_group(G_OPERATION, attrs);
    msg
}

/// The request for the state of a job of the real printer.
pub fn state_request(uri: &str, remote_id: i32) -> (r: Msg)
    ensures
        r@ == state_msg(uri@, remote_id),
{
    let mut attrs = preamble_attrs();
    attrs.push(Attr::str(T_URI, "printer-uri", uri));
    attrs.push(Attr::integer(T_INTEGER, "job-id", remote_id));
    attrs.push(Attr::str(T_KEYWORD, "requested-attributes", "job-state"));
    assert(attr_views(attrs@) =~= preamble() + seq![
        str_attr(T_URI, "printer-uri"@, uri@),
        int_attr(T_INTEGER, "job-id"@, remote_id),
        str_attr(T_KEYWORD, "requested-attributes"@, "job-state"@),
    ]);
    let mut msg = Msg::new(OP_GET_JOB_ATTRS, 1);
    msg.add_group(G_OPERATION, attrs);
    msg
}

/// What a reply to the request for the state means.
#[derive(Debug)]
pub enum Watch {
    /// ask again, after so many requests in a row without a reply
    Again(u32),
    /// the job is printed
    Printed,
    /// the job will not be printed
    Lost(String),
}

/// What a reply means as a mathematical value.
#[verifier::ext_equal]
pub enum WatchView {
    Again(u32),
    Printed,
    Lost(Seq<char>),
}

impl View for Watch {
    type V = WatchView;

    open spec fn view(&self) -> WatchView {
        match self {
            Watch::Again(errors) => WatchView::Again(*errors),
            Watch::Printed => WatchView::Printed,
            Watch::Lost(e) => WatchView::Lost(e@),
        }
    }
}

/// What a reply, or a request that failed, means after `errors` failures in a
/// row: the fifth is one too many.
pub open spec fn watch(remote_id: i32, errors: u32, reply: Result<MsgView, Seq<char>>) -> WatchView {
    match reply {
        Ok(resp) => match number_of(resp.find("job-state"@)) {
            Some(s) => if s == J_COMPLETED {
                WatchView::Printed
            } else if s == J_CANCELED || s == J_ABORTED {
                WatchView::Lost(
                    "remote job "@ + decimal_int(remote_id as int) + " ended in state "@
                        + state_text(s),
                )
            } else {
                WatchView::Again(0)
            },
            None => WatchView::Again(0),
        },
        Err(e) => if errors + 1 >= 5 {
            WatchView::Lost("lost contact with real printer: "@ + e)
        } else {
            WatchView::Again((errors + 1) as u32)
        },
    }
}

/// What a reply to `state_request`, or its failure, means after `errors`
/// failures in a row.
pub fn wait_remote(remote_id: i32, errors: u32, reply: &Result<Msg, String>) -> (r: Watch)
    ensures
        r@ == watch(remote_id, errors, msg_result(*reply)),
{
    match reply {
        Ok(resp) => match attr_number(resp.find("job-state")) {
            Some(s) => if s == J_COMPLETED {
                Watch::Printed
            } else if s == J_CANCELED || s == J_ABORTED {
                let mut e = "remote job ".to_owned();
                push_decimal_int(&mut e, remote_id);
                e.append(" ended in state ");
                e.append(state_name(s));
                Watch::Lost(e)
            } else {
                Watch::Again(0)
            },
            None => Watch::Again(0),
        },
        Err(e) => if errors >= 4 {
            let mut text = "lost contact with real printer: ".to_owned();
            text.append(e.as_str());
            Watch::Lost(text)
        } else {
            Watch::Again(errors + 1)
        },
    }
}

// ------------------------------------------------------------------- laws

/// The real printer is told to print on one side, whatever the job says, and is
/// told nothing else that would change the pages of a pass.
pub proof fn law_pagination_is_not_forwarded(attrs: Seq<AttrView>, name: Seq<char>)
    requires
        no_forward().contains(name),
    ensures
        first_named(forwarded_attrs(attrs), name) == if name == "sides"@ {
            Some(str_attr(T_KEYWORD, "sides"@, "one-sided"@))
        } else {
            None
        },
{
    let keep = |a: AttrView| !no_forward().contains(a.name);
    let kept = attrs.filter(keep);
    let sides = seq![str_attr(T_KEYWORD, "sides"@, "one-sided"@)];
    assert forall|i: int| 0 <= i < kept.len() implies (#[trigger] kept[i]).name != name by {
        attrs.lemma_filter_pred(keep, i);
    }
    assert(forwarded_attrs(attrs) =~= kept + sides);
    lemma_first_named_absent(kept, name);
    lemma_first_named_concat(kept, sides, name);
    if name == "sides"@ {
        lemma_first_named_at(sides, name, 0);
    } else {
        lemma_first_named_absent(sides, name);
    }
}

/// Every other job attribute reaches the real printer as it is: media, quality,
/// resolution, colour mode.
pub proof fn law_other_options_are_forwarded(attrs: Seq<AttrView>, name: Seq<char>)
    requires
        !no_forward().contains(name),
    ensures
        first_named(forwarded_attrs(attrs), name) == first_named(attrs, name),
{
    let keep = |a: AttrView| !no_forward().contains(a.name);
    let kept = attrs.filter(keep);
    let sides = seq![str_attr(T_KEYWORD, "sides"@, "one-sided"@)];
    assert(no_forward()[0] == "sides"@);
    assert(forwarded_attrs(attrs) =~= kept + sides);
    lemma_first_named_filter(attrs, keep, name);
    lemma_first_named_concat(kept, sides, name);
    lemma_first_named_absent(sides, name);
}

/// Of all job attributes only eight are kept from the real printer, and `sides` is
/// set anew: whatever else a job says, media, quality, resolution, colour mode, or
/// anything that nobody here knows, the real printer is told the same.
pub proof fn law_only_eight_attributes_are_kept_back(attrs: Seq<AttrView>, name: Seq<char>)
    ensures
        name != "sides"@ && name != "copies"@ && name != "page-ranges"@ && name != "number-up"@
            && name != "number-up-layout"@ && name != "page-border"@ && name
            != "multiple-document-handling"@ && name != "job-hold-until"@ ==> first_named(
            forwarded_attrs(attrs),
            name,
        ) == first_named(attrs, name),
        name == "copies"@ || name == "page-ranges"@ || name == "number-up"@ || name
            == "number-up-layout"@ || name == "page-border"@ || name
            == "multiple-document-handling"@ || name == "job-hold-until"@ ==> first_named(
            forwarded_attrs(attrs),
            name,
        ) is None,
        first_named(forwarded_attrs(attrs), "sides"@) matches Some(a) && a.first_str() == Some(
            "one-sided"@,
        ),
{
    let list = no_forward();
    assert(list[0] == "sides"@);
    assert(list[1] == "copies"@);
    assert(list[2] == "page-ranges"@);
    assert(list[3] == "number-up"@);
    assert(list[4] == "number-up-layout"@);
    assert(list[5] == "page-border"@);
    assert(list[6] == "multiple-document-handling"@);
    assert(list[7] == "job-hold-until"@);
    reveal_strlit("sides");
    reveal_strlit("copies");
    reveal_strlit("page-ranges");
    reveal_strlit("number-up");
    reveal_strlit("number-up-layout");
    reveal_strlit("page-border");
    reveal_strlit("multiple-document-handling");
    reveal_strlit("job-hold-until");
    assert("copies"@.len() == 6);
    assert("page-ranges"@.len() == 11);
    assert("number-up"@.len() == 9);
    assert("number-up-layout"@.len() == 16);
    assert("page-border"@.len() == 11);
    assert("multiple-document-handling"@.len() == 26);
    assert("job-hold-until"@.len() == 14);
    assert("sides"@.len() == 5);
    if list.contains(name) {
        law_pagination_is_not_forwarded(attrs, name);
    } else {
        law_other_options_are_forwarded(attrs, name);
    }
    law_pagination_is_not_forwarded(attrs, "sides"@);
    law_str_reads_back(T_KEYWORD, "sides"@, "one-sided"@);
}

/// The options that the user sees in a print dialog reach the real printer.
pub proof fn law_print_options_are_forwarded(attrs: Seq<AttrView>)
    ensures
        first_named(forwarded_attrs(attrs), "media"@) == first_named(attrs, "media"@),
        first_named(forwarded_attrs(attrs), "print-quality"@) == first_named(
            attrs,
            "print-quality"@,
        ),
        first_named(forwarded_attrs(attrs), "printer-resolution"@) == first_named(
            attrs,
            "printer-resolution"@,
        ),
        first_named(forwarded_attrs(attrs), "print-color-mode"@) == first_named(
            attrs,
            "print-color-mode"@,
        ),
{
    reveal_strlit("sides");
    reveal_strlit("copies");
    reveal_strlit("page-ranges");
    reveal_strlit("number-up");
    reveal_strlit("number-up-layout");
    reveal_strlit("page-border");
    reveal_strlit("multiple-document-handling");
    reveal_strlit("job-hold-until");
    reveal_strlit("media");
    reveal_strlit("print-quality");
    reveal_strlit("printer-resolution");
    reveal_strlit("print-color-mode");
    assert("sides"@.len() == 5);
    assert("copies"@.len() == 6);
    assert("page-ranges"@.len() == 11);
    assert("number-up"@.len() == 9);
    assert("number-up-layout"@.len() == 16);
    assert("page-border"@.len() == 11);
    assert("multiple-document-handling"@.len() == 26);
    assert("job-hold-until"@.len() == 14);
    assert("media"@.len() == 5);
    assert("print-quality"@.len() == 13);
    assert("printer-resolution"@.len() == 18);
    assert("print-color-mode"@.len() == 16);
    assert("media"@[0] != "sides"@[0]);
    assert("print-color-mode"@[0] != "number-up-layout"@[0]);
    law_only_eight_attributes_are_kept_back(attrs, "media"@);
    law_only_eight_attributes_are_kept_back(attrs, "print-quality"@);
    law_only_eight_attributes_are_kept_back(attrs, "printer-resolution"@);
    law_only_eight_attributes_are_kept_back(attrs, "print-color-mode"@);
}

/// The attributes that are forwarded keep their order and their values, each as
/// often as the job has it, and one of the printer's own follows.
pub proof fn law_forwarded_attributes_keep_their_order(attrs: Seq<AttrView>, a: AttrView)
    ensures
        forwarded_attrs(Seq::<AttrView>::empty()) == seq![
            str_attr(0x44, "sides"@, "one-sided"@),
        ],
        a.name != "sides"@ && a.name != "copies"@ && a.name != "page-ranges"@ && a.name
            != "number-up"@ && a.name != "number-up-layout"@ && a.name != "page-border"@ && a.name
            != "multiple-document-handling"@ && a.name != "job-hold-until"@ ==> forwarded_attrs(
            attrs.push(a),
        ) == forwarded_attrs(attrs).drop_last().push(a).push(forwarded_attrs(attrs).last()),
        a.name == "sides"@ || a.name == "copies"@ || a.name == "page-ranges"@ || a.name
            == "number-up"@ || a.name == "number-up-layout"@ || a.name == "page-border"@ || a.name
            == "multiple-document-handling"@ || a.name == "job-hold-until"@ ==> forwarded_attrs(
            attrs.push(a),
        ) == forwarded_attrs(attrs),
{
    reveal(Seq::filter);
    let list = no_forward();
    assert(list[0] == "sides"@);
    assert(list[1] == "copies"@);
    assert(list[2] == "page-ranges"@);
    assert(list[3] == "number-up"@);
    assert(list[4] == "number-up-layout"@);
    assert(list[5] == "page-border"@);
    assert(list[6] == "multiple-document-handling"@);
    assert(list[7] == "job-hold-until"@);
    let none = Seq::<AttrView>::empty();
    assert(none.filter(|b: AttrView| !no_forward().contains(b.name)) =~= none);
    assert(forwarded_attrs(none) =~= seq![str_attr(0x44, "sides"@, "one-sided"@)]);
    assert(attrs.push(a).drop_last() =~= attrs);
    assert(attrs.push(a).last() == a);
    let sides = str_attr(T_KEYWORD, "sides"@, "one-sided"@);
    let kept = attrs.filter(|b: AttrView| !no_forward().contains(b.name));
    assert(forwarded_attrs(attrs).drop_last() =~= kept);
    assert(forwarded_attrs(attrs).last() == sides);
    if list.contains(a.name) {
        assert(attrs.push(a).filter(|b: AttrView| !no_forward().contains(b.name)) =~= kept);
    } else {
        assert(attrs.push(a).filter(|b: AttrView| !no_forward().contains(b.name)) =~= kept.push(a));
    }
}

/// An attribute of a request that has one group is found where it stands.
proof fn lemma_operation_attr(m: MsgView, i: int)
    requires
        m.groups.len() > 0,
        m.groups[0].tag == G_OPERATION,
        forall|h: int| 0 < h < m.groups.len() ==> (#[trigger] m.groups[h]).tag != G_OPERATION,
        0 <= i < m.groups[0].attrs.len(),
        forall|j: int|
            0 <= j < i ==> (#[trigger] m.groups[0].attrs[j]).name != m.groups[0].attrs[i].name,
    ensures
        m.find_in(G_OPERATION, m.groups[0].attrs[i].name) == Some(m.groups[0].attrs[i]),
{
    let name = m.groups[0].attrs[i].name;
    lemma_find_in_only_group(m, 0, name);
    lemma_first_named_at(m.groups[0].attrs, name, i);
}

/// The request for the state of a pass is about that pass, at that printer: the id
/// that the real printer gave it reads back from the request, and so does the
/// printer's address.
pub proof fn law_state_request_is_about_the_pass(uri: Seq<char>, remote_id: i32)
    ensures
        ({
            let m = state_msg(uri, remote_id);
            &&& m.op_status == 0x0009
            &&& number_of(m.find_in(0x01, "job-id"@)) == Some(remote_id)
            &&& m.find_in(0x01, "printer-uri"@) matches Some(a) && a.first_str() == Some(uri)
            &&& m.find_in(0x01, "requested-attributes"@) matches Some(a) && a.values.len() == 1
                && a.first_str() == Some("job-state"@)
            &&& m.data.len() == 0
        }),
{
    let m = state_msg(uri, remote_id);
    reveal_strlit("attributes-charset");
    reveal_strlit("attributes-natural-language");
    reveal_strlit("printer-uri");
    reveal_strlit("job-id");
    reveal_strlit("requested-attributes");
    assert("attributes-charset"@.len() == 18);
    assert("attributes-natural-language"@.len() == 27);
    assert("job-id"@.len() == 6);
    assert("requested-attributes"@.len() == 20);
    assert("printer-uri"@.len() == 11);
    let attrs = m.groups[0].attrs;
    assert(attrs[0].name == "attributes-charset"@);
    assert(attrs[1].name == "attributes-natural-language"@);
    assert(attrs[2].name == "printer-uri"@);
    assert(attrs[3].name == "job-id"@);
    assert(attrs[4].name == "requested-attributes"@);
    lemma_operation_attr(m, 2);
    lemma_operation_attr(m, 3);
    lemma_operation_attr(m, 4);
    law_int_reads_back(T_INTEGER, "job-id"@, remote_id);
    law_str_reads_back(T_URI, "printer-uri"@, uri);
    law_str_reads_back(T_KEYWORD, "requested-attributes"@, "job-state"@);
}

/// The request to cancel a pass is about that pass, at that printer.
pub proof fn law_cancel_request_is_about_the_pass(uri: Seq<char>, remote_id: i32)
    ensures
        ({
            let m = cancel_msg(uri, remote_id);
            &&& m.op_status == 0x0008
            &&& number_of(m.find_in(0x01, "job-id"@)) == Some(remote_id)
            &&& m.find_in(0x01, "printer-uri"@) matches Some(a) && a.first_str() == Some(uri)
            &&& m.data.len() == 0
        }),
{
    let m = cancel_msg(uri, remote_id);
    reveal_strlit("attributes-charset");
    reveal_strlit("attributes-natural-language");
    reveal_strlit("printer-uri");
    reveal_strlit("job-id");
    assert("attributes-charset"@.len() == 18);
    assert("attributes-natural-language"@.len() == 27);
    assert("job-id"@.len() == 6);
    assert("printer-uri"@.len() == 11);
    let attrs = m.groups[0].attrs;
    assert(attrs[0].name == "attributes-charset"@);
    assert(attrs[1].name == "attributes-natural-language"@);
    assert(attrs[2].name == "printer-uri"@);
    assert(attrs[3].name == "job-id"@);
    lemma_operation_attr(m, 2);
    lemma_operation_attr(m, 3);
    law_int_reads_back(T_INTEGER, "job-id"@, remote_id);
    law_str_reads_back(T_URI, "printer-uri"@, uri);
}

/// The request for a pass carries the document whole, and names the printer, the
/// user, the job and the format: each reads back from it. The job's options are
/// its job attributes.
pub proof fn law_pass_is_sent_as_it_is(
    uri: Seq<char>,
    name: Seq<char>,
    user: Seq<char>,
    attrs: Seq<AttrView>,
    data: Seq<u8>,
    option: Seq<char>,
)
    ensures
        ({
            let m = forward_msg(uri, name, user, attrs, data);
            &&& m.op_status == 0x0002
            &&& m.data == data
            &&& m.find_in(0x01, "printer-uri"@) matches Some(a) && a.first_str() == Some(uri)
            &&& m.find_in(0x01, "requesting-user-name"@) matches Some(a) && a.first_str() == Some(
                user,
            )
            &&& m.find_in(0x01, "job-name"@) matches Some(a) && a.first_str() == Some(name)
            &&& m.find_in(0x01, "document-format"@) matches Some(a) && a.first_str() == Some(
                "application/pdf"@,
            )
            &&& m.find_in(0x02, option) == first_named(forwarded_attrs(attrs), option)
        }),
{
    let m = forward_msg(uri, name, user, attrs, data);
    reveal_strlit("attributes-charset");
    reveal_strlit("attributes-natural-language");
    reveal_strlit("printer-uri");
    reveal_strlit("requesting-user-name");
    reveal_strlit("job-name");
    reveal_strlit("document-format");
    assert("attributes-charset"@.len() == 18);
    assert("attributes-natural-language"@.len() == 27);
    assert("requesting-user-name"@.len() == 20);
    assert("job-name"@.len() == 8);
    assert("document-format"@.len() == 15);
    assert("printer-uri"@.len() == 11);
    let op = m.groups[0].attrs;
    assert(m.groups[1].tag == G_JOB);
    assert(op[0].name == "attributes-charset"@);
    assert(op[1].name == "attributes-natural-language"@);
    assert(op[2].name == "printer-uri"@);
    assert(op[3].name == "requesting-user-name"@);
    assert(op[4].name == "job-name"@);
    assert(op[5].name == "document-format"@);
    lemma_operation_attr(m, 2);
    lemma_operation_attr(m, 3);
    lemma_operation_attr(m, 4);
    lemma_operation_attr(m, 5);
    law_str_reads_back(T_URI, "printer-uri"@, uri);
    law_str_reads_back(T_NAME, "requesting-user-name"@, user);
    law_str_reads_back(T_NAME, "job-name"@, name);
    law_str_reads_back(T_MIME, "document-format"@, "application/pdf"@);
    lemma_find_in_only_group(m, 1, option);
}

/// A pass is accepted exactly if the real printer replies with a status of success
/// and a job id, which is then the one that the pass goes by.
pub proof fn law_accepted_pass_has_the_printers_id(resp: MsgView)
    ensures
        forward_result(resp) is Ok <==> resp.op_status < 0x0100 && resp.find("job-id"@) is Some
            && resp.find("job-id"@).unwrap().first_int() is Some,
        forward_result(resp) matches Ok(id) ==> resp.find("job-id"@).unwrap().first_int() == Some(
            id,
        ),
        resp.op_status < 0x0100 ==> (forward_result(resp) matches Err(e) ==> e
            == "real printer returned no job-id"@),
        resp.op_status >= 0x0100 ==> (forward_result(resp) matches Err(e) && e
            == "real printer rejected the job (ipp status 0x"@ + hex_word(resp.op_status) + ")"@),
{
}

/// What the state of a pass means: 9 is printed, 7 and 8 are the end of it, and
/// anything else, no state included, is still to come. A request that failed says
/// nothing, unless it is the fifth in a row.
pub proof fn law_state_decides_the_watch(
    remote_id: i32,
    errors: u32,
    resp: MsgView,
    state: Option<i32>,
    e: Seq<char>,
)
    requires
        state == (match resp.find("job-state"@) {
            Some(a) => a.first_int(),
            None => None,
        }),
    ensures
        ({
            let told = watch(remote_id, errors, Ok(resp));
            &&& told is Printed <==> state == Some(9i32)
            &&& told is Lost <==> state == Some(7i32) || state == Some(8i32)
            &&& told is Again ==> told == WatchView::Again(0)
            &&& state == Some(7i32) ==> told == WatchView::Lost(
                "remote job "@ + decimal_int(remote_id as int) + " ended in state "@ + "canceled"@,
            )
            &&& state == Some(8i32) ==> told == WatchView::Lost(
                "remote job "@ + decimal_int(remote_id as int) + " ended in state "@ + "aborted"@,
            )
        }),
        errors < 4 ==> watch(remote_id, errors, Err(e)) == WatchView::Again((errors + 1) as u32),
        errors >= 4 ==> watch(remote_id, errors, Err(e)) == WatchView::Lost(
            "lost contact with real printer: "@ + e,
        ),
{
}

/// The fifth request in a row without a reply ends the watch; a reply starts the
/// count anew.
pub proof fn law_patience(remote_id: i32, errors: u32, reply: Result<MsgView, Seq<char>>)
    ensures
        reply is Err ==> (watch(remote_id, errors, reply) is Lost <==> errors >= 4),
        watch(remote_id, errors, reply) matches WatchView::Again(n) ==> n <= 4 && (reply is Ok
            ==> n == 0),
{
}

} // verus!
