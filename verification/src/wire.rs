//! What encoding and decoding a message undo of each other.

use crate::ipp::{
    add_value, be16, be32, close_group, encode_attr, encode_attrs, encode_groups, encode_more,
    encode_value, field, from_be16, from_be32, int_attr, parse_groups, parse_msg, str_attr,
    take_field, take_value, unsigned, AttrView, GroupView, MsgView, G_END,
};
use crate::text::lossy;
use vstd::prelude::*;
use vstd::utf8::*;

verus! {

// -------------------------------------------------- what fits the encoding

/// A value that the encoding can carry: its tag is no delimiter and its length
/// fits sixteen bits.
pub open spec fn value_fits(v: (u8, Seq<u8>)) -> bool {
    v.0 > 0x0f && v.1.len() < 0x10000
}

/// A name that the encoding can carry: not empty, and its length fits.
pub open spec fn name_fits(name: Seq<char>) -> bool {
    0 < encode_utf8(name).len() < 0x10000
}

/// An attribute that the encoding can carry.
pub open spec fn attr_fits(a: AttrView) -> bool {
    &&& name_fits(a.name)
    &&& a.values.len() > 0
    &&& forall|i: int| 0 <= i < a.values.len() ==> value_fits(#[trigger] a.values[i])
}

/// A group that the encoding can carry: its tag is a delimiter, not the end.
pub open spec fn group_fits(g: GroupView) -> bool {
    &&& g.tag <= 0x0f
    &&& g.tag != G_END
    &&& forall|i: int| 0 <= i < g.attrs.len() ==> attr_fits(#[trigger] g.attrs[i])
}

/// A message that the encoding can carry.
pub open spec fn msg_fits(m: MsgView) -> bool {
    forall|i: int| 0 <= i < m.groups.len() ==> group_fits(#[trigger] m.groups[i])
}

// --------------------------------------------------- decoding what was encoded

proof fn lemma_be16(n: nat)
    requires
        n < 0x10000,
    ensures
        be16(n).len() == 2,
        from_be16(be16(n)[0], be16(n)[1]) == n,
{
}

proof fn lemma_be32(n: nat)
    requires
        n < 0x1_0000_0000,
    ensures
        be32(n).len() == 4,
        from_be32(be32(n)[0], be32(n)[1], be32(n)[2], be32(n)[3]) == n,
{
}

proof fn lemma_take_field(bytes: Seq<u8>, rest: Seq<u8>)
    requires
        bytes.len() < 0x10000,
    ensures
        take_field(field(bytes) + rest) == Some((bytes, rest)),
{
    let s = field(bytes) + rest;
    lemma_be16(bytes.len());
    assert(s[0] == be16(bytes.len())[0]);
    assert(s[1] == be16(bytes.len())[1]);
    assert(s.subrange(2, 2 + bytes.len() as int) =~= bytes);
    assert(s.skip(2 + bytes.len() as int) =~= rest);
}

proof fn lemma_take_value(tag: u8, name: Seq<u8>, value: Seq<u8>, rest: Seq<u8>)
    requires
        name.len() < 0x10000,
        value.len() < 0x10000,
    ensures
        take_value(encode_value(tag, name, value) + rest) == Some((name, value, rest)),
        (encode_value(tag, name, value) + rest)[0] == tag,
        (encode_value(tag, name, value) + rest).len() > 0,
{
    let s = encode_value(tag, name, value) + rest;
    assert(s.skip(1) =~= field(name) + (field(value) + rest));
    lemma_take_field(name, field(value) + rest);
    lemma_take_field(value, rest);
}

/// One encoded value is read, and what follows it is left.
proof fn lemma_parse_value(
    tag: u8,
    name: Seq<u8>,
    value: Seq<u8>,
    tail: Seq<u8>,
    done: Seq<GroupView>,
    g: GroupView,
    attrs: Seq<AttrView>,
)
    requires
        tag > 0x0f,
        name.len() < 0x10000,
        value.len() < 0x10000,
        add_value(g.attrs, tag, name, value) == Some(attrs),
    ensures
        parse_groups(encode_value(tag, name, value) + tail, done, Some(g)) == parse_groups(
            tail,
            done,
            Some(GroupView { attrs, ..g }),
        ),
{
    lemma_take_value(tag, name, value, tail);
}

proof fn lemma_parse_more(
    values: Seq<(u8, Seq<u8>)>,
    rest: Seq<u8>,
    done: Seq<GroupView>,
    g: GroupView,
    front: Seq<AttrView>,
    last: AttrView,
)
    requires
        g.attrs == front.push(last),
        forall|i: int| 0 <= i < values.len() ==> value_fits(#[trigger] values[i]),
    ensures
        parse_groups(encode_more(values) + rest, done, Some(g)) == parse_groups(
            rest,
            done,
            Some(
                GroupView {
                    attrs: front.push(AttrView { values: last.values + values, ..last }),
                    ..g
                },
            ),
        ),
    decreases values.len(),
{
    if values.len() == 0 {
        assert(encode_more(values) + rest =~= rest);
        assert(last.values + values =~= last.values);
    } else {
        let v = values[0];
        let others = values.drop_first();
        let tail = encode_more(others) + rest;
        let next = AttrView { values: last.values.push(v), ..last };
        let attrs = front.push(next);
        assert(value_fits(v));
        assert(g.attrs.drop_last() =~= front);
        assert(add_value(g.attrs, v.0, seq![], v.1) == Some(attrs));
        lemma_parse_value(v.0, seq![], v.1, tail, done, g, attrs);
        assert(encode_more(values) + rest =~= encode_value(v.0, seq![], v.1) + tail);
        assert forall|i: int| 0 <= i < others.len() implies value_fits(#[trigger] others[i]) by {
            assert(others[i] == values[i + 1]);
        }
        lemma_parse_more(others, rest, done, GroupView { attrs, ..g }, front, next);
        assert(next.values + others =~= last.values + values);
    }
}

proof fn lemma_parse_attr(a: AttrView, rest: Seq<u8>, done: Seq<GroupView>, g: GroupView)
    requires
        attr_fits(a),
    ensures
        parse_groups(encode_attr(a) + rest, done, Some(g)) == parse_groups(
            rest,
            done,
            Some(GroupView { attrs: g.attrs.push(a), ..g }),
        ),
{
    let v = a.values[0];
    let name = encode_utf8(a.name);
    let more = a.values.drop_first();
    let first = AttrView { name: a.name, values: seq![v] };
    let attrs = g.attrs.push(first);
    assert(value_fits(v));
    encode_utf8_valid_utf8(a.name);
    encode_utf8_decode_utf8(a.name);
    assert(add_value(g.attrs, v.0, name, v.1) == Some(attrs));
    lemma_parse_value(v.0, name, v.1, encode_more(more) + rest, done, g, attrs);
    assert(encode_attr(a) + rest =~= encode_value(v.0, name, v.1) + (encode_more(more) + rest));
    assert forall|i: int| 0 <= i < more.len() implies value_fits(#[trigger] more[i]) by {
        assert(more[i] == a.values[i + 1]);
    }
    lemma_parse_more(more, rest, done, GroupView { attrs, ..g }, g.attrs, first);
    assert(first.values + more =~= a.values);
}

proof fn lemma_parse_attrs(
    attrs: Seq<AttrView>,
    rest: Seq<u8>,
    done: Seq<GroupView>,
    g: GroupView,
)
    requires
        forall|i: int| 0 <= i < attrs.len() ==> attr_fits(#[trigger] attrs[i]),
    ensures
        parse_groups(encode_attrs(attrs) + rest, done, Some(g)) == parse_groups(
            rest,
            done,
            Some(GroupView { attrs: g.attrs + attrs, ..g }),
        ),
    decreases attrs.len(),
{
    if attrs.len() == 0 {
        assert(encode_attrs(attrs) + rest =~= rest);
        assert(g.attrs + attrs =~= g.attrs);
    } else {
        let others = attrs.drop_first();
        let tail = encode_attrs(others) + rest;
        assert(attr_fits(attrs[0]));
        lemma_parse_attr(attrs[0], tail, done, g);
        assert forall|i: int| 0 <= i < others.len() implies attr_fits(#[trigger] others[i]) by {
            assert(others[i] == attrs[i + 1]);
        }
        lemma_parse_attrs(others, rest, done, GroupView { attrs: g.attrs.push(attrs[0]), ..g });
        lemma_encode_attrs_first(attrs, rest);
        assert(g.attrs.push(attrs[0]) + others =~= g.attrs + attrs);
    }
}

proof fn lemma_encode_attrs_first(attrs: Seq<AttrView>, rest: Seq<u8>)
    requires
        attrs.len() > 0,
    ensures
        encode_attrs(attrs) + rest == encode_attr(attrs[0]) + (encode_attrs(attrs.drop_first())
            + rest),
{
    assert(encode_attrs(attrs) + rest =~= encode_attr(attrs[0]) + (encode_attrs(
        attrs.drop_first(),
    ) + rest));
}

proof fn lemma_parse_group(
    g: GroupView,
    rest: Seq<u8>,
    done: Seq<GroupView>,
    cur: Option<GroupView>,
)
    requires
        group_fits(g),
    ensures
        parse_groups(seq![g.tag] + encode_attrs(g.attrs) + rest, done, cur) == parse_groups(
            rest,
            close_group(done, cur),
            Some(g),
        ),
{
    let s = seq![g.tag] + encode_attrs(g.attrs) + rest;
    assert(s[0] == g.tag);
    assert(s.skip(1) =~= encode_attrs(g.attrs) + rest);
    let empty = GroupView { tag: g.tag, attrs: seq![] };
    lemma_parse_attrs(g.attrs, rest, close_group(done, cur), empty);
    assert(empty.attrs + g.attrs =~= g.attrs);
    assert(GroupView { attrs: g.attrs, ..empty } == g);
}

proof fn lemma_parse_end(data: Seq<u8>, done: Seq<GroupView>, cur: Option<GroupView>)
    ensures
        parse_groups(seq![G_END] + data, done, cur) == Ok::<
            (Seq<GroupView>, Seq<u8>),
            Seq<char>,
        >((close_group(done, cur), data)),
{
    assert((seq![G_END] + data).skip(1) =~= data);
}

proof fn lemma_encode_groups_split(groups: Seq<GroupView>, tail: Seq<u8>)
    requires
        groups.len() > 0,
    ensures
        encode_groups(groups) + tail == seq![groups[0].tag] + encode_attrs(groups[0].attrs) + (
        encode_groups(groups.drop_first()) + tail),
{
    assert(encode_groups(groups) + tail =~= seq![groups[0].tag] + encode_attrs(groups[0].attrs) + (
    encode_groups(groups.drop_first()) + tail));
}

/// The bytes after the groups of a message: the end tag and the data, or nothing
/// at all where there is no data.
spec fn ends_with(end: Seq<u8>, data: Seq<u8>) -> bool {
    end == seq![G_END] + data || (end.len() == 0 && data.len() == 0)
}

#[verifier::spinoff_prover]
proof fn lemma_parse_groups(
    groups: Seq<GroupView>,
    end: Seq<u8>,
    data: Seq<u8>,
    done: Seq<GroupView>,
    cur: Option<GroupView>,
)
    requires
        forall|i: int| 0 <= i < groups.len() ==> group_fits(#[trigger] groups[i]),
        ends_with(end, data),
    ensures
        parse_groups(encode_groups(groups) + end, done, cur) == Ok::<
            (Seq<GroupView>, Seq<u8>),
            Seq<char>,
        >((close_group(done, cur) + groups, data)),
    decreases groups.len(),
{
    if groups.len() == 0 {
        assert(encode_groups(groups) + end =~= end);
        if end.len() > 0 {
            lemma_parse_end(data, done, cur);
        } else {
            assert(data =~= seq![]);
        }
        assert(close_group(done, cur) + groups =~= close_group(done, cur));
    } else {
        let g = groups[0];
        let others = groups.drop_first();
        assert(group_fits(g));
        lemma_encode_groups_split(groups, end);
        lemma_parse_group(g, encode_groups(others) + end, done, cur);
        assert forall|i: int| 0 <= i < others.len() implies group_fits(#[trigger] others[i]) by {
            assert(others[i] == groups[i + 1]);
        }
        lemma_parse_groups(others, end, data, close_group(done, cur), Some(g));
        assert(close_group(done, cur).push(g) + others =~= close_group(done, cur) + groups);
    }
}

/// A header, the groups and their end are read as the message they were made of.
proof fn lemma_parse_parts(m: MsgView, end: Seq<u8>)
    requires
        msg_fits(m),
        ends_with(end, m.data),
        m.groups.len() > 0 || end.len() > 0,
    ensures
        parse_msg(m.header() + (encode_groups(m.groups) + end)) == Ok::<MsgView, Seq<char>>(m),
{
    let body = encode_groups(m.groups) + end;
    let buf = m.header() + body;
    lemma_be16(m.op_status as nat);
    lemma_be32(m.request_id as nat);
    if m.groups.len() > 0 {
        lemma_encode_groups_split(m.groups, end);
    }
    assert(buf.skip(8) =~= body);
    assert(buf[2] == be16(m.op_status as nat)[0]);
    assert(buf[3] == be16(m.op_status as nat)[1]);
    assert(buf[4] == be32(m.request_id as nat)[0]);
    assert(buf[5] == be32(m.request_id as nat)[1]);
    assert(buf[6] == be32(m.request_id as nat)[2]);
    assert(buf[7] == be32(m.request_id as nat)[3]);
    lemma_parse_groups(m.groups, end, m.data, seq![], None);
    assert(Seq::<GroupView>::empty() + m.groups =~= m.groups);
}

/// Decoding an encoded message gives the message back: every message that fits
/// the encoding survives the round trip whole, unknown attributes included.
pub proof fn law_parse_encode(m: MsgView)
    requires
        msg_fits(m),
    ensures
        parse_msg(m.encode()) == Ok::<MsgView, Seq<char>>(m),
{
    let end = seq![G_END] + m.data;
    lemma_parse_parts(m, end);
    assert(m.encode() =~= m.header() + (encode_groups(m.groups) + end));
}

/// A missing end tag is tolerated: where no data follows the groups, the encoding
/// without its last byte, the end tag, is decoded as the whole encoding is.
pub proof fn law_end_tag_may_be_missing(m: MsgView)
    requires
        msg_fits(m),
        m.groups.len() > 0,
        m.data.len() == 0,
    ensures
        m.encode().last() == G_END,
        parse_msg(m.encode().drop_last()) == Ok::<MsgView, Seq<char>>(m),
        parse_msg(m.encode().drop_last()) == parse_msg(m.encode()),
{
    law_parse_encode(m);
    lemma_parse_parts(m, seq![]);
    assert(m.encode().drop_last() =~= m.header() + (encode_groups(m.groups) + seq![]));
}

/// The first value of an integer attribute reads back as that integer.
pub proof fn law_int_reads_back(tag: u8, name: Seq<char>, v: i32)
    ensures
        int_attr(tag, name, v).first_int() == Some(v),
{
    lemma_be32(unsigned(v));
}

/// The first value of a text attribute reads back as that text.
pub proof fn law_str_reads_back(tag: u8, name: Seq<char>, v: Seq<char>)
    ensures
        str_attr(tag, name, v).first_str() == Some(v),
{
    encode_utf8_valid_utf8(v);
    encode_utf8_decode_utf8(v);
}

// --------------------------------------------------- encoding what was decoded

/// The bytes after a header reach the end tag.
pub open spec fn has_end_tag(s: Seq<u8>) -> bool
    decreases s.len(),
{
    if s.len() == 0 {
        false
    } else if s[0] == G_END {
        true
    } else if s[0] <= 0x0f {
        has_end_tag(s.skip(1))
    } else {
        match take_value(s) {
            Some((name, value, rest)) => has_end_tag(rest),
            None => false,
        }
    }
}

/// The bytes after a header spell every name in UTF-8, up to the end tag or to
/// their own end.
pub open spec fn has_plain_names(s: Seq<u8>) -> bool
    decreases s.len(),
{
    if s.len() == 0 || s[0] == G_END {
        true
    } else if s[0] <= 0x0f {
        has_plain_names(s.skip(1))
    } else {
        match take_value(s) {
            Some((name, value, rest)) => valid_utf8(name) && has_plain_names(rest),
            None => false,
        }
    }
}

/// The bytes after a header spell every name in UTF-8 and reach the end tag.
pub open spec fn plain(s: Seq<u8>) -> bool {
    has_plain_names(s) && has_end_tag(s)
}

proof fn lemma_field_of_taken(s: Seq<u8>)
    ensures
        take_field(s) matches Some((bytes, rest)) ==> bytes.len() < 0x10000 && field(bytes) + rest
            == s,
{
    if let Some((bytes, rest)) = take_field(s) {
        assert(field(bytes) + rest =~= s);
    }
}

proof fn lemma_value_of_taken(s: Seq<u8>)
    requires
        s.len() > 0,
    ensures
        take_value(s) matches Some((name, value, rest)) ==> value.len() < 0x10000 && encode_value(
            s[0],
            name,
            value,
        ) + rest == s,
{
    if let Some((name, value, rest)) = take_value(s) {
        lemma_field_of_taken(s.skip(1));
        let (n, after) = take_field(s.skip(1)).unwrap();
        lemma_field_of_taken(after);
        assert(s =~= seq![s[0]] + s.skip(1));
        assert(encode_value(s[0], name, value) + rest =~= seq![s[0]] + (field(name) + (field(value)
            + rest)));
    }
}

proof fn lemma_encode_more_push(values: Seq<(u8, Seq<u8>)>, v: (u8, Seq<u8>))
    ensures
        encode_more(values.push(v)) == encode_more(values) + encode_value(v.0, seq![], v.1),
    decreases values.len(),
{
    if values.len() == 0 {
        assert(values.push(v).drop_first() =~= values);
        assert(encode_more(values.push(v)) =~= encode_more(values) + encode_value(
            v.0,
            seq![],
            v.1,
        ));
    } else {
        lemma_encode_more_push(values.drop_first(), v);
        assert(values.push(v).drop_first() =~= values.drop_first().push(v));
        assert(encode_more(values.push(v)) =~= encode_more(values) + encode_value(
            v.0,
            seq![],
            v.1,
        ));
    }
}

proof fn lemma_encode_attr_push(a: AttrView, v: (u8, Seq<u8>))
    requires
        a.values.len() > 0,
    ensures
        encode_attr(AttrView { values: a.values.push(v), ..a }) == encode_attr(a) + encode_value(
            v.0,
            seq![],
            v.1,
        ),
{
    lemma_encode_more_push(a.values.drop_first(), v);
    assert(a.values.push(v).drop_first() =~= a.values.drop_first().push(v));
    assert(encode_attr(AttrView { values: a.values.push(v), ..a }) =~= encode_attr(a)
        + encode_value(v.0, seq![], v.1));
}

proof fn lemma_encode_attrs_push(attrs: Seq<AttrView>, a: AttrView)
    ensures
        encode_attrs(attrs.push(a)) == encode_attrs(attrs) + encode_attr(a),
    decreases attrs.len(),
{
    if attrs.len() == 0 {
        assert(attrs.push(a).drop_first() =~= attrs);
        assert(encode_attrs(attrs.push(a)) =~= encode_attrs(attrs) + encode_attr(a));
    } else {
        lemma_encode_attrs_push(attrs.drop_first(), a);
        assert(attrs.push(a).drop_first() =~= attrs.drop_first().push(a));
        assert(encode_attrs(attrs.push(a)) =~= encode_attrs(attrs) + encode_attr(a));
    }
}

proof fn lemma_encode_groups_push(groups: Seq<GroupView>, g: GroupView)
    ensures
        encode_groups(groups.push(g)) == encode_groups(groups) + (seq![g.tag] + encode_attrs(
            g.attrs,
        )),
    decreases groups.len(),
{
    if groups.len() == 0 {
        assert(groups.push(g).drop_first() =~= groups);
        assert(encode_groups(groups.push(g)) =~= encode_groups(groups) + (seq![g.tag]
            + encode_attrs(g.attrs)));
    } else {
        lemma_encode_groups_push(groups.drop_first(), g);
        assert(groups.push(g).drop_first() =~= groups.drop_first().push(g));
        assert(encode_groups(groups.push(g)) =~= encode_groups(groups) + (seq![g.tag]
            + encode_attrs(g.attrs)));
    }
}

/// Every attribute has a name and a value, and every value fits.
spec fn attrs_hold(attrs: Seq<AttrView>) -> bool {
    forall|i: int|
        #![trigger attrs[i]]
        0 <= i < attrs.len() ==> attrs[i].name.len() > 0 && attrs[i].values.len() > 0 && forall|
            j: int,
        |
            0 <= j < attrs[i].values.len() ==> value_fits(#[trigger] attrs[i].values[j])
}

/// Every group tag is a delimiter, not the end, and every group's attributes hold.
spec fn groups_hold(groups: Seq<GroupView>) -> bool {
    forall|i: int|
        #![trigger groups[i]]
        0 <= i < groups.len() ==> groups[i].tag <= 0x0f && groups[i].tag != G_END && attrs_hold(
            groups[i].attrs,
        )
}

/// No text is lost whole when bytes are decoded.
proof fn lemma_lossy_text(bytes: Seq<u8>)
    requires
        bytes.len() > 0,
    ensures
        lossy(bytes).len() > 0,
{
    if valid_utf8(bytes) {
        decode_utf8_encode_utf8(bytes);
        if decode_utf8(bytes).len() == 0 {
            assert(encode_utf8(decode_utf8(bytes)).len() == 0);
        }
    }
}

proof fn lemma_add_value_holds(attrs: Seq<AttrView>, tag: u8, name: Seq<u8>, value: Seq<u8>)
    requires
        attrs_hold(attrs),
        tag > 0x0f,
        value.len() < 0x10000,
    ensures
        add_value(attrs, tag, name, value) matches Some(more) ==> attrs_hold(more),
{
    if let Some(more) = add_value(attrs, tag, name, value) {
        assert forall|i: int|
            #![trigger more[i]]
            0 <= i < more.len() implies more[i].name.len() > 0 && more[i].values.len() > 0
            && forall|j: int|
            0 <= j < more[i].values.len() ==> value_fits(#[trigger] more[i].values[j]) by {
            if i < more.len() - 1 {
                assert(more[i] == attrs[i]);
            } else if name.len() > 0 {
                lemma_lossy_text(name);
            } else {
                let last = attrs[attrs.len() - 1];
                assert forall|j: int| 0 <= j < more[i].values.len() implies value_fits(
                    #[trigger] more[i].values[j],
                ) by {
                    if j < last.values.len() {
                        assert(more[i].values[j] == last.values[j]);
                    }
                }
            }
        }
    }
}

proof fn lemma_encode_added(attrs: Seq<AttrView>, tag: u8, name: Seq<u8>, value: Seq<u8>)
    requires
        attrs_hold(attrs),
        valid_utf8(name),
    ensures
        add_value(attrs, tag, name, value) matches Some(more) ==> encode_attrs(more)
            == encode_attrs(attrs) + encode_value(tag, name, value),
{
    if let Some(more) = add_value(attrs, tag, name, value) {
        if name.len() > 0 {
            let a = AttrView { name: lossy(name), values: seq![(tag, value)] };
            lemma_encode_attrs_push(attrs, a);
            decode_utf8_encode_utf8(name);
            assert(a.values.drop_first() =~= seq![]);
            assert(encode_attr(a) =~= encode_value(tag, name, value));
        } else {
            let last = attrs.last();
            let init = attrs.drop_last();
            let v = (tag, value);
            assert(attrs[attrs.len() - 1].values.len() > 0);
            let last2 = AttrView { values: last.values.push(v), ..last };
            lemma_encode_attr_push(last, v);
            lemma_encode_attrs_push(init, last);
            lemma_encode_attrs_push(init, last2);
            assert(init.push(last) =~= attrs);
            assert(name =~= seq![]);
            assert(encode_attrs(more) =~= encode_attrs(attrs) + encode_value(tag, name, value));
        }
    }
}

proof fn lemma_groups_hold_push(groups: Seq<GroupView>, g: GroupView)
    requires
        groups_hold(groups),
        g.tag <= 0x0f,
        g.tag != G_END,
        attrs_hold(g.attrs),
    ensures
        groups_hold(groups.push(g)),
{
    assert forall|i: int| #![trigger groups.push(g)[i]] 0 <= i < groups.push(g).len() implies
        groups.push(g)[i].tag <= 0x0f && groups.push(g)[i].tag != G_END && attrs_hold(
        groups.push(g)[i].attrs,
    ) by {
        if i < groups.len() {
            assert(groups.push(g)[i] == groups[i]);
        }
    }
}

proof fn lemma_groups_hold_pop(groups: Seq<GroupView>, g: GroupView)
    requires
        groups_hold(groups.push(g)),
    ensures
        groups_hold(groups),
        g.tag <= 0x0f,
        g.tag != G_END,
        attrs_hold(g.attrs),
{
    assert(groups.push(g)[groups.len() as int] == g);
    assert forall|i: int| #![trigger groups[i]] 0 <= i < groups.len() implies groups[i].tag <= 0x0f
        && groups[i].tag != G_END && attrs_hold(groups[i].attrs) by {
        assert(groups.push(g)[i] == groups[i]);
    }
}

proof fn lemma_parsed_holds(s: Seq<u8>, done: Seq<GroupView>, cur: Option<GroupView>)
    requires
        groups_hold(close_group(done, cur)),
    ensures
        parse_groups(s, done, cur) matches Ok((groups, data)) ==> groups_hold(groups),
    decreases s.len(),
{
    if s.len() == 0 || s[0] == G_END {
    } else if s[0] <= 0x0f {
        let closed = close_group(done, cur);
        let g = GroupView { tag: s[0], attrs: seq![] };
        lemma_groups_hold_push(closed, g);
        lemma_parsed_holds(s.skip(1), closed, Some(g));
    } else if let Some((name, value, rest)) = take_value(s) {
        if let Some(g) = cur {
            lemma_value_of_taken(s);
            lemma_groups_hold_pop(done, g);
            lemma_add_value_holds(g.attrs, s[0], name, value);
            if let Some(attrs) = add_value(g.attrs, s[0], name, value) {
                let g2 = GroupView { attrs, ..g };
                lemma_groups_hold_push(done, g2);
                lemma_parsed_holds(rest, done, Some(g2));
            }
        }
    }
}

/// What is encoded so far and what is still to be read, with one value moved over.
proof fn lemma_value_moved(
    s: Seq<u8>,
    done: Seq<GroupView>,
    g: GroupView,
    attrs: Seq<AttrView>,
    value: Seq<u8>,
    rest: Seq<u8>,
)
    requires
        encode_attrs(attrs) == encode_attrs(g.attrs) + value,
        s == value + rest,
    ensures
        encode_groups(done.push(GroupView { attrs, ..g })) + rest == encode_groups(done.push(g))
            + s,
{
    lemma_encode_groups_push(done, g);
    lemma_encode_groups_push(done, GroupView { attrs, ..g });
    assert(encode_groups(done.push(GroupView { attrs, ..g })) + rest =~= encode_groups(done.push(g))
        + s);
}

/// What is encoded so far and what is still to be read, with a delimiter moved over.
proof fn lemma_delimiter_moved(s: Seq<u8>, closed: Seq<GroupView>)
    requires
        s.len() > 0,
    ensures
        encode_groups(closed.push(GroupView { tag: s[0], attrs: seq![] })) + s.skip(1)
            == encode_groups(closed) + s,
{
    let g = GroupView { tag: s[0], attrs: seq![] };
    lemma_encode_groups_push(closed, g);
    assert(encode_groups(closed.push(g)) + s.skip(1) =~= encode_groups(closed) + s);
}

#[verifier::spinoff_prover]
proof fn lemma_encode_parsed(s: Seq<u8>, done: Seq<GroupView>, cur: Option<GroupView>)
    requires
        has_plain_names(s),
        groups_hold(close_group(done, cur)),
    ensures
        parse_groups(s, done, cur) matches Ok((groups, data)) ==> if has_end_tag(s) {
            encode_groups(groups) + (seq![G_END] + data) == encode_groups(close_group(done, cur))
                + s
        } else {
            encode_groups(groups) == encode_groups(close_group(done, cur)) + s && data.len() == 0
        },
    decreases s.len(),
{
    let closed = close_group(done, cur);
    if s.len() == 0 {
        assert(encode_groups(closed) + s =~= encode_groups(closed));
    } else if s[0] == G_END {
        assert(seq![G_END] + s.skip(1) =~= s);
    } else if s[0] <= 0x0f {
        let g = GroupView { tag: s[0], attrs: seq![] };
        lemma_groups_hold_push(closed, g);
        lemma_encode_parsed(s.skip(1), closed, Some(g));
        lemma_delimiter_moved(s, closed);
    } else {
        let (name, value, rest) = take_value(s).unwrap();
        if let Some(g) = cur {
            lemma_value_of_taken(s);
            lemma_groups_hold_pop(done, g);
            lemma_add_value_holds(g.attrs, s[0], name, value);
            lemma_encode_added(g.attrs, s[0], name, value);
            if let Some(attrs) = add_value(g.attrs, s[0], name, value) {
                let g2 = GroupView { attrs, ..g };
                lemma_groups_hold_push(done, g2);
                lemma_encode_parsed(rest, done, Some(g2));
                lemma_value_moved(s, done, g, attrs, encode_value(s[0], name, value), rest);
            }
        }
    }
}

proof fn lemma_from_be16(a: u8, b: u8)
    ensures
        be16(from_be16(a, b)) == seq![a, b],
        from_be16(a, b) < 0x10000,
{
    assert(be16(from_be16(a, b)) =~= seq![a, b]);
}

proof fn lemma_from_be32(a: u8, b: u8, c: u8, d: u8)
    ensures
        be32(from_be32(a, b, c, d)) == seq![a, b, c, d],
        from_be32(a, b, c, d) < 0x1_0000_0000,
{
    let n = from_be32(a, b, c, d) as int;
    assert(n / 256 == a * 0x10000 + b * 256 + c && n % 256 == d) by (nonlinear_arith)
        requires
            n == a * 0x1000000 + b * 0x10000 + c * 256 + d,
            0 <= d < 256,
    ;
    let m = a * 0x10000 + b * 256 + c;
    assert(m / 256 == a * 256 + b && m % 256 == c) by (nonlinear_arith)
        requires
            m == a * 0x10000 + b * 256 + c,
            0 <= c < 256,
    ;
    assert(n / 0x10000 == m / 256) by (nonlinear_arith)
        requires
            n / 256 == m,
    ;
    assert(n / 0x1000000 == (n / 0x10000) / 256) by (nonlinear_arith);
    assert(be32(from_be32(a, b, c, d)) =~= seq![a, b, c, d]);
}

proof fn lemma_header_of_parsed(buf: Seq<u8>, m: MsgView)
    requires
        buf.len() >= 8,
        m.version == (buf[0], buf[1]),
        m.op_status == from_be16(buf[2], buf[3]) as u16,
        m.request_id == from_be32(buf[4], buf[5], buf[6], buf[7]) as u32,
    ensures
        m.header() == buf.take(8),
{
    lemma_from_be16(buf[2], buf[3]);
    lemma_from_be32(buf[4], buf[5], buf[6], buf[7]);
    assert(m.header() =~= buf.take(8));
}

/// Encoding a decoded message gives the bytes back: where the names are UTF-8
/// and the end tag is there, no byte changes on the way through.
pub proof fn law_encode_parse(buf: Seq<u8>)
    requires
        buf.len() >= 9,
        plain(buf.skip(8)),
    ensures
        parse_msg(buf) matches Ok(m) ==> m.encode() == buf,
{
    if let Ok(m) = parse_msg(buf) {
        lemma_encode_parsed(buf.skip(8), seq![], None);
        assert(encode_groups(seq![]) + buf.skip(8) =~= buf.skip(8));
        lemma_header_of_parsed(buf, m);
        assert(m.encode() =~= m.header() + (encode_groups(m.groups) + (seq![G_END] + m.data)));
        assert(buf =~= buf.take(8) + buf.skip(8));
    }
}

/// A decoded message without an end tag gets one when it is encoded: where the
/// names are UTF-8, its encoding is the bytes that it was read from and the tag.
pub proof fn law_encoding_adds_the_end_tag(buf: Seq<u8>)
    requires
        buf.len() >= 9,
        has_plain_names(buf.skip(8)),
        !has_end_tag(buf.skip(8)),
    ensures
        parse_msg(buf) matches Ok(m) ==> m.encode() == buf.push(G_END),
{
    if let Ok(m) = parse_msg(buf) {
        lemma_encode_parsed(buf.skip(8), seq![], None);
        assert(encode_groups(seq![]) + buf.skip(8) =~= buf.skip(8));
        lemma_header_of_parsed(buf, m);
        assert(buf =~= buf.take(8) + buf.skip(8));
        assert(m.encode() =~= buf.push(G_END));
    }
}

proof fn lemma_take_field_more(s: Seq<u8>, more: Seq<u8>)
    ensures
        take_field(s) matches Some((bytes, rest)) ==> take_field(s + more) == Some(
            (bytes, rest + more),
        ),
{
    if let Some((bytes, rest)) = take_field(s) {
        lemma_field_of_taken(s);
        lemma_take_field(bytes, rest + more);
        assert(field(bytes) + (rest + more) =~= s + more);
    }
}

proof fn lemma_take_value_more(s: Seq<u8>, more: Seq<u8>)
    requires
        s.len() > 0,
    ensures
        take_value(s) matches Some((name, value, rest)) ==> take_value(s + more) == Some(
            (name, value, rest + more),
        ),
{
    if let Some((name, value, rest)) = take_value(s) {
        lemma_take_field_more(s.skip(1), more);
        let (n, after) = take_field(s.skip(1)).unwrap();
        lemma_take_field_more(after, more);
        assert((s + more).skip(1) =~= s.skip(1) + more);
    }
}

proof fn lemma_parse_more_data(
    s: Seq<u8>,
    more: Seq<u8>,
    done: Seq<GroupView>,
    cur: Option<GroupView>,
)
    requires
        has_end_tag(s),
    ensures
        parse_groups(s + more, done, cur) == (match parse_groups(s, done, cur) {
            Ok((groups, data)) => Ok((groups, data + more)),
            Err(e) => Err(e),
        }),
    decreases s.len(),
{
    assert((s + more)[0] == s[0]);
    assert((s + more).skip(1) =~= s.skip(1) + more);
    if s[0] == G_END {
    } else if s[0] <= 0x0f {
        let g = GroupView { tag: s[0], attrs: seq![] };
        lemma_parse_more_data(s.skip(1), more, close_group(done, cur), Some(g));
    } else {
        let (name, value, rest) = take_value(s).unwrap();
        lemma_take_value_more(s, more);
        if let Some(g) = cur {
            if let Some(attrs) = add_value(g.attrs, s[0], name, value) {
                lemma_parse_more_data(rest, more, done, Some(GroupView { attrs, ..g }));
            }
        }
    }
}

/// What follows the end tag is data: more bytes after it only extend the data,
/// and make no failure a success.
pub proof fn law_data_follows_the_end_tag(buf: Seq<u8>, more: Seq<u8>)
    requires
        buf.len() >= 9,
        has_end_tag(buf.skip(8)),
    ensures
        parse_msg(buf + more) == (match parse_msg(buf) {
            Ok(m) => Ok(MsgView { data: m.data + more, ..m }),
            Err(e) => Err(e),
        }),
{
    assert((buf + more).skip(8) =~= buf.skip(8) + more);
    lemma_parse_more_data(buf.skip(8), more, seq![], None);
}

/// The names of a message fit their length fields.
pub open spec fn names_fit(m: MsgView) -> bool {
    forall|i: int, j: int|
        #![trigger m.groups[i].attrs[j]]
        0 <= i < m.groups.len() && 0 <= j < m.groups[i].attrs.len() ==> encode_utf8(
            m.groups[i].attrs[j].name,
        ).len() < 0x10000
}

/// Every attribute of a decoded message has a name, whatever the bytes were, and
/// at least one value.
pub proof fn law_decoded_attributes_are_named(buf: Seq<u8>)
    ensures
        parse_msg(buf) matches Ok(m) ==> forall|i: int, j: int|
            #![trigger m.groups[i].attrs[j]]
            0 <= i < m.groups.len() && 0 <= j < m.groups[i].attrs.len()
                ==> m.groups[i].attrs[j].name.len() > 0 && m.groups[i].attrs[j].values.len() > 0,
{
    if let Ok(m) = parse_msg(buf) {
        lemma_parsed_holds(buf.skip(8), seq![], None);
        assert forall|i: int, j: int|
            #![trigger m.groups[i].attrs[j]]
            0 <= i < m.groups.len() && 0 <= j < m.groups[i].attrs.len() implies
            m.groups[i].attrs[j].name.len() > 0 && m.groups[i].attrs[j].values.len() > 0 by {
            assert(attrs_hold(m.groups[i].attrs));
        }
    }
}

/// A decoded message fits the encoding if its names do: names alone can grow,
/// where replacement characters stand for single bytes.
pub proof fn law_decoded_fits(buf: Seq<u8>)
    ensures
        parse_msg(buf) matches Ok(m) ==> (names_fit(m) ==> msg_fits(m)),
{
    if let Ok(m) = parse_msg(buf) {
        lemma_parsed_holds(buf.skip(8), seq![], None);
        if names_fit(m) {
            assert forall|i: int| 0 <= i < m.groups.len() implies group_fits(
                #[trigger] m.groups[i],
            ) by {
                let g = m.groups[i];
                assert forall|j: int| 0 <= j < g.attrs.len() implies attr_fits(
                    #[trigger] g.attrs[j],
                ) by {
                    assert(m.groups[i].attrs[j] == g.attrs[j]);
                    assert(encode_utf8(g.attrs[j].name).len() > 0);
                }
            }
        }
    }
}

/// A decoded message, sent on and decoded again, is the same message, whatever
/// its bytes were: only a name must not outgrow its length field when the
/// replacement characters in it are spelled out.
pub proof fn law_decoded_is_stable(buf: Seq<u8>)
    ensures
        parse_msg(buf) matches Ok(m) ==> (names_fit(m) ==> parse_msg(m.encode()) == Ok::<
            MsgView,
            Seq<char>,
        >(m)),
{
    if let Ok(m) = parse_msg(buf) {
        law_decoded_fits(buf);
        if names_fit(m) {
            law_parse_encode(m);
        }
    }
}

/// A decoded message with groups and no data, sent on without its end tag, is
/// decoded as it is with the tag.
pub proof fn law_decoded_needs_no_end_tag(buf: Seq<u8>)
    ensures
        parse_msg(buf) matches Ok(m) ==> (names_fit(m) && m.groups.len() > 0 && m.data.len() == 0
            ==> parse_msg(m.encode().drop_last()) == parse_msg(m.encode()) && parse_msg(
            m.encode(),
        ) == Ok::<MsgView, Seq<char>>(m)),
{
    if let Ok(m) = parse_msg(buf) {
        law_decoded_fits(buf);
        if names_fit(m) && m.groups.len() > 0 && m.data.len() == 0 {
            law_end_tag_may_be_missing(m);
        }
    }
}

// ------------------------------------------------------- how bytes are laid out

/// A value is its tag, the length of the name in two bytes, the name, the length
/// of the value in two bytes, and the value.
pub proof fn law_value_layout(tag: u8, name: Seq<u8>, value: Seq<u8>)
    requires
        name.len() < 0x10000,
        value.len() < 0x10000,
    ensures
        ({
            let s = encode_value(tag, name, value);
            let n = name.len() as int;
            &&& s.len() == 5 + n + value.len()
            &&& s[0] == tag
            &&& s[1] * 256 + s[2] == n
            &&& s.subrange(3, 3 + n) == name
            &&& s[3 + n] * 256 + s[4 + n] == value.len()
            &&& s.skip(5 + n) == value
        }),
{
    let s = encode_value(tag, name, value);
    let n = name.len() as int;
    lemma_be16(name.len());
    lemma_be16(value.len());
    assert(s[1] == be16(name.len())[0]);
    assert(s[2] == be16(name.len())[1]);
    assert(s.subrange(3, 3 + n) =~= name);
    assert(s[3 + n] == be16(value.len())[0]);
    assert(s[4 + n] == be16(value.len())[1]);
    assert(s.skip(5 + n) =~= value);
}

/// A message without groups is its version, the operation or status in two bytes,
/// the request id in four, the end tag, and the data.
pub proof fn law_header_layout(m: MsgView)
    requires
        m.groups.len() == 0,
    ensures
        ({
            let s = m.encode();
            &&& s.len() == 9 + m.data.len()
            &&& s[0] == m.version.0
            &&& s[1] == m.version.1
            &&& s[2] * 256 + s[3] == m.op_status
            &&& s[4] * 0x1000000 + s[5] * 0x10000 + s[6] * 0x100 + s[7] == m.request_id
            &&& s[8] == 0x03
            &&& s.skip(9) == m.data
        }),
{
    lemma_be16(m.op_status as nat);
    lemma_be32(m.request_id as nat);
    let s = m.encode();
    assert(s[2] == be16(m.op_status as nat)[0]);
    assert(s[3] == be16(m.op_status as nat)[1]);
    assert(s[4] == be32(m.request_id as nat)[0]);
    assert(s[5] == be32(m.request_id as nat)[1]);
    assert(s[6] == be32(m.request_id as nat)[2]);
    assert(s[7] == be32(m.request_id as nat)[3]);
    assert(s.skip(9) =~= m.data);
}

/// The bytes of a message up to its end tag.
pub open spec fn before_end(m: MsgView) -> Seq<u8> {
    m.encode().take(m.encode().len() - 1 - m.data.len())
}

proof fn lemma_before_end(m: MsgView)
    ensures
        before_end(m) == m.header() + encode_groups(m.groups),
{
    assert(before_end(m) =~= m.header() + encode_groups(m.groups));
}

/// One more group adds its tag before the end tag, one more attribute of one value
/// in it adds that value under its name, and one more value of the attribute adds
/// that value without a name.
pub proof fn law_groups_layout(
    m: MsgView,
    g: GroupView,
    a: AttrView,
    v: (u8, Seq<u8>),
    w: (u8, Seq<u8>),
)
    requires
        a.values.len() > 0,
    ensures
        ({
            let bare = MsgView {
                groups: m.groups.push(GroupView { attrs: seq![], ..g }),
                ..m
            };
            let with = MsgView { groups: m.groups.push(g), ..m };
            let one = AttrView { values: seq![v], ..a };
            let more = AttrView { values: a.values.push(w), ..a };
            let added = |x: AttrView| MsgView {
                groups: m.groups.push(GroupView { attrs: g.attrs.push(x), ..g }),
                ..m
            };
            &&& before_end(bare) == before_end(m).push(g.tag)
            &&& before_end(added(one)) == before_end(with) + encode_value(
                v.0,
                encode_utf8(a.name),
                v.1,
            )
            &&& before_end(added(more)) == before_end(added(a)) + encode_value(w.0, seq![], w.1)
        }),
{
    let none = GroupView { attrs: seq![], ..g };
    let bare = MsgView { groups: m.groups.push(none), ..m };
    let with = MsgView { groups: m.groups.push(g), ..m };
    let one = AttrView { values: seq![v], ..a };
    let more = AttrView { values: a.values.push(w), ..a };
    let g1 = GroupView { attrs: g.attrs.push(one), ..g };
    let ga = GroupView { attrs: g.attrs.push(a), ..g };
    let gm = GroupView { attrs: g.attrs.push(more), ..g };
    let m1 = MsgView { groups: m.groups.push(g1), ..m };
    let ma = MsgView { groups: m.groups.push(ga), ..m };
    let mm = MsgView { groups: m.groups.push(gm), ..m };
    lemma_before_end(m);
    lemma_before_end(bare);
    lemma_before_end(with);
    lemma_before_end(m1);
    lemma_before_end(ma);
    lemma_before_end(mm);
    lemma_encode_groups_push(m.groups, none);
    lemma_encode_groups_push(m.groups, g);
    lemma_encode_groups_push(m.groups, g1);
    lemma_encode_groups_push(m.groups, ga);
    lemma_encode_groups_push(m.groups, gm);
    lemma_encode_attrs_push(g.attrs, one);
    lemma_encode_attrs_push(g.attrs, a);
    lemma_encode_attrs_push(g.attrs, more);
    lemma_encode_attr_push(a, w);
    assert(one.values.drop_first() =~= seq![]);
    assert(encode_attr(one) =~= encode_value(v.0, encode_utf8(a.name), v.1));
    assert(before_end(bare) =~= before_end(m).push(g.tag));
    assert(before_end(m1) =~= before_end(with) + encode_value(v.0, encode_utf8(a.name), v.1));
    assert(before_end(mm) =~= before_end(ma) + encode_value(w.0, seq![], w.1));
}

/// The bytes of a message end with the end tag and the data.
pub proof fn law_data_layout(m: MsgView)
    ensures
        m.encode() == before_end(m).push(0x03) + m.data,
{
    lemma_before_end(m);
    assert(m.encode() =~= before_end(m).push(0x03) + m.data);
}

// ------------------------------------------------------------ what is refused

/// Bytes that end before the groups of a message are none.
pub proof fn law_short_bytes_are_refused(buf: Seq<u8>)
    requires
        buf.len() < 9,
    ensures
        parse_msg(buf) == Err::<MsgView, Seq<char>>("ipp message too short"@),
{
}

/// A value before any group, and a value without a name before any attribute of
/// its group, make no message.
pub proof fn law_stray_values_are_refused(
    head: Seq<u8>,
    group: u8,
    tag: u8,
    name: Seq<u8>,
    value: Seq<u8>,
    rest: Seq<u8>,
)
    requires
        head.len() == 8,
        tag > 0x0f,
        group <= 0x0f,
        group != G_END,
        name.len() < 0x10000,
        value.len() < 0x10000,
    ensures
        parse_msg(head + (encode_value(tag, name, value) + rest)) == Err::<MsgView, Seq<char>>(
            "attribute outside of any group"@,
        ),
        parse_msg(head + (seq![group] + (encode_value(tag, seq![], value) + rest))) == Err::<
            MsgView,
            Seq<char>,
        >("additional value with no previous attribute"@),
{
    let first = encode_value(tag, name, value) + rest;
    lemma_take_value(tag, name, value, rest);
    assert((head + first).skip(8) =~= first);
    let unnamed = encode_value(tag, seq![], value) + rest;
    let second = seq![group] + unnamed;
    lemma_take_value(tag, seq![], value, rest);
    assert((head + second).skip(8) =~= second);
    assert(second.skip(1) =~= unnamed);
    let g = GroupView { tag: group, attrs: seq![] };
    assert(parse_groups(unnamed, seq![], Some(g)) == Err::<(Seq<GroupView>, Seq<u8>), Seq<char>>(
        "additional value with no previous attribute"@,
    ));
}

/// A value that is cut off anywhere makes no message.
pub proof fn law_cut_values_are_refused(
    head: Seq<u8>,
    group: u8,
    tag: u8,
    name: Seq<u8>,
    value: Seq<u8>,
    cut: int,
)
    requires
        head.len() == 8,
        tag > 0x0f,
        group <= 0x0f,
        group != G_END,
        name.len() < 0x10000,
        value.len() < 0x10000,
        0 < cut < encode_value(tag, name, value).len(),
    ensures
        parse_msg(head + (seq![group] + encode_value(tag, name, value).take(cut))) == Err::<
            MsgView,
            Seq<char>,
        >("truncated ipp attribute"@),
{
    let part = encode_value(tag, name, value).take(cut);
    let s = seq![group] + part;
    assert((head + s).skip(8) =~= s);
    assert(s.skip(1) =~= part);
    assert(part[0] == tag);
    law_value_layout(tag, name, value);
    if let Some((n, v, rest)) = take_value(part) {
        let whole = encode_value(tag, name, value);
        lemma_take_value_more(part, whole.skip(cut));
        assert(part + whole.skip(cut) =~= whole);
        assert(whole + Seq::<u8>::empty() =~= whole);
        lemma_take_value(tag, name, value, seq![]);
        assert(rest + whole.skip(cut) =~= Seq::<u8>::empty());
        assert((rest + whole.skip(cut)).len() == 0);
    }
    let g = GroupView { tag: group, attrs: seq![] };
    assert(parse_groups(part, seq![], Some(g)) == Err::<(Seq<GroupView>, Seq<u8>), Seq<char>>(
        "truncated ipp attribute"@,
    ));
}

} // verus!
