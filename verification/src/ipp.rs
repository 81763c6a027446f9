//! IPP messages (RFC 8010 and 8011): the attributes they carry, and their
//! encoding as bytes. Attribute values are kept as raw bytes, so that
//! attributes nobody here knows go through unchanged.

pub use crate::uri::{parse_uri, PrinterUri};

use crate::text::{bytes_of, copy_bytes, lossy, lossy_text, same, utf8_text};
use vstd::prelude::*;
use vstd::utf8::*;

verus! {

// Delimiter (group) tags
pub const G_OPERATION: u8 = 0x01;

pub const G_JOB: u8 = 0x02;

pub const G_END: u8 = 0x03;

pub const G_PRINTER: u8 = 0x04;

// Value tags
pub const T_INTEGER: u8 = 0x21;

pub const T_BOOLEAN: u8 = 0x22;

pub const T_ENUM: u8 = 0x23;

pub const T_TEXT: u8 = 0x41;

pub const T_NAME: u8 = 0x42;

pub const T_KEYWORD: u8 = 0x44;

pub const T_URI: u8 = 0x45;

pub const T_CHARSET: u8 = 0x47;

pub const T_LANGUAGE: u8 = 0x48;

pub const T_MIME: u8 = 0x49;

// Operations
pub const OP_PRINT_JOB: u16 = 0x0002;

pub const OP_VALIDATE_JOB: u16 = 0x0004;

pub const OP_CREATE_JOB: u16 = 0x0005;

pub const OP_SEND_DOCUMENT: u16 = 0x0006;

pub const OP_CANCEL_JOB: u16 = 0x0008;

pub const OP_GET_JOB_ATTRS: u16 = 0x0009;

pub const OP_GET_JOBS: u16 = 0x000A;

pub const OP_GET_PRINTER_ATTRS: u16 = 0x000B;

// Status codes
pub const OK: u16 = 0x0000;

pub const ERR_BAD_REQUEST: u16 = 0x0400;

pub const ERR_NOT_FOUND: u16 = 0x0406;

pub const ERR_NOT_POSSIBLE: u16 = 0x0409;

pub const ERR_INTERNAL: u16 = 0x0500;

pub const ERR_OP_NOT_SUPPORTED: u16 = 0x0501;

// --------------------------------------------------------------- messages

/// One attribute: a name plus one or more (value-tag, raw-value) pairs.
/// Additional values (and collection members) keep their own tags.
#[derive(Debug)]
pub struct Attr {
    pub name: String,
    pub values: Vec<(u8, Vec<u8>)>,
}

/// The attributes that follow one delimiter tag.
#[derive(Debug)]
pub struct Group {
    pub tag: u8,
    pub attrs: Vec<Attr>,
}

/// A request or a response.
#[derive(Debug)]
pub struct Msg {
    pub version: (u8, u8),
    /// operation-id in requests, status-code in responses
    pub op_status: u16,
    pub request_id: u32,
    pub groups: Vec<Group>,
    pub data: Vec<u8>,
}

/// An attribute as a mathematical value.
#[verifier::ext_equal]
pub struct AttrView {
    pub name: Seq<char>,
    pub values: Seq<(u8, Seq<u8>)>,
}

/// A group as a mathematical value.
#[verifier::ext_equal]
pub struct GroupView {
    pub tag: u8,
    pub attrs: Seq<AttrView>,
}

/// A message as a mathematical value.
#[verifier::ext_equal]
pub struct MsgView {
    pub version: (u8, u8),
    pub op_status: u16,
    pub request_id: u32,
    pub groups: Seq<GroupView>,
    pub data: Seq<u8>,
}

/// A tagged value as a mathematical value.
pub open spec fn value_view(v: (u8, Vec<u8>)) -> (u8, Seq<u8>) {
    (v.0, v.1@)
}

impl View for Attr {
    type V = AttrView;

    open spec fn view(&self) -> AttrView {
        AttrView {
            name: self.name@,
            values: self.values@.map_values(|v: (u8, Vec<u8>)| value_view(v)),
        }
    }
}

/// The views of a list of attributes.
pub open spec fn attr_views(attrs: Seq<Attr>) -> Seq<AttrView> {
    attrs.map_values(|a: Attr| a@)
}

impl View for Group {
    type V = GroupView;

    open spec fn view(&self) -> GroupView {
        GroupView { tag: self.tag, attrs: attr_views(self.attrs@) }
    }
}

impl View for Msg {
    type V = MsgView;

    open spec fn view(&self) -> MsgView {
        MsgView {
            version: self.version,
            op_status: self.op_status,
            request_id: self.request_id,
            groups: group_views(self.groups@),
            data: self.data@,
        }
    }
}

// ---------------------------------------------------------------- numbers

/// A number below 2^16 as two bytes, the most significant first.
pub open spec fn be16(n: nat) -> Seq<u8> {
    seq![(n / 256 % 256) as u8, (n % 256) as u8]
}

/// A number below 2^32 as four bytes, the most significant first.
pub open spec fn be32(n: nat) -> Seq<u8> {
    seq![
        (n / 0x1000000 % 256) as u8,
        (n / 0x10000 % 256) as u8,
        (n / 256 % 256) as u8,
        (n % 256) as u8,
    ]
}

/// The number that two bytes spell, the most significant first.
pub open spec fn from_be16(a: u8, b: u8) -> nat {
    (a * 256 + b) as nat
}

/// The number that four bytes spell, the most significant first.
pub open spec fn from_be32(a: u8, b: u8, c: u8, d: u8) -> nat {
    (a * 0x1000000 + b * 0x10000 + c * 256 + d) as nat
}

/// A signed number as the unsigned number with the same bits.
pub open spec fn unsigned(v: i32) -> nat {
    if v < 0 {
        (v + 0x1_0000_0000) as nat
    } else {
        v as nat
    }
}

/// The signed number with the bits of an unsigned one.
pub open spec fn signed(n: nat) -> i32 {
    if n < 0x8000_0000 {
        n as i32
    } else {
        (n - 0x1_0000_0000) as i32
    }
}

/// Appends a number as two bytes.
fn push_u16(out: &mut Vec<u8>, n: u16)
    ensures
        final(out)@ == old(out)@ + be16(n as nat),
{
    out.push((n / 256) as u8);
    out.push((n % 256) as u8);
    assert(out@ =~= old(out)@ + be16(n as nat));
}

/// Appends a number as four bytes.
fn push_u32(out: &mut Vec<u8>, n: u32)
    ensures
        final(out)@ == old(out)@ + be32(n as nat),
{
    out.push((n / 0x1000000) as u8);
    out.push((n / 0x10000 % 256) as u8);
    out.push((n / 256 % 256) as u8);
    out.push((n % 256) as u8);
    assert(out@ =~= old(out)@ + be32(n as nat));
}

/// A signed number as four bytes.
fn int_bytes(v: i32) -> (r: Vec<u8>)
    ensures
        r@ == be32(unsigned(v)),
{
    let n: u32 = if v < 0 {
        (v as i64 + 0x1_0000_0000) as u32
    } else {
        v as u32
    };
    let mut out: Vec<u8> = Vec::new();
    push_u32(&mut out, n);
    assert(out@ =~= be32(unsigned(v)));
    out
}

/// The number that two bytes spell.
fn read_u16(a: u8, b: u8) -> (r: u16)
    ensures
        r == from_be16(a, b),
{
    (a as u16) * 256 + (b as u16)
}

/// The number that four bytes spell.
fn read_u32(a: u8, b: u8, c: u8, d: u8) -> (r: u32)
    ensures
        r == from_be32(a, b, c, d),
{
    (a as u32) * 0x1000000 + (b as u32) * 0x10000 + (c as u32) * 256 + (d as u32)
}

/// The signed number that four bytes spell.
pub fn read_int(a: u8, b: u8, c: u8, d: u8) -> (r: i32)
    ensures
        r == signed(from_be32(a, b, c, d)),
{
    let n = read_u32(a, b, c, d);
    if n < 0x8000_0000 {
        n as i32
    } else {
        (n as i64 - 0x1_0000_0000) as i32
    }
}

// ------------------------------------------------------------- attributes

/// An attribute with one text value.
pub open spec fn str_attr(tag: u8, name: Seq<char>, v: Seq<char>) -> AttrView {
    AttrView { name, values: seq![(tag, encode_utf8(v))] }
}

/// An attribute with text values that share a tag.
pub open spec fn strs_attr(tag: u8, name: Seq<char>, vs: Seq<Seq<char>>) -> AttrView {
    AttrView { name, values: vs.map_values(|v: Seq<char>| (tag, encode_utf8(v))) }
}

/// An attribute with one integer value.
pub open spec fn int_attr(tag: u8, name: Seq<char>, v: i32) -> AttrView {
    AttrView { name, values: seq![(tag, be32(unsigned(v)))] }
}

/// An attribute with integer values that share a tag.
pub open spec fn ints_attr(tag: u8, name: Seq<char>, vs: Seq<i32>) -> AttrView {
    AttrView { name, values: vs.map_values(|v: i32| (tag, be32(unsigned(v)))) }
}

/// An attribute with one boolean value.
pub open spec fn boolean_attr(name: Seq<char>, v: bool) -> AttrView {
    AttrView {
        name,
        values: seq![
            (
                T_BOOLEAN,
                seq![
                    if v {
                        1u8
                    } else {
                        0u8
                    },
                ],
            ),
        ],
    }
}

impl AttrView {
    /// The first value as text, if there is one and it is UTF-8.
    pub open spec fn first_str(self) -> Option<Seq<char>> {
        if self.values.len() > 0 && valid_utf8(self.values[0].1) {
            Some(decode_utf8(self.values[0].1))
        } else {
            None
        }
    }

    /// The first value as an integer, if there is one and it has four bytes.
    pub open spec fn first_int(self) -> Option<i32> {
        if self.values.len() > 0 && self.values[0].1.len() == 4 {
            let v = self.values[0].1;
            Some(signed(from_be32(v[0], v[1], v[2], v[3])))
        } else {
            None
        }
    }
}

impl Attr {
    /// An attribute with one text value.
    pub fn str(tag: u8, name: &str, v: &str) -> (r: Attr)
        ensures
            r@ == str_attr(tag, name@, v@),
    {
        let mut values: Vec<(u8, Vec<u8>)> = Vec::new();
        values.push((tag, bytes_of(v)));
        let r = Attr { name: name.to_owned(), values };
        assert(r@.values =~= str_attr(tag, name@, v@).values);
        r
    }

    /// An attribute with text values that share a tag.
    pub fn strs(tag: u8, name: &str, vs: &[&str]) -> (r: Attr)
        ensures
            r@ == strs_attr(tag, name@, vs@.map_values(|v: &str| v@)),
    {
        let mut values: Vec<(u8, Vec<u8>)> = Vec::new();
        let mut i: usize = 0;
        while i < vs.len()
            invariant
                i <= vs@.len(),
                values@.len() == i,
                forall|j: int|
                    0 <= j < i ==> value_view(#[trigger] values@[j]) == (
                        tag,
                        encode_utf8(vs@[j]@),
                    ),
            decreases vs@.len() - i,
        {
            values.push((tag, bytes_of(vs[i])));
            i += 1;
        }
        let r = Attr { name: name.to_owned(), values };
        assert(r@.values =~= strs_attr(tag, name@, vs@.map_values(|v: &str| v@)).values);
        r
    }

    /// An attribute with one integer value.
    pub fn integer(tag: u8, name: &str, v: i32) -> (r: Attr)
        ensures
            r@ == int_attr(tag, name@, v),
    {
        let mut values: Vec<(u8, Vec<u8>)> = Vec::new();
        values.push((tag, int_bytes(v)));
        let r = Attr { name: name.to_owned(), values };
        assert(r@.values =~= int_attr(tag, name@, v).values);
        r
    }

    /// An attribute with integer values that share a tag.
    pub fn ints(tag: u8, name: &str, vs: &[i32]) -> (r: Attr)
        ensures
            r@ == ints_attr(tag, name@, vs@),
    {
        let mut values: Vec<(u8, Vec<u8>)> = Vec::new();
        let mut i: usize = 0;
        while i < vs.len()
            invariant
                i <= vs@.len(),
                values@.len() == i,
                forall|j: int|
                    0 <= j < i ==> value_view(#[trigger] values@[j]) == (
                        tag,
                        be32(unsigned(vs@[j])),
                    ),
            decreases vs@.len() - i,
        {
            values.push((tag, int_bytes(vs[i])));
            i += 1;
        }
        let r = Attr { name: name.to_owned(), values };
        assert(r@.values =~= ints_attr(tag, name@, vs@).values);
        r
    }

    /// An attribute with one boolean value.
    pub fn boolean(name: &str, v: bool) -> (r: Attr)
        ensures
            r@ == boolean_attr(name@, v),
    {
        let mut value: Vec<u8> = Vec::new();
        value.push(
            if v {
                1
            } else {
                0
            },
        );
        let mut values: Vec<(u8, Vec<u8>)> = Vec::new();
        values.push((T_BOOLEAN, value));
        let r = Attr { name: name.to_owned(), values };
        assert(r@.values[0].1 =~= boolean_attr(name@, v).values[0].1);
        assert(r@.values =~= boolean_attr(name@, v).values);
        r
    }

    /// The first value as text, if there is one and it is UTF-8.
    pub fn first_str(&self) -> (r: Option<&str>)
        ensures
            r is Some <==> self@.first_str() is Some,
            r matches Some(s) ==> self@.first_str() == Some(s@),
    {
        if self.values.len() > 0 {
            assert(self@.values[0] == value_view(self.values@[0]));
            utf8_text(&self.values[0].1)
        } else {
            None
        }
    }

    /// The first value as an integer, if there is one and it has four bytes.
    pub fn first_int(&self) -> (r: Option<i32>)
        ensures
            r == self@.first_int(),
    {
        if self.values.len() > 0 {
            assert(self@.values[0] == value_view(self.values@[0]));
            let v = &self.values[0].1;
            if v.len() == 4 {
                return Some(read_int(v[0], v[1], v[2], v[3]));
            }
        }
        None
    }
}

impl Clone for Attr {
    fn clone(&self) -> (r: Self)
        ensures
            r@ == self@,
    {
        let mut values: Vec<(u8, Vec<u8>)> = Vec::new();
        let mut i: usize = 0;
        while i < self.values.len()
            invariant
                i <= self.values@.len(),
                values@.len() == i,
                forall|j: int|
                    0 <= j < i ==> value_view(#[trigger] values@[j]) == value_view(self.values@[j]),
            decreases self.values@.len() - i,
        {
            values.push((self.values[i].0, copy_bytes(&self.values[i].1)));
            i += 1;
        }
        let r = Attr { name: self.name.clone(), values };
        assert(r@.values =~= self@.values);
        r
    }
}

/// A copy of a list of attributes.
pub fn clone_attrs(attrs: &Vec<Attr>) -> (r: Vec<Attr>)
    ensures
        attr_views(r@) == attr_views(attrs@),
{
    let mut out: Vec<Attr> = Vec::new();
    let mut i: usize = 0;
    while i < attrs.len()
        invariant
            i <= attrs@.len(),
            out@.len() == i,
            forall|j: int| 0 <= j < i ==> (#[trigger] out@[j])@ == attrs@[j]@,
        decreases attrs@.len() - i,
    {
        out.push(attrs[i].clone());
        i += 1;
    }
    assert(attr_views(out@) =~= attr_views(attrs@));
    out
}

impl Clone for Group {
    fn clone(&self) -> (r: Self)
        ensures
            r@ == self@,
    {
        Group { tag: self.tag, attrs: clone_attrs(&self.attrs) }
    }
}

impl Clone for Msg {
    fn clone(&self) -> (r: Self)
        ensures
            r@ == self@,
    {
        let mut groups: Vec<Group> = Vec::new();
        let mut i: usize = 0;
        while i < self.groups.len()
            invariant
                i <= self.groups@.len(),
                groups@.len() == i,
                forall|j: int| 0 <= j < i ==> (#[trigger] groups@[j])@ == self.groups@[j]@,
            decreases self.groups@.len() - i,
        {
            groups.push(self.groups[i].clone());
            i += 1;
        }
        let r = Msg {
            version: self.version,
            op_status: self.op_status,
            request_id: self.request_id,
            groups,
            data: copy_bytes(&self.data),
        };
        assert(r@.groups =~= self@.groups);
        r
    }
}

// ----------------------------------------------------------------- lookup

/// The first attribute of that name.
pub open spec fn first_named(attrs: Seq<AttrView>, name: Seq<char>) -> Option<AttrView>
    decreases attrs.len(),
{
    if attrs.len() == 0 {
        None
    } else if attrs[0].name == name {
        Some(attrs[0])
    } else {
        first_named(attrs.drop_first(), name)
    }
}

/// The attributes of all groups, in order.
pub open spec fn all_attrs(groups: Seq<GroupView>) -> Seq<AttrView>
    decreases groups.len(),
{
    if groups.len() == 0 {
        seq![]
    } else {
        groups[0].attrs + all_attrs(groups.drop_first())
    }
}

/// The attributes of the groups with that tag, in order.
pub open spec fn attrs_in(groups: Seq<GroupView>, tag: u8) -> Seq<AttrView>
    decreases groups.len(),
{
    if groups.len() == 0 {
        seq![]
    } else if groups[0].tag == tag {
        groups[0].attrs + attrs_in(groups.drop_first(), tag)
    } else {
        attrs_in(groups.drop_first(), tag)
    }
}

impl MsgView {
    /// The first attribute of that name in any group.
    pub open spec fn find(self, name: Seq<char>) -> Option<AttrView> {
        first_named(all_attrs(self.groups), name)
    }

    /// The first attribute of that name in the groups with that tag.
    pub open spec fn find_in(self, tag: u8, name: Seq<char>) -> Option<AttrView> {
        first_named(attrs_in(self.groups, tag), name)
    }
}

proof fn lemma_all_attrs_concat(a: Seq<GroupView>, b: Seq<GroupView>)
    ensures
        all_attrs(a + b) == all_attrs(a) + all_attrs(b),
    decreases a.len(),
{
    if a.len() == 0 {
        assert(a + b =~= b);
        assert(all_attrs(a) + all_attrs(b) =~= all_attrs(b));
    } else {
        lemma_all_attrs_concat(a.drop_first(), b);
        assert((a + b).drop_first() =~= a.drop_first() + b);
        assert(all_attrs(a + b) =~= all_attrs(a) + all_attrs(b));
    }
}

proof fn lemma_attrs_in_concat(a: Seq<GroupView>, b: Seq<GroupView>, tag: u8)
    ensures
        attrs_in(a + b, tag) == attrs_in(a, tag) + attrs_in(b, tag),
    decreases a.len(),
{
    if a.len() == 0 {
        assert(a + b =~= b);
        assert(attrs_in(a, tag) + attrs_in(b, tag) =~= attrs_in(b, tag));
    } else {
        lemma_attrs_in_concat(a.drop_first(), b, tag);
        assert((a + b).drop_first() =~= a.drop_first() + b);
        assert(attrs_in(a + b, tag) =~= attrs_in(a, tag) + attrs_in(b, tag));
    }
}

proof fn lemma_attrs_of_tag(groups: Seq<GroupView>, tag: u8)
    ensures
        attrs_in(groups, tag) == all_attrs(groups.filter(|g: GroupView| g.tag == tag)),
    decreases groups.len(),
{
    reveal(Seq::filter);
    if groups.len() > 0 {
        let front = groups.drop_last();
        let last = seq![groups.last()];
        let kept = front.filter(|g: GroupView| g.tag == tag);
        lemma_attrs_of_tag(front, tag);
        assert(groups =~= front + last);
        lemma_attrs_in_concat(front, last, tag);
        reveal_with_fuel(attrs_in, 2);
        reveal_with_fuel(all_attrs, 2);
        if groups.last().tag == tag {
            lemma_all_attrs_concat(kept, last);
            assert(groups.filter(|g: GroupView| g.tag == tag) =~= kept + last);
            assert(attrs_in(last, tag) =~= all_attrs(last));
        } else {
            assert(attrs_in(last, tag) =~= seq![]);
        }
    }
}

/// To look for an attribute in the groups with a tag is to look for it in the
/// message that has only these groups.
pub proof fn law_find_in_is_find_of_the_tag(m: MsgView, tag: u8, name: Seq<char>)
    ensures
        m.find_in(tag, name) == (MsgView {
            groups: m.groups.filter(|g: GroupView| g.tag == tag),
            ..m
        }).find(name),
{
    lemma_attrs_of_tag(m.groups, tag);
}

/// A found attribute as a mathematical value.
pub open spec fn opt_view(a: Option<&Attr>) -> Option<AttrView> {
    match a {
        Some(a) => Some(a@),
        None => None,
    }
}

/// A name is looked up in the first part, and only then in the second.
pub proof fn lemma_first_named_concat(a: Seq<AttrView>, b: Seq<AttrView>, name: Seq<char>)
    ensures
        first_named(a + b, name) == (match first_named(a, name) {
            Some(x) => Some(x),
            None => first_named(b, name),
        }),
    decreases a.len(),
{
    if a.len() == 0 {
        assert(a + b =~= b);
    } else {
        assert((a + b).drop_first() =~= a.drop_first() + b);
        lemma_first_named_concat(a.drop_first(), b, name);
    }
}

/// What is found under a name has that name.
pub proof fn lemma_first_named_name(attrs: Seq<AttrView>, name: Seq<char>)
    ensures
        first_named(attrs, name) matches Some(a) ==> a.name == name,
    decreases attrs.len(),
{
    if attrs.len() > 0 && attrs[0].name != name {
        lemma_first_named_name(attrs.drop_first(), name);
    }
}

/// What stands first under a name is found.
pub proof fn lemma_first_named_at(attrs: Seq<AttrView>, name: Seq<char>, i: int)
    requires
        0 <= i < attrs.len(),
        attrs[i].name == name,
        forall|j: int| 0 <= j < i ==> (#[trigger] attrs[j]).name != name,
    ensures
        first_named(attrs, name) == Some(attrs[i]),
    decreases i,
{
    if i > 0 {
        assert(attrs[0].name != name);
        let rest = attrs.drop_first();
        assert forall|j: int| 0 <= j < i - 1 implies (#[trigger] rest[j]).name != name by {
            assert(rest[j] == attrs[j + 1]);
        }
        lemma_first_named_at(rest, name, i - 1);
    }
}

/// What does not stand there is not found.
pub proof fn lemma_first_named_absent(attrs: Seq<AttrView>, name: Seq<char>)
    requires
        forall|j: int| 0 <= j < attrs.len() ==> (#[trigger] attrs[j]).name != name,
    ensures
        first_named(attrs, name) is None,
    decreases attrs.len(),
{
    if attrs.len() > 0 {
        assert(attrs[0].name != name);
        let rest = attrs.drop_first();
        assert forall|j: int| 0 <= j < rest.len() implies (#[trigger] rest[j]).name != name by {
            assert(rest[j] == attrs[j + 1]);
        }
        lemma_first_named_absent(rest, name);
    }
}

/// Dropping attributes of other names changes nothing for a name.
pub proof fn lemma_first_named_filter(
    attrs: Seq<AttrView>,
    keep: spec_fn(AttrView) -> bool,
    name: Seq<char>,
)
    requires
        forall|a: AttrView| a.name == name ==> #[trigger] keep(a),
    ensures
        first_named(attrs.filter(keep), name) == first_named(attrs, name),
    decreases attrs.len(),
{
    reveal(Seq::filter);
    if attrs.len() > 0 {
        let front = attrs.drop_last();
        let last = seq![attrs.last()];
        lemma_first_named_filter(front, keep, name);
        assert(attrs =~= front + last);
        lemma_first_named_concat(front, last, name);
        if keep(attrs.last()) {
            assert(attrs.filter(keep) =~= front.filter(keep) + last);
            lemma_first_named_concat(front.filter(keep), last, name);
        } else {
            assert(last[0].name != name);
            assert(first_named(last, name) is None) by {
                lemma_first_named_absent(last, name);
            }
        }
    }
}

/// The first attribute of that name.
pub fn find_attr<'a>(attrs: &'a Vec<Attr>, name: &str) -> (r: Option<&'a Attr>)
    ensures
        opt_view(r) == first_named(attr_views(attrs@), name@),
{
    let ghost all = attr_views(attrs@);
    let mut i: usize = 0;
    assert(all.skip(0) =~= all);
    while i < attrs.len()
        invariant
            i <= attrs@.len(),
            all == attr_views(attrs@),
            first_named(all, name@) == first_named(all.skip(i as int), name@),
        decreases attrs@.len() - i,
    {
        assert(all.skip(i as int)[0] == attrs@[i as int]@);
        if same(attrs[i].name.as_str(), name) {
            return Some(&attrs[i]);
        }
        assert(all.skip(i as int).drop_first() =~= all.skip(i + 1));
        i += 1;
    }
    None
}

// --------------------------------------------------- building and reading

/// A message without groups or data.
pub open spec fn new_msg(op_status: u16, request_id: u32) -> MsgView {
    MsgView { version: (2, 0), op_status, request_id, groups: seq![], data: seq![] }
}

/// The operation attributes that every message starts with.
pub open spec fn preamble() -> Seq<AttrView> {
    seq![
        str_attr(T_CHARSET, "attributes-charset"@, "utf-8"@),
        str_attr(T_LANGUAGE, "attributes-natural-language"@, "en"@),
    ]
}

/// A response with the mandatory operation attributes and nothing more.
pub open spec fn response_msg(status: u16, request_id: u32) -> MsgView {
    MsgView {
        groups: seq![GroupView { tag: G_OPERATION, attrs: preamble() }],
        ..new_msg(status, request_id)
    }
}

/// The operation attributes that every message starts with.
pub fn preamble_attrs() -> (r: Vec<Attr>)
    ensures
        attr_views(r@) == preamble(),
{
    let mut attrs: Vec<Attr> = Vec::new();
    attrs.push(Attr::str(T_CHARSET, "attributes-charset", "utf-8"));
    attrs.push(Attr::str(T_LANGUAGE, "attributes-natural-language", "en"));
    assert(attr_views(attrs@) =~= preamble());
    attrs
}

impl Msg {
    /// A message without groups or data.
    pub fn new(op_status: u16, request_id: u32) -> (r: Msg)
        ensures
            r@ == new_msg(op_status, request_id),
    {
        let r = Msg {
            version: (2, 0),
            op_status,
            request_id,
            groups: Vec::new(),
            data: Vec::new(),
        };
        assert(r@ =~= new_msg(op_status, request_id));
        r
    }

    /// Standard response skeleton with the mandatory operation attributes.
    pub fn response(status: u16, request_id: u32) -> (r: Msg)
        ensures
            r@ == response_msg(status, request_id),
    {
        let mut m = Msg::new(status, request_id);
        m.groups.push(Group { tag: G_OPERATION, attrs: preamble_attrs() });
        assert(m@ =~= response_msg(status, request_id));
        m
    }

    /// The first attribute of that name in any group.
    pub fn find(&self, name: &str) -> (r: Option<&Attr>)
        ensures
            opt_view(r) == self@.find(name@),
    {
        let mut i: usize = 0;
        let ghost gs = self@.groups;
        assert(gs.skip(0) =~= gs);
        while i < self.groups.len()
            invariant
                i <= self.groups@.len(),
                gs == self@.groups,
                self@.find(name@) == first_named(all_attrs(gs.skip(i as int)), name@),
            decreases self.groups@.len() - i,
        {
            assert(gs.skip(i as int)[0] == self.groups@[i as int]@);
            assert(gs.skip(i as int).drop_first() =~= gs.skip(i + 1));
            proof {
                lemma_first_named_concat(gs[i as int].attrs, all_attrs(gs.skip(i + 1)), name@);
            }
            let hit = find_attr(&self.groups[i].attrs, name);
            if hit.is_some() {
                return hit;
            }
            i += 1;
        }
        None
    }

    /// The first attribute of that name in the groups with that tag.
    pub fn find_in(&self, group_tag: u8, name: &str) -> (r: Option<&Attr>)
        ensures
            opt_view(r) == self@.find_in(group_tag, name@),
    {
        let mut i: usize = 0;
        let ghost gs = self@.groups;
        assert(gs.skip(0) =~= gs);
        while i < self.groups.len()
            invariant
                i <= self.groups@.len(),
                gs == self@.groups,
                self@.find_in(group_tag, name@) == first_named(
                    attrs_in(gs.skip(i as int), group_tag),
                    name@,
                ),
            decreases self.groups@.len() - i,
        {
            assert(gs.skip(i as int)[0] == self.groups@[i as int]@);
            assert(gs.skip(i as int).drop_first() =~= gs.skip(i + 1));
            if self.groups[i].tag == group_tag {
                proof {
                    lemma_first_named_concat(
                        gs[i as int].attrs,
                        attrs_in(gs.skip(i + 1), group_tag),
                        name@,
                    );
                }
                let hit = find_attr(&self.groups[i].attrs, name);
                if hit.is_some() {
                    return hit;
                }
            }
            i += 1;
        }
        None
    }

    /// Copies of the attributes of the groups with that tag, in order.
    pub fn attrs_of(&self, group_tag: u8) -> (r: Vec<Attr>)
        ensures
            attr_views(r@) == attrs_in(self@.groups, group_tag),
    {
        let mut out: Vec<Attr> = Vec::new();
        let mut i: usize = 0;
        let ghost gs = self@.groups;
        assert(gs.skip(0) =~= gs);
        assert(attr_views(out@) + attrs_in(gs, group_tag) =~= attrs_in(gs, group_tag));
        while i < self.groups.len()
            invariant
                i <= self.groups@.len(),
                gs == self@.groups,
                attr_views(out@) + attrs_in(gs.skip(i as int), group_tag) == attrs_in(
                    gs,
                    group_tag,
                ),
            decreases self.groups@.len() - i,
        {
            assert(gs.skip(i as int)[0] == self.groups@[i as int]@);
            assert(gs.skip(i as int).drop_first() =~= gs.skip(i + 1));
            if self.groups[i].tag == group_tag {
                let ghost before = attr_views(out@);
                let mut more = clone_attrs(&self.groups[i].attrs);
                let ghost added = more@;
                out.append(&mut more);
                assert(attr_views(out@) =~= before + attr_views(added));
                assert(attr_views(out@) + attrs_in(gs.skip(i + 1), group_tag) =~= before + (
                gs[i as int].attrs + attrs_in(gs.skip(i + 1), group_tag)));
            }
            i += 1;
        }
        assert(attr_views(out@) + attrs_in(gs.skip(i as int), group_tag) =~= attr_views(out@));
        out
    }

    /// Appends a group to the message.
    pub fn add_group(&mut self, tag: u8, attrs: Vec<Attr>)
        ensures
            final(self)@ == (MsgView {
                groups: old(self)@.groups.push(GroupView { tag, attrs: attr_views(attrs@) }),
                ..old(self)@
            }),
    {
        self.groups.push(Group { tag, attrs });
        assert(self@.groups =~= old(self)@.groups.push(
            GroupView { tag, attrs: attr_views(attrs@) },
        ));
    }
}

// --------------------------------------------------------------- encoding

/// A field: its length as two bytes, then its bytes. Only the low sixteen bits
/// of a length fit.
pub open spec fn field(bytes: Seq<u8>) -> Seq<u8> {
    be16(bytes.len() % 0x10000) + bytes
}

/// One value with the name in front of it.
pub open spec fn encode_value(tag: u8, name: Seq<u8>, value: Seq<u8>) -> Seq<u8> {
    seq![tag] + field(name) + field(value)
}

/// Values after the first: each has an empty name.
pub open spec fn encode_more(values: Seq<(u8, Seq<u8>)>) -> Seq<u8>
    decreases values.len(),
{
    if values.len() == 0 {
        seq![]
    } else {
        encode_value(values[0].0, seq![], values[0].1) + encode_more(values.drop_first())
    }
}

/// An attribute: the first value carries its name.
pub open spec fn encode_attr(a: AttrView) -> Seq<u8> {
    if a.values.len() == 0 {
        seq![]
    } else {
        encode_value(a.values[0].0, encode_utf8(a.name), a.values[0].1) + encode_more(
            a.values.drop_first(),
        )
    }
}

/// Attributes, one after the other.
pub open spec fn encode_attrs(attrs: Seq<AttrView>) -> Seq<u8>
    decreases attrs.len(),
{
    if attrs.len() == 0 {
        seq![]
    } else {
        encode_attr(attrs[0]) + encode_attrs(attrs.drop_first())
    }
}

/// Groups, each after its delimiter tag.
pub open spec fn encode_groups(groups: Seq<GroupView>) -> Seq<u8>
    decreases groups.len(),
{
    if groups.len() == 0 {
        seq![]
    } else {
        seq![groups[0].tag] + encode_attrs(groups[0].attrs) + encode_groups(groups.drop_first())
    }
}

impl MsgView {
    /// Version, operation or status, and request id.
    pub open spec fn header(self) -> Seq<u8> {
        seq![self.version.0, self.version.1] + be16(self.op_status as nat) + be32(
            self.request_id as nat,
        )
    }

    /// The bytes of the message.
    pub open spec fn encode(self) -> Seq<u8> {
        self.header() + encode_groups(self.groups) + seq![G_END] + self.data
    }
}

/// Appends bytes.
fn push_bytes(out: &mut Vec<u8>, bytes: &[u8])
    ensures
        final(out)@ == old(out)@ + bytes@,
{
    out.extend_from_slice(bytes);
    assert(out@ =~= old(out)@ + bytes@);
}

/// Appends a field.
fn push_field(out: &mut Vec<u8>, bytes: &[u8])
    ensures
        final(out)@ == old(out)@ + field(bytes@),
{
    push_u16(out, (bytes.len() % 0x10000) as u16);
    push_bytes(out, bytes);
    assert(out@ =~= old(out)@ + field(bytes@));
}

/// Appends a value.
fn push_value(out: &mut Vec<u8>, tag: u8, name: &[u8], value: &[u8])
    ensures
        final(out)@ == old(out)@ + encode_value(tag, name@, value@),
{
    out.push(tag);
    push_field(out, name);
    push_field(out, value);
    assert(out@ =~= old(out)@ + encode_value(tag, name@, value@));
}

/// Appends an attribute.
fn push_attr(out: &mut Vec<u8>, a: &Attr)
    ensures
        final(out)@ == old(out)@ + encode_attr(a@),
{
    if a.values.len() == 0 {
        assert(out@ =~= old(out)@ + encode_attr(a@));
        return;
    }
    let ghost vs = a@.values;
    assert(vs[0] == value_view(a.values@[0]));
    push_value(out, a.values[0].0, a.name.as_str().as_bytes(), &a.values[0].1);
    let mut i: usize = 1;
    assert(vs.drop_first() =~= vs.skip(1));
    assert(out@ + encode_more(vs.skip(1)) =~= old(out)@ + encode_attr(a@));
    while i < a.values.len()
        invariant
            1 <= i <= a.values@.len(),
            vs == a@.values,
            out@ + encode_more(vs.skip(i as int)) == old(out)@ + encode_attr(a@),
        decreases a.values@.len() - i,
    {
        let ghost before = out@;
        let none: Vec<u8> = Vec::new();
        assert(vs.skip(i as int)[0] == value_view(a.values@[i as int]));
        push_value(out, a.values[i].0, &none, &a.values[i].1);
        assert(vs.skip(i as int).drop_first() =~= vs.skip(i + 1));
        assert(none@ =~= seq![]);
        assert(out@ + encode_more(vs.skip(i + 1)) =~= before + encode_more(vs.skip(i as int)));
        i += 1;
    }
    assert(out@ + encode_more(vs.skip(i as int)) =~= out@);
}

/// Appends the attributes of a list.
fn push_attrs(out: &mut Vec<u8>, attrs: &Vec<Attr>)
    ensures
        final(out)@ == old(out)@ + encode_attrs(attr_views(attrs@)),
{
    let ghost all = attr_views(attrs@);
    let mut i: usize = 0;
    assert(all.skip(0) =~= all);
    while i < attrs.len()
        invariant
            i <= attrs@.len(),
            all == attr_views(attrs@),
            out@ + encode_attrs(all.skip(i as int)) == old(out)@ + encode_attrs(all),
        decreases attrs@.len() - i,
    {
        let ghost before = out@;
        assert(all.skip(i as int)[0] == attrs@[i as int]@);
        push_attr(out, &attrs[i]);
        assert(all.skip(i as int).drop_first() =~= all.skip(i + 1));
        assert(out@ + encode_attrs(all.skip(i + 1)) =~= before + encode_attrs(all.skip(i as int)));
        i += 1;
    }
    assert(out@ + encode_attrs(all.skip(i as int)) =~= out@);
}

impl Msg {
    /// The bytes of the message.
    pub fn encode(&self) -> (r: Vec<u8>)
        ensures
            r@ == self@.encode(),
    {
        let mut out: Vec<u8> = Vec::new();
        out.push(self.version.0);
        out.push(self.version.1);
        push_u16(&mut out, self.op_status);
        push_u32(&mut out, self.request_id);
        assert(out@ =~= self@.header());
        let ghost gs = self@.groups;
        let mut i: usize = 0;
        assert(gs.skip(0) =~= gs);
        while i < self.groups.len()
            invariant
                i <= self.groups@.len(),
                gs == self@.groups,
                out@ + encode_groups(gs.skip(i as int)) == self@.header() + encode_groups(gs),
            decreases self.groups@.len() - i,
        {
            let ghost before = out@;
            assert(gs.skip(i as int)[0] == self.groups@[i as int]@);
            out.push(self.groups[i].tag);
            push_attrs(&mut out, &self.groups[i].attrs);
            assert(gs.skip(i as int).drop_first() =~= gs.skip(i + 1));
            assert(out@ + encode_groups(gs.skip(i + 1)) =~= before + encode_groups(
                gs.skip(i as int),
            ));
            i += 1;
        }
        assert(out@ + encode_groups(gs.skip(i as int)) =~= out@);
        out.push(G_END);
        push_bytes(&mut out, &self.data);
        assert(out@ =~= self@.encode());
        out
    }
}

// --------------------------------------------------------------- decoding

/// The field at the front of the bytes, and what follows it.
pub open spec fn take_field(s: Seq<u8>) -> Option<(Seq<u8>, Seq<u8>)> {
    if s.len() < 2 || s.len() < 2 + from_be16(s[0], s[1]) {
        None
    } else {
        let n = from_be16(s[0], s[1]) as int;
        Some((s.subrange(2, 2 + n), s.skip(2 + n)))
    }
}

/// The name and the value after a value tag, and what follows them.
pub open spec fn take_value(s: Seq<u8>) -> Option<(Seq<u8>, Seq<u8>, Seq<u8>)> {
    match take_field(s.skip(1)) {
        Some((name, rest)) => match take_field(rest) {
            Some((value, rest)) => Some((name, value, rest)),
            None => None,
        },
        None => None,
    }
}

/// The attributes with one more value: a value with a name starts a new
/// attribute, a value without one belongs to the attribute before it.
pub open spec fn add_value(
    attrs: Seq<AttrView>,
    tag: u8,
    name: Seq<u8>,
    value: Seq<u8>,
) -> Option<Seq<AttrView>> {
    if name.len() > 0 {
        Some(attrs.push(AttrView { name: lossy(name), values: seq![(tag, value)] }))
    } else if attrs.len() > 0 {
        Some(
            attrs.drop_last().push(
                AttrView { values: attrs.last().values.push((tag, value)), ..attrs.last() },
            ),
        )
    } else {
        None
    }
}

/// The finished groups together with the open one.
pub open spec fn close_group(done: Seq<GroupView>, cur: Option<GroupView>) -> Seq<GroupView> {
    match cur {
        Some(g) => done.push(g),
        None => done,
    }
}

/// The groups and the data that the bytes after a header hold, given the groups
/// that were read before them and the one that is still open. The end tag may
/// be missing: the message then ends with the bytes.
pub open spec fn parse_groups(s: Seq<u8>, done: Seq<GroupView>, cur: Option<GroupView>) -> Result<
    (Seq<GroupView>, Seq<u8>),
    Seq<char>,
>
    decreases s.len(),
{
    if s.len() == 0 {
        Ok((close_group(done, cur), seq![]))
    } else if s[0] == G_END {
        Ok((close_group(done, cur), s.skip(1)))
    } else if s[0] <= 0x0f {
        parse_groups(
            s.skip(1),
            close_group(done, cur),
            Some(GroupView { tag: s[0], attrs: seq![] }),
        )
    } else {
        match take_value(s) {
            None => Err("truncated ipp attribute"@),
            Some((name, value, rest)) => match cur {
                None => Err("attribute outside of any group"@),
                Some(g) => match add_value(g.attrs, s[0], name, value) {
                    None => Err("additional value with no previous attribute"@),
                    Some(attrs) => parse_groups(rest, done, Some(GroupView { attrs, ..g })),
                },
            },
        }
    }
}

/// The message that the bytes hold, or what is wrong with them.
pub open spec fn parse_msg(buf: Seq<u8>) -> Result<MsgView, Seq<char>> {
    if buf.len() < 9 {
        Err("ipp message too short"@)
    } else {
        match parse_groups(buf.skip(8), seq![], None) {
            Ok((groups, data)) => Ok(
                MsgView {
                    version: (buf[0], buf[1]),
                    op_status: from_be16(buf[2], buf[3]) as u16,
                    request_id: from_be32(buf[4], buf[5], buf[6], buf[7]) as u32,
                    groups,
                    data,
                },
            ),
            Err(e) => Err(e),
        }
    }
}

/// The outcome of a fallible function as a mathematical value.
pub open spec fn msg_result(r: Result<Msg, String>) -> Result<MsgView, Seq<char>> {
    match r {
        Ok(m) => Ok(m@),
        Err(e) => Err(e@),
    }
}

/// The views of a list of groups.
pub open spec fn group_views(groups: Seq<Group>) -> Seq<GroupView> {
    groups.map_values(|g: Group| g@)
}

/// The group that is still open as a mathematical value.
spec fn open_view(g: Option<Group>) -> Option<GroupView> {
    match g {
        Some(g) => Some(g@),
        None => None,
    }
}

/// The start and the end of the field at `at`.
fn field_at(buf: &[u8], at: usize) -> (r: Option<(usize, usize)>)
    requires
        at <= buf@.len(),
    ensures
        r is Some <==> take_field(buf@.skip(at as int)) is Some,
        r matches Some((from, to)) ==> at < from <= to <= buf@.len() && take_field(
            buf@.skip(at as int),
        ) == Some((buf@.subrange(from as int, to as int), buf@.skip(to as int))),
{
    let ghost s = buf@.skip(at as int);
    if buf.len() - at < 2 {
        return None;
    }
    let n = read_u16(buf[at], buf[at + 1]) as usize;
    if buf.len() - at - 2 < n {
        return None;
    }
    assert(s.subrange(2, 2 + n) =~= buf@.subrange(at + 2, at + 2 + n));
    assert(s.skip(2 + n as int) =~= buf@.skip(at + 2 + n));
    Some((at + 2, at + 2 + n))
}

/// Adds a value to the attributes; false if it has no attribute to belong to.
fn push_parsed(attrs: &mut Vec<Attr>, tag: u8, name: &[u8], value: &[u8]) -> (r: bool)
    ensures
        r <==> add_value(attr_views(old(attrs)@), tag, name@, value@) is Some,
        r ==> add_value(attr_views(old(attrs)@), tag, name@, value@) == Some(
            attr_views(final(attrs)@),
        ),
        !r ==> final(attrs)@ == old(attrs)@,
{
    if name.len() > 0 {
        let mut values: Vec<(u8, Vec<u8>)> = Vec::new();
        values.push((tag, copy_bytes(value)));
        let a = Attr { name: lossy_text(name), values };
        assert(a@.values =~= seq![(tag, value@)]);
        attrs.push(a);
        assert(attr_views(attrs@) =~= attr_views(old(attrs)@).push(a@));
        true
    } else {
        match attrs.pop() {
            None => false,
            Some(mut a) => {
                let ghost prev = a@;
                a.values.push((tag, copy_bytes(value)));
                assert(a@.values =~= prev.values.push((tag, value@)));
                let ghost new = a@;
                attrs.push(a);
                assert(attr_views(attrs@) =~= attr_views(old(attrs)@).drop_last().push(new));
                true
            },
        }
    }
}

/// The message that the bytes hold, or what is wrong with them.
pub fn parse(buf: &[u8]) -> (r: Result<Msg, String>)
    ensures
        msg_result(r) == parse_msg(buf@),
{
    if buf.len() < 9 {
        return Err("ipp message too short".to_owned());
    }
    let mut groups: Vec<Group> = Vec::new();
    let mut data: Vec<u8> = Vec::new();
    let mut cur: Option<Group> = None;
    let mut i: usize = 8;
    let ghost whole = parse_groups(buf@.skip(8), seq![], None);
    assert(group_views(groups@) =~= seq![]);
    loop
        invariant_except_break
            8 <= i <= buf@.len(),
            data@ =~= seq![],
            whole == parse_groups(
                buf@.skip(i as int),
                group_views(groups@),
                open_view(cur),
            ),
        invariant
            whole == parse_groups(buf@.skip(8), seq![], None),
            buf@.len() >= 9,
        ensures
            whole == Ok::<(Seq<GroupView>, Seq<u8>), Seq<char>>(
                (
                    close_group(
                        group_views(groups@),
                        open_view(cur),
                    ),
                    data@,
                ),
            ),
        decreases buf@.len() - i,
    {
        let ghost s = buf@.skip(i as int);
        let ghost done = group_views(groups@);
        if i >= buf.len() {
            break ;
        }
        let tag = buf[i];
        assert(s[0] == tag);
        assert(s.skip(1) =~= buf@.skip(i + 1));
        if tag == G_END {
            data = copy_bytes(vstd::slice::slice_subrange(buf, i + 1, buf.len()));
            assert(data@ =~= s.skip(1));
            break ;
        }
        if tag <= 0x0f {
            let ghost old_cur = open_view(cur);
            match cur {
                Some(g) => {
                    groups.push(g);
                },
                None => {},
            }
            assert(group_views(groups@) =~= close_group(done, old_cur));
            let g = Group { tag, attrs: Vec::new() };
            assert(g@.attrs =~= seq![]);
            cur = Some(g);
            i += 1;
            continue ;
        }
        let (name_from, name_to) = match field_at(buf, i + 1) {
            Some(f) => f,
            None => {
                return Err("truncated ipp attribute".to_owned());
            },
        };
        let (value_from, value_to) = match field_at(buf, name_to) {
            Some(f) => f,
            None => {
                return Err("truncated ipp attribute".to_owned());
            },
        };
        let name = vstd::slice::slice_subrange(buf, name_from, name_to);
        let value = vstd::slice::slice_subrange(buf, value_from, value_to);
        match cur {
            None => {
                return Err("attribute outside of any group".to_owned());
            },
            Some(mut g) => {
                if !push_parsed(&mut g.attrs, tag, name, value) {
                    return Err("additional value with no previous attribute".to_owned());
                }
                cur = Some(g);
            },
        }
        i = value_to;
    }
    let ghost done = group_views(groups@);
    let ghost last = open_view(cur);
    match cur {
        Some(g) => {
            groups.push(g);
        },
        None => {},
    }
    assert(group_views(groups@) =~= close_group(done, last));
    let m = Msg {
        version: (buf[0], buf[1]),
        op_status: read_u16(buf[2], buf[3]),
        request_id: read_u32(buf[4], buf[5], buf[6], buf[7]),
        groups,
        data,
    };
    assert(parse_msg(buf@) == Ok::<MsgView, Seq<char>>(m@));
    Ok(m)
}

// ------------------------------------------------------------------- laws

/// Whether a place in a message comes before another one: in an earlier group, or
/// earlier in the same group.
pub open spec fn comes_before(g: int, a: int, h: int, b: int) -> bool {
    g < h || (g == h && a < b)
}

proof fn lemma_found_in_groups(groups: Seq<GroupView>, tag: u8, name: Seq<char>, g: int, a: int)
    requires
        0 <= g < groups.len(),
        0 <= a < groups[g].attrs.len(),
        groups[g].tag == tag,
        groups[g].attrs[a].name == name,
        forall|h: int, b: int|
            #![trigger groups[h].attrs[b]]
            0 <= h < groups.len() && 0 <= b < groups[h].attrs.len() && groups[h].tag == tag
                && comes_before(h, b, g, a) ==> groups[h].attrs[b].name != name,
    ensures
        first_named(attrs_in(groups, tag), name) == Some(groups[g].attrs[a]),
    decreases groups.len(),
{
    let rest = groups.drop_first();
    let more = attrs_in(rest, tag);
    let own = groups[0].attrs;
    if g == 0 {
        lemma_first_named_concat(own, more, name);
        assert forall|j: int| 0 <= j < a implies (#[trigger] own[j]).name != name by {
            assert(groups[0].attrs[j].name != name);
        }
        lemma_first_named_at(own, name, a);
    } else {
        assert forall|h: int, b: int|
            #![trigger rest[h].attrs[b]]
            0 <= h < rest.len() && 0 <= b < rest[h].attrs.len() && rest[h].tag == tag
                && comes_before(h, b, g - 1, a) implies rest[h].attrs[b].name != name by {
            assert(rest[h] == groups[h + 1]);
            assert(groups[h + 1].attrs[b].name != name);
        }
        assert(rest[g - 1] == groups[g]);
        lemma_found_in_groups(rest, tag, name, g - 1, a);
        if groups[0].tag == tag {
            assert forall|j: int| 0 <= j < own.len() implies (#[trigger] own[j]).name != name by {
                assert(groups[0].attrs[j].name != name);
            }
            lemma_first_named_absent(own, name);
            lemma_first_named_concat(own, more, name);
        }
    }
}

proof fn lemma_absent_in_groups(groups: Seq<GroupView>, tag: u8, name: Seq<char>)
    requires
        forall|h: int, b: int|
            #![trigger groups[h].attrs[b]]
            0 <= h < groups.len() && 0 <= b < groups[h].attrs.len() && groups[h].tag == tag
                ==> groups[h].attrs[b].name != name,
    ensures
        first_named(attrs_in(groups, tag), name) is None,
    decreases groups.len(),
{
    if groups.len() > 0 {
        let rest = groups.drop_first();
        let own = groups[0].attrs;
        assert forall|h: int, b: int|
            #![trigger rest[h].attrs[b]]
            0 <= h < rest.len() && 0 <= b < rest[h].attrs.len() && rest[h].tag
                == tag implies rest[h].attrs[b].name != name by {
            assert(rest[h] == groups[h + 1]);
            assert(groups[h + 1].attrs[b].name != name);
        }
        lemma_absent_in_groups(rest, tag, name);
        if groups[0].tag == tag {
            assert forall|j: int| 0 <= j < own.len() implies (#[trigger] own[j]).name != name by {
                assert(groups[0].attrs[j].name != name);
            }
            lemma_first_named_absent(own, name);
            lemma_first_named_concat(own, attrs_in(rest, tag), name);
        }
    }
}

/// Looking in the groups with a tag finds the attribute that stands first there
/// under the name, whatever stands in other groups.
pub proof fn law_first_in_groups_is_found(m: MsgView, tag: u8, name: Seq<char>, g: int, a: int)
    requires
        0 <= g < m.groups.len(),
        0 <= a < m.groups[g].attrs.len(),
        m.groups[g].tag == tag,
        m.groups[g].attrs[a].name == name,
        forall|h: int, b: int|
            #![trigger m.groups[h].attrs[b]]
            0 <= h < m.groups.len() && 0 <= b < m.groups[h].attrs.len() && m.groups[h].tag == tag
                && comes_before(h, b, g, a) ==> m.groups[h].attrs[b].name != name,
    ensures
        m.find_in(tag, name) == Some(m.groups[g].attrs[a]),
{
    lemma_found_in_groups(m.groups, tag, name, g, a);
}

/// Looking in the groups with a tag finds nothing where none of them has the name.
pub proof fn law_absent_in_groups_is_not_found(m: MsgView, tag: u8, name: Seq<char>)
    requires
        forall|h: int, b: int|
            #![trigger m.groups[h].attrs[b]]
            0 <= h < m.groups.len() && 0 <= b < m.groups[h].attrs.len() && m.groups[h].tag == tag
                ==> m.groups[h].attrs[b].name != name,
    ensures
        m.find_in(tag, name) is None,
{
    lemma_absent_in_groups(m.groups, tag, name);
}

/// The groups with the same tag, so that all of them are looked in.
spec fn under_one_tag(groups: Seq<GroupView>) -> Seq<GroupView> {
    groups.map_values(|g: GroupView| GroupView { tag: 0, ..g })
}

proof fn lemma_under_one_tag(groups: Seq<GroupView>)
    ensures
        all_attrs(groups) == attrs_in(under_one_tag(groups), 0),
    decreases groups.len(),
{
    if groups.len() > 0 {
        lemma_under_one_tag(groups.drop_first());
        assert(under_one_tag(groups).drop_first() =~= under_one_tag(groups.drop_first()));
    }
}

/// Looking in all groups finds the attribute that stands first in the message
/// under the name.
pub proof fn law_first_attribute_is_found(m: MsgView, name: Seq<char>, g: int, a: int)
    requires
        0 <= g < m.groups.len(),
        0 <= a < m.groups[g].attrs.len(),
        m.groups[g].attrs[a].name == name,
        forall|h: int, b: int|
            #![trigger m.groups[h].attrs[b]]
            0 <= h < m.groups.len() && 0 <= b < m.groups[h].attrs.len() && comes_before(h, b, g, a)
                ==> m.groups[h].attrs[b].name != name,
    ensures
        m.find(name) == Some(m.groups[g].attrs[a]),
{
    let all = under_one_tag(m.groups);
    lemma_under_one_tag(m.groups);
    assert forall|h: int, b: int|
        #![trigger all[h].attrs[b]]
        0 <= h < all.len() && 0 <= b < all[h].attrs.len() && all[h].tag == 0 && comes_before(
            h,
            b,
            g,
            a,
        ) implies all[h].attrs[b].name != name by {
        assert(m.groups[h].attrs[b].name != name);
    }
    lemma_found_in_groups(all, 0, name, g, a);
}

/// Looking in all groups finds nothing where no attribute has the name.
pub proof fn law_absent_attribute_is_not_found(m: MsgView, name: Seq<char>)
    requires
        forall|h: int, b: int|
            #![trigger m.groups[h].attrs[b]]
            0 <= h < m.groups.len() && 0 <= b < m.groups[h].attrs.len()
                ==> m.groups[h].attrs[b].name != name,
    ensures
        m.find(name) is None,
{
    let all = under_one_tag(m.groups);
    lemma_under_one_tag(m.groups);
    assert forall|h: int, b: int|
        #![trigger all[h].attrs[b]]
        0 <= h < all.len() && 0 <= b < all[h].attrs.len() && all[h].tag
            == 0 implies all[h].attrs[b].name != name by {
        assert(m.groups[h].attrs[b].name != name);
    }
    lemma_absent_in_groups(all, 0, name);
}

/// The attributes of the groups with a tag are those of each such group, one
/// group after the other, and none of any other group.
pub proof fn law_attributes_of_a_tag(m: MsgView, g: GroupView, tag: u8)
    ensures
        attrs_in(Seq::<GroupView>::empty(), tag) == Seq::<AttrView>::empty(),
        g.tag == tag ==> attrs_in(m.groups.push(g), tag) == attrs_in(m.groups, tag) + g.attrs,
        g.tag != tag ==> attrs_in(m.groups.push(g), tag) == attrs_in(m.groups, tag),
{
    let last = seq![g];
    assert(m.groups.push(g) =~= m.groups + last);
    lemma_attrs_in_concat(m.groups, last, tag);
    reveal_with_fuel(attrs_in, 2);
    if g.tag == tag {
        assert(attrs_in(last, tag) =~= g.attrs);
    } else {
        assert(attrs_in(m.groups, tag) + attrs_in(last, tag) =~= attrs_in(m.groups, tag));
    }
}

/// Where a message has one group with a tag, what is found under the tag is what
/// stands first in that group.
pub proof fn lemma_find_in_only_group(m: MsgView, g: int, name: Seq<char>)
    requires
        0 <= g < m.groups.len(),
        forall|h: int|
            0 <= h < m.groups.len() && h != g ==> (#[trigger] m.groups[h]).tag != m.groups[g].tag,
    ensures
        m.find_in(m.groups[g].tag, name) == first_named(m.groups[g].attrs, name),
{
    let tag = m.groups[g].tag;
    let own = m.groups[g].attrs;
    if exists|a: int| 0 <= a < own.len() && (#[trigger] own[a]).name == name {
        let a = choose|a: int| 0 <= a < own.len() && (#[trigger] own[a]).name == name;
        let b = lemma_least(own, name, a);
        assert forall|h: int, c: int|
            #![trigger m.groups[h].attrs[c]]
            0 <= h < m.groups.len() && 0 <= c < m.groups[h].attrs.len() && m.groups[h].tag == tag
                && comes_before(h, c, g, b) implies m.groups[h].attrs[c].name != name by {
            assert(h == g);
        }
        law_first_in_groups_is_found(m, tag, name, g, b);
        lemma_first_named_at(own, name, b);
    } else {
        assert forall|h: int, c: int|
            #![trigger m.groups[h].attrs[c]]
            0 <= h < m.groups.len() && 0 <= c < m.groups[h].attrs.len() && m.groups[h].tag
                == tag implies m.groups[h].attrs[c].name != name by {
            assert(h == g);
        }
        law_absent_in_groups_is_not_found(m, tag, name);
        lemma_first_named_absent(own, name);
    }
}

/// The first place of a name, given one of its places.
proof fn lemma_least(attrs: Seq<AttrView>, name: Seq<char>, a: int) -> (b: int)
    requires
        0 <= a < attrs.len(),
        attrs[a].name == name,
    ensures
        0 <= b <= a,
        attrs[b].name == name,
        forall|j: int| 0 <= j < b ==> (#[trigger] attrs[j]).name != name,
    decreases a,
{
    if exists|j: int| 0 <= j < a && (#[trigger] attrs[j]).name == name {
        let j = choose|j: int| 0 <= j < a && (#[trigger] attrs[j]).name == name;
        lemma_least(attrs, name, j)
    } else {
        a
    }
}

/// An attribute with several texts holds them all, in order, under its one tag.
pub proof fn law_strs_read_back(tag: u8, name: Seq<char>, vs: Seq<Seq<char>>, i: int)
    requires
        0 <= i < vs.len(),
    ensures
        strs_attr(tag, name, vs).name == name,
        strs_attr(tag, name, vs).values.len() == vs.len(),
        strs_attr(tag, name, vs).values[i].0 == tag,
        valid_utf8(strs_attr(tag, name, vs).values[i].1),
        decode_utf8(strs_attr(tag, name, vs).values[i].1) == vs[i],
        str_attr(tag, name, vs[i]).values == seq![strs_attr(tag, name, vs).values[i]],
{
    encode_utf8_valid_utf8(vs[i]);
    encode_utf8_decode_utf8(vs[i]);
}

/// An attribute with several integers holds them all, in order, under its one
/// tag; each is four bytes, the most significant first, in two's complement.
pub proof fn law_ints_read_back(tag: u8, name: Seq<char>, vs: Seq<i32>, i: int)
    requires
        0 <= i < vs.len(),
    ensures
        ints_attr(tag, name, vs).name == name,
        ints_attr(tag, name, vs).values.len() == vs.len(),
        ints_attr(tag, name, vs).values[i].0 == tag,
        int_attr(tag, name, vs[i]).values == seq![ints_attr(tag, name, vs).values[i]],
        ({
            let b = ints_attr(tag, name, vs).values[i].1;
            &&& b.len() == 4
            &&& b[0] * 0x1000000 + b[1] * 0x10000 + b[2] * 0x100 + b[3] == (if vs[i] < 0 {
                vs[i] + 0x1_0000_0000
            } else {
                vs[i] as int
            })
        }),
{
}

/// The first value of an attribute is a number exactly if it has four bytes, and
/// then the number whose bytes they are, in two's complement.
pub proof fn law_first_int_is_four_bytes(a: AttrView)
    ensures
        a.first_int() is Some <==> a.values.len() > 0 && a.values[0].1.len() == 4,
        a.first_int() matches Some(n) ==> ({
            let b = a.values[0].1;
            b[0] * 0x1000000 + b[1] * 0x10000 + b[2] * 0x100 + b[3] == (if n < 0 {
                n + 0x1_0000_0000
            } else {
                n as int
            })
        }),
{
}

/// The first value of an attribute is a text exactly if it is UTF-8, and then the
/// text that it spells.
pub proof fn law_first_str_is_utf8(a: AttrView)
    ensures
        a.first_str() is Some <==> a.values.len() > 0 && valid_utf8(a.values[0].1),
        a.first_str() matches Some(s) ==> encode_utf8(s) == a.values[0].1,
{
    if a.values.len() > 0 && valid_utf8(a.values[0].1) {
        decode_utf8_encode_utf8(a.values[0].1);
    }
}

/// A boolean is one byte, 1 for true and 0 for false.
pub proof fn law_boolean_is_one_byte(name: Seq<char>, v: bool)
    ensures
        boolean_attr(name, v).name == name,
        boolean_attr(name, v).values.len() == 1,
        boolean_attr(name, v).values[0].0 == 0x22,
        boolean_attr(name, v).values[0].1.len() == 1,
        boolean_attr(name, v).values[0].1[0] == (if v {
            1int
        } else {
            0int
        }),
{
}

/// A response is a message of version 2.0 with the status and the request id that
/// it was made with, and says the character set and the language of its texts.
pub proof fn law_response_says_its_request(status: u16, request_id: u32)
    ensures
        ({
            let m = response_msg(status, request_id);
            &&& m.version == (2u8, 0u8)
            &&& m.op_status == status
            &&& m.request_id == request_id
            &&& m.data.len() == 0
            &&& m.groups.len() == 1
            &&& m.groups[0].tag == 0x01
            &&& m.groups[0].attrs.len() == 2
            &&& m.groups[0].attrs[0] == str_attr(0x47, "attributes-charset"@, "utf-8"@)
            &&& m.groups[0].attrs[1] == str_attr(0x48, "attributes-natural-language"@, "en"@)
        }),
{
}

/// A new message is one of version 2.0 with the operation and the request id that
/// it was made with, and nothing in it.
pub proof fn law_new_message_is_empty(op: u16, request_id: u32)
    ensures
        new_msg(op, request_id).version == (2u8, 0u8),
        new_msg(op, request_id).op_status == op,
        new_msg(op, request_id).request_id == request_id,
        new_msg(op, request_id).groups.len() == 0,
        new_msg(op, request_id).data.len() == 0,
{
}

} // verus!
