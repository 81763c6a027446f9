//! Whole requests and responses, as the bytes that travel between a client, the
//! virtual printer and the real one.

use crate::http::{
    address_text, after_line_of, bad_line, blank_line, body_of, body_result, head_line, is_blank,
    lemma_first_line, length_of, line_end, line_len, line_of, mentions, opened_by, read_body, request_head, request_head_text, Framing, Progress,
    ProgressView, ReplyView, RequestHead, RequestView, ResponseReader, ResponseStage, ResponseView,
};
use crate::ipp::{msg_result, parse, parse_msg, Msg, MsgView};
use crate::jobs::SpoolerView;
use crate::server::{self, http_outcome, ipp_outcome, ipp_reply, text_reply, OutcomeView};
use crate::text::{
    all_space, bytes_of, decimal, is_space, lemma_encode_concat, lemma_trimmed_start_behind,
    lower_char, lowered, on_one_line, stands_at, trimmed, trimmed_end, trimmed_start, utf8_text,
    without_prefix, word, word_len,
};
use crate::uri::{law_number_of_decimal, lemma_decimal, PrinterUri, UriView};
use crate::wire::{law_parse_encode, msg_fits};
use vstd::prelude::*;
use vstd::slice::slice_subrange;
use vstd::utf8::*;

verus! {

// --------------------------------------------------------------- requests

/// The bytes of a request that posts an IPP message to a printer.
pub open spec fn posted(target: UriView, msg: MsgView) -> Seq<u8> {
    encode_utf8(request_head_text(target, msg.encode().len())) + msg.encode()
}

/// The bytes of a request that posts an IPP message to a printer.
pub fn request_bytes(target: &PrinterUri, msg: &Msg) -> (r: Vec<u8>)
    ensures
        r@ == posted(target@, msg@),
{
    let mut body = msg.encode();
    let ghost content = body@;
    let head = request_head(target, body.len());
    let mut out = bytes_of(head.as_str());
    out.append(&mut body);
    assert(out@ =~= encode_utf8(head@) + content);
    out
}

/// The head that header lines complete, and what follows it. A connection that
/// ends within a head gives none.
pub open spec fn headers_of(head: RequestView, s: Seq<u8>) -> Option<(RequestView, Seq<u8>)>
    decreases s.len(),
    via headers_of_decreases
{
    let line = line_of(s);
    if line.len() == 0 || !valid_utf8(line) {
        None
    } else if is_blank(decode_utf8(line)) {
        Some((head, after_line_of(s)))
    } else {
        headers_of(head.with_header(decode_utf8(line)), after_line_of(s))
    }
}

#[via_fn]
proof fn headers_of_decreases(head: RequestView, s: Seq<u8>) {
    s.index_of_first_ensures(10u8);
}

/// The head of a request, and what follows it.
pub open spec fn head_of(s: Seq<u8>) -> Option<(RequestView, Seq<u8>)> {
    let line = line_of(s);
    if line.len() == 0 || !valid_utf8(line) {
        None
    } else {
        match opened_by(decode_utf8(line)) {
            None => None,
            Some(head) => headers_of(head, after_line_of(s)),
        }
    }
}

/// A request: its head, and its body with what follows it. Only a POST has a
/// body.
pub open spec fn request_of(s: Seq<u8>) -> Option<
    (RequestView, Result<(Seq<u8>, Seq<u8>), Seq<char>>),
> {
    match head_of(s) {
        None => None,
        Some((head, rest)) => Some(
            (
                head,
                if head.method == "POST"@ {
                    body_of(rest, head.framing)
                } else {
                    Ok((seq![], rest))
                },
            ),
        ),
    }
}

/// A head and where it ends as a mathematical value.
spec fn head_view(r: Option<(RequestHead, usize)>, s: Seq<u8>) -> Option<(RequestView, Seq<u8>)> {
    match r {
        Some((head, at)) => Some((head@, s.skip(at as int))),
        None => None,
    }
}

/// The text of the line from `at` to `end`, unless it is empty or not UTF-8.
fn line_text(input: &[u8], at: usize, end: usize) -> (r: Option<&str>)
    requires
        at <= end <= input@.len(),
    ensures
        r is Some <==> at < end && valid_utf8(input@.subrange(at as int, end as int)),
        r matches Some(line) ==> line@ == decode_utf8(input@.subrange(at as int, end as int)),
{
    if at == end {
        None
    } else {
        utf8_text(slice_subrange(input, at, end))
    }
}

/// The head of a request, and where it ends.
fn read_head(input: &[u8]) -> (r: Option<(RequestHead, usize)>)
    ensures
        head_view(r, input@) == head_of(input@),
        r matches Some((_, at)) ==> at <= input@.len(),
{
    assert(input@.skip(0) =~= input@);
    let end = line_end(input, 0);
    assert(input@.subrange(0, end as int) =~= line_of(input@));
    let mut head = match line_text(input, 0, end) {
        None => {
            return None;
        },
        Some(line) => match RequestHead::open(line) {
            None => {
                return None;
            },
            Some(head) => head,
        },
    };
    let mut at: usize = end;
    assert(input@.skip(at as int) =~= after_line_of(input@));
    loop
        invariant
            at <= input@.len(),
            head_of(input@) == headers_of(head@, input@.skip(at as int)),
        decreases input@.len() - at,
    {
        let ghost s = input@.skip(at as int);
        let end = line_end(input, at);
        assert(input@.subrange(at as int, end as int) =~= line_of(s));
        assert(input@.skip(end as int) =~= after_line_of(s));
        match line_text(input, at, end) {
            None => {
                return None;
            },
            Some(line) => {
                if blank_line(line) {
                    return Some((head, end));
                }
                head.header(line);
            },
        }
        at = end;
    }
}

/// A request that was read as a mathematical value.
pub open spec fn request_result(
    r: Option<(RequestHead, Result<(Vec<u8>, usize), String>)>,
    s: Seq<u8>,
) -> Option<(RequestView, Result<(Seq<u8>, Seq<u8>), Seq<char>>)> {
    match r {
        Some((head, body)) => Some((head@, body_result(body, s))),
        None => None,
    }
}

/// Reads a request from the front of the input: its head, and its body with the
/// number of bytes that the request took. An input that ends within the head, or
/// holds none, is no request.
pub fn read_request(input: &[u8]) -> (r: Option<
    (RequestHead, Result<(Vec<u8>, usize), String>),
>)
    ensures
        request_result(r, input@) == request_of(input@),
        r matches Some((_, Ok((_, used)))) ==> used <= input@.len(),
{
    match read_head(input) {
        None => None,
        Some((head, at)) => {
            let ghost rest = input@.skip(at as int);
            if !head.has_body() {
                let empty: Vec<u8> = Vec::new();
                assert(empty@ =~= seq![]);
                return Some((head, Ok((empty, at))));
            }
            let left = slice_subrange(input, at, input.len());
            assert(left@ =~= rest);
            match read_body(left, head.framing.content_length, head.framing.chunked) {
                Ok((body, used)) => {
                    assert(rest.skip(used as int) =~= input@.skip(at + used));
                    Some((head, Ok((body, at + used))))
                },
                Err(e) => Some((head, Err(e))),
            }
        },
    }
}

// -------------------------------------------------------------- responses

/// How many lines a head has at least to come.
pub open spec fn lines_to_come(stage: ResponseStage) -> int {
    match stage {
        ResponseStage::Status => 3,
        ResponseStage::Interim => 2,
        ResponseStage::FinalStatus => 1,
        ResponseStage::Headers => 0,
    }
}

/// What the head of a response says of its body, and what follows the head; or
/// why the body is of no interest.
pub open spec fn framing_of(reader: ResponseView, s: Seq<u8>, uri: Seq<char>) -> Result<
    (Framing, Seq<u8>),
    Seq<char>,
>
    decreases s.len(), lines_to_come(reader.stage),
    via framing_of_decreases
{
    let line = line_of(s);
    if !valid_utf8(line) {
        Err(bad_line())
    } else {
        let (next, progress) = reader.after_line(decode_utf8(line), uri);
        match progress {
            ProgressView::Line => framing_of(next, after_line_of(s), uri),
            ProgressView::Body(framing) => Ok((framing, after_line_of(s))),
            ProgressView::Failed(e) => Err(e),
        }
    }
}

#[via_fn]
proof fn framing_of_decreases(reader: ResponseView, s: Seq<u8>, uri: Seq<char>) {
    s.index_of_first_ensures(10u8);
    if s.len() == 0 {
        lemma_no_text(line_of(s));
    }
}

proof fn lemma_no_text(line: Seq<u8>)
    requires
        line.len() == 0,
    ensures
        valid_utf8(line),
        decode_utf8(line).len() == 0,
{
}

/// A reader before the first line.
pub open spec fn fresh_reader() -> ResponseView {
    ResponseView { stage: ResponseStage::Status, status: seq![], framing: Framing::unknown() }
}

/// The IPP message that a response from `uri` carries, or what is wrong with it.
pub open spec fn response_of(s: Seq<u8>, uri: Seq<char>) -> Result<MsgView, Seq<char>> {
    match framing_of(fresh_reader(), s, uri) {
        Err(e) => Err(e),
        Ok((framing, rest)) => match body_of(rest, framing) {
            Err(e) => Err(e),
            Ok((body, _)) => parse_msg(body),
        },
    }
}

/// What the head of a response says of its body and where the head ends, as a
/// mathematical value.
spec fn framing_view(r: Result<(Framing, usize), String>, s: Seq<u8>) -> Result<
    (Framing, Seq<u8>),
    Seq<char>,
> {
    match r {
        Ok((framing, at)) => Ok((framing, s.skip(at as int))),
        Err(e) => Err(e@),
    }
}

/// What the head of a response says of its body, and where the head ends.
fn read_framing(input: &[u8], uri: &str) -> (r: Result<(Framing, usize), String>)
    ensures
        framing_view(r, input@) == framing_of(fresh_reader(), input@, uri@),
        r matches Ok((_, at)) ==> at <= input@.len(),
{
    let mut reader = ResponseReader::new();
    let mut at: usize = 0;
    assert(input@.skip(0) =~= input@);
    loop
        invariant
            at <= input@.len(),
            framing_of(fresh_reader(), input@, uri@) == framing_of(
                reader@,
                input@.skip(at as int),
                uri@,
            ),
        decreases input@.len() - at, lines_to_come(reader@.stage),
    {
        let ghost s = input@.skip(at as int);
        let end = line_end(input, at);
        assert(input@.subrange(at as int, end as int) =~= line_of(s));
        assert(input@.skip(end as int) =~= after_line_of(s));
        proof {
            if s.len() == 0 {
                lemma_no_text(line_of(s));
            }
        }
        match utf8_text(slice_subrange(input, at, end)) {
            None => {
                return Err("stream did not contain valid UTF-8".to_owned());
            },
            Some(line) => match reader.on_line(line, uri) {
                Progress::Line => {},
                Progress::Body(framing) => {
                    return Ok((framing, end));
                },
                Progress::Failed(e) => {
                    return Err(e);
                },
            },
        }
        at = end;
    }
}

/// Reads the IPP message that a response from `uri` carries.
pub fn read_response(input: &[u8], uri: &str) -> (r: Result<Msg, String>)
    ensures
        msg_result(r) == response_of(input@, uri@),
{
    match read_framing(input, uri) {
        Err(e) => Err(e),
        Ok((framing, at)) => {
            let rest = slice_subrange(input, at, input.len());
            assert(rest@ =~= input@.skip(at as int));
            match read_body(rest, framing.content_length, framing.chunked) {
                Err(e) => Err(e),
                Ok((body, _)) => parse(&body),
            }
        },
    }
}

// ----------------------------------------------------------- texts in bytes

/// The bytes of a text after which others follow.
proof fn lemma_encode_before(a: Seq<char>, b: Seq<char>, tail: Seq<u8>)
    ensures
        encode_utf8(a + b) + tail == encode_utf8(a) + (encode_utf8(b) + tail),
{
    lemma_encode_concat(a, b);
    lemma_associative(encode_utf8(a), encode_utf8(b), tail);
}

proof fn lemma_associative(a: Seq<u8>, b: Seq<u8>, c: Seq<u8>)
    ensures
        (a + b) + c == a + (b + c),
{
    assert((a + b) + c =~= a + (b + c));
}

/// The empty line that ends a head.
proof fn lemma_last_line()
    ensures
        is_blank(head_line(seq![])),
{
    reveal_strlit("\r\n");
    assert(head_line(seq![]) =~= "\r\n"@);
}

proof fn lemma_not_blank(bare: Seq<char>)
    requires
        bare.len() > 0,
    ensures
        !is_blank(head_line(bare)),
        head_line(bare).len() > 2,
{
    reveal_strlit("\r\n");
    reveal_strlit("\n");
    assert(head_line(bare).len() == bare.len() + 2);
}

// ------------------------------------------------------------ header lines

proof fn lemma_lowered(s: Seq<char>, i: int)
    requires
        0 <= i < s.len(),
    ensures
        lowered(s)[i] == lower_char(s[i]),
        lowered(s).len() == s.len(),
{
}

proof fn lemma_no_prefix(prefix: Seq<char>, s: Seq<char>, i: int)
    requires
        0 <= i < prefix.len(),
        i < s.len(),
        prefix[i] != s[i],
    ensures
        !prefix.is_prefix_of(s),
{
    if prefix.is_prefix_of(s) {
        assert(s.subrange(0, prefix.len() as int)[i] == s[i]);
    }
}

/// A header that says nothing of the body, the connection or a continuation.
proof fn lemma_other_header(line: Seq<char>)
    requires
        line.len() > 0,
        lower_char(line[0]) != 'c',
        lower_char(line[0]) != 't',
        lower_char(line[0]) != 'e',
    ensures
        forall|f: Framing| #[trigger] f.with_header(line) == f,
        forall|h: RequestView| #[trigger] h.with_header(line) == h,
{
    reveal_strlit("content-length:");
    reveal_strlit("transfer-encoding:");
    reveal_strlit("expect:");
    reveal_strlit("connection:");
    lemma_lowered(line, 0);
    let l = lowered(line);
    lemma_no_prefix("content-length:"@, l, 0);
    lemma_no_prefix("transfer-encoding:"@, l, 0);
    lemma_no_prefix("expect:"@, l, 0);
    lemma_no_prefix("connection:"@, l, 0);
    assert forall|h: RequestView| #[trigger] h.with_header(line) == h by {
        assert(h.framing.with_header(line) == h.framing);
    }
}

/// The header that gives the content's type.
proof fn lemma_type_header(rest: Seq<char>)
    ensures
        forall|f: Framing| #[trigger] f.with_header(head_line("Content-Type: "@ + rest)) == f,
        forall|h: RequestView| #[trigger] h.with_header(head_line("Content-Type: "@ + rest)) == h,
{
    let line = head_line("Content-Type: "@ + rest);
    reveal_strlit("Content-Type: ");
    reveal_strlit("content-length:");
    reveal_strlit("transfer-encoding:");
    reveal_strlit("expect:");
    reveal_strlit("connection:");
    let l = lowered(line);
    lemma_lowered(line, 0);
    lemma_lowered(line, 3);
    lemma_lowered(line, 8);
    lemma_no_prefix("content-length:"@, l, 8);
    lemma_no_prefix("transfer-encoding:"@, l, 0);
    lemma_no_prefix("expect:"@, l, 0);
    lemma_no_prefix("connection:"@, l, 3);
    assert forall|h: RequestView| #[trigger] h.with_header(line) == h by {
        assert(h.framing.with_header(line) == h.framing);
    }
}

proof fn lemma_trim_length(digits: Seq<char>)
    requires
        digits.len() > 0,
        forall|i: int| 0 <= i < digits.len() ==> '0' <= #[trigger] digits[i] <= '9',
    ensures
        trimmed(seq![' '] + digits + seq!['\r', '\n']) == digits,
{
    let s = seq![' '] + digits + seq!['\r', '\n'];
    let t = digits + seq!['\r', '\n'];
    assert(s.drop_first() =~= t);
    assert(!is_space(t[0])) by {
        assert(t[0] == digits[0]);
    }
    assert(trimmed_start(t) == t);
    assert(trimmed_start(s) == t);
    assert(t.drop_last() =~= digits + seq!['\r']);
    assert(t.drop_last().drop_last() =~= digits);
    assert(!is_space(digits.last()));
    assert(trimmed_end(digits) == digits);
    assert(trimmed_end(t.drop_last()) == digits);
    assert(trimmed_end(t) == digits);
}

/// The header that gives the content's length.
proof fn lemma_length_header(n: nat)
    requires
        n <= usize::MAX,
    ensures
        forall|f: Framing|
            #[trigger] f.with_header(head_line("Content-Length: "@ + decimal(n))) == (Framing {
                content_length: Some(n as usize),
                ..f
            }),
        forall|h: RequestView|
            #[trigger] h.with_header(head_line("Content-Length: "@ + decimal(n))) == (RequestView {
                framing: Framing { content_length: Some(n as usize), ..h.framing },
                ..h
            }),
{
    let digits = decimal(n);
    let line = head_line("Content-Length: "@ + digits);
    reveal_strlit("Content-Length: ");
    reveal_strlit("content-length:");
    reveal_strlit("expect:");
    reveal_strlit("connection:");
    let l = lowered(line);
    lemma_decimal(n);
    law_number_of_decimal(n, usize::MAX as nat);
    lemma_lowered(line, 0);
    lemma_lowered(line, 3);
    lemma_no_prefix("expect:"@, l, 0);
    lemma_no_prefix("connection:"@, l, 3);
    assert(l.subrange(0, 15) =~= "content-length:"@);
    assert("content-length:"@.is_prefix_of(l));
    let value = seq![' '] + digits + seq!['\r', '\n'];
    assert(l.skip(15) =~= value) by {
        assert forall|i: int| 0 <= i < value.len() implies l.skip(15)[i] == value[i] by {
            lemma_lowered(line, i + 15);
            if 1 <= i <= digits.len() {
                assert(line[i + 15] == digits[i - 1]);
            }
        }
    }
    lemma_trim_length(digits);
    assert(without_prefix(l, "content-length:"@) == Some(value));
    assert(length_of(value) == Some(n as usize));
    assert forall|h: RequestView|
        #[trigger] h.with_header(line) == (RequestView {
            framing: Framing { content_length: Some(n as usize), ..h.framing },
            ..h
        }) by {
        assert(h.framing.with_header(line) == (Framing {
            content_length: Some(n as usize),
            ..h.framing
        }));
    }
}

/// The header that says what becomes of the connection.
proof fn lemma_connection_header(rest: Seq<char>)
    ensures
        forall|f: Framing| #[trigger] f.with_header(head_line("Connection: "@ + rest)) == f,
{
    let line = head_line("Connection: "@ + rest);
    reveal_strlit("Connection: ");
    reveal_strlit("content-length:");
    reveal_strlit("transfer-encoding:");
    let l = lowered(line);
    lemma_lowered(line, 0);
    lemma_lowered(line, 3);
    lemma_no_prefix("content-length:"@, l, 3);
    lemma_no_prefix("transfer-encoding:"@, l, 0);
}

/// The header that closes the connection.
proof fn lemma_close_header()
    ensures
        forall|h: RequestView|
            #[trigger] h.with_header(head_line("Connection: close"@)) == (RequestView {
                keep_alive: false,
                ..h
            }),
{
    let line = head_line("Connection: close"@);
    reveal_strlit("Connection: close");
    reveal_strlit("Connection: ");
    reveal_strlit("close");
    reveal_strlit("connection:");
    reveal_strlit("expect:");
    assert("Connection: close"@ =~= "Connection: "@ + "close"@);
    lemma_connection_header("close"@);
    let l = lowered(line);
    assert(l.len() == 19);
    assert(l.subrange(0, 11) =~= "connection:"@);
    assert("connection:"@.is_prefix_of(l));
    assert(l.subrange(12, 17) =~= "close"@);
    assert(stands_at(l, "close"@, 12));
    assert(mentions(line, "connection:"@, "close"@));
    lemma_lowered(line, 0);
    lemma_no_prefix("expect:"@, l, 0);
    assert forall|h: RequestView|
        #[trigger] h.with_header(line) == (RequestView { keep_alive: false, ..h }) by {
        assert(h.framing.with_header(line) == h.framing);
    }
}

// ------------------------------------------------------------- first lines

/// A text that is one word.
pub open spec fn is_word(s: Seq<char>) -> bool {
    s.len() > 0 && forall|i: int| 0 <= i < s.len() ==> !is_space(#[trigger] s[i])
}

proof fn lemma_word_len(a: Seq<char>, rest: Seq<char>)
    requires
        forall|i: int| 0 <= i < a.len() ==> !is_space(#[trigger] a[i]),
        rest.len() == 0 || is_space(rest[0]),
    ensures
        word_len(a + rest) == a.len(),
    decreases a.len(),
{
    if a.len() == 0 {
        assert(a + rest =~= rest);
    } else {
        let more = a.drop_first();
        assert forall|i: int| 0 <= i < more.len() implies !is_space(#[trigger] more[i]) by {
            assert(more[i] == a[i + 1]);
        }
        lemma_word_len(more, rest);
        assert((a + rest).drop_first() =~= more + rest);
        assert(!is_space(a[0]));
        assert((a + rest)[0] == a[0]);
    }
}

/// The first word of a text, and that it starts there.
pub proof fn lemma_first_word(a: Seq<char>, rest: Seq<char>)
    requires
        is_word(a),
        rest.len() == 0 || is_space(rest[0]),
    ensures
        word(a + rest, 0) == Some(a),
        trimmed_start(a + rest) == a + rest,
        word_len(a + rest) == a.len(),
{
    lemma_word_len(a, rest);
    assert(!is_space(a[0]));
    assert((a + rest)[0] == a[0]);
    assert((a + rest).take(a.len() as int) =~= a);
}

/// The first two words of a line.
proof fn lemma_two_words(a: Seq<char>, b: Seq<char>, rest: Seq<char>)
    requires
        is_word(a),
        is_word(b),
        rest.len() == 0 || is_space(rest[0]),
    ensures
        word(a + (seq![' '] + (b + rest)), 0) == Some(a),
        word(a + (seq![' '] + (b + rest)), 1) == Some(b),
{
    let gap = seq![' '] + (b + rest);
    assert(gap[0] == ' ');
    lemma_first_word(a, gap);
    lemma_first_word(b, rest);
    assert((a + gap).skip(a.len() as int) =~= gap);
    assert(gap.drop_first() =~= b + rest);
    assert(trimmed_start(gap) == b + rest);
    assert(trimmed_start(b + rest) == b + rest);
    assert(word(gap, 0) == Some(b));
}

// ------------------------------------------------------------------- laws

proof fn lemma_headers_line(head: RequestView, bare: Seq<char>, tail: Seq<u8>)
    requires
        on_one_line(bare),
        bare.len() > 0,
    ensures
        headers_of(head, encode_utf8(head_line(bare)) + tail) == headers_of(
            head.with_header(head_line(bare)),
            tail,
        ),
{
    lemma_first_line(bare, tail);
    lemma_not_blank(bare);
}

proof fn lemma_headers_end(head: RequestView, tail: Seq<u8>)
    ensures
        headers_of(head, encode_utf8(head_line(seq![])) + tail) == Some((head, tail)),
{
    lemma_first_line(seq![], tail);
    lemma_last_line();
}

/// The lines of a request's head.
proof fn lemma_request_lines(target: UriView, length: nat)
    ensures
        request_head_text(target, length) == head_line("POST "@ + target.path + " HTTP/1.1"@) + (
        head_line("Host: "@ + address_text(target)) + (head_line(
            "Content-Type: "@ + "application/ipp"@,
        ) + (head_line("Content-Length: "@ + decimal(length)) + (head_line(
            "User-Agent: ipp-duplexd/0.1"@,
        ) + (head_line("Connection: close"@) + head_line(seq![])))))),
{
    reveal_strlit("POST ");
    reveal_strlit(" HTTP/1.1");
    reveal_strlit(" HTTP/1.1\r\nHost: ");
    reveal_strlit("Host: ");
    reveal_strlit("\r\nContent-Type: application/ipp\r\nContent-Length: ");
    reveal_strlit("Content-Type: ");
    reveal_strlit("application/ipp");
    reveal_strlit("Content-Length: ");
    reveal_strlit("\r\nUser-Agent: ipp-duplexd/0.1\r\nConnection: close\r\n\r\n");
    reveal_strlit("User-Agent: ipp-duplexd/0.1");
    reveal_strlit("Connection: close");
    let path = target.path;
    let address = address_text(target);
    let digits = decimal(length);
    let crlf = seq!['\r', '\n'];
    assert(" HTTP/1.1\r\nHost: "@ =~= " HTTP/1.1"@ + crlf + "Host: "@);
    assert("\r\nContent-Type: application/ipp\r\nContent-Length: "@ =~= crlf + ("Content-Type: "@
        + "application/ipp"@) + crlf + "Content-Length: "@);
    assert("\r\nUser-Agent: ipp-duplexd/0.1\r\nConnection: close\r\n\r\n"@ =~= crlf
        + "User-Agent: ipp-duplexd/0.1"@ + crlf + "Connection: close"@ + crlf + (
    Seq::<char>::empty() + crlf));
    lemma_joined(
        "POST "@ + path,
        " HTTP/1.1"@,
        crlf,
        "Host: "@,
        address,
        "Content-Type: "@ + "application/ipp"@,
        "Content-Length: "@,
        digits,
        "User-Agent: ipp-duplexd/0.1"@,
        "Connection: close"@,
        Seq::<char>::empty() + crlf,
    );
}

proof fn lemma_joined(
    a: Seq<char>,
    b: Seq<char>,
    e: Seq<char>,
    c: Seq<char>,
    d: Seq<char>,
    f: Seq<char>,
    g: Seq<char>,
    h: Seq<char>,
    i: Seq<char>,
    j: Seq<char>,
    k: Seq<char>,
)
    ensures
        a + (b + e + c) + d + (e + f + e + g) + h + (e + i + e + j + e + k) == (a + b + e) + ((c + d
            + e) + ((f + e) + ((g + h + e) + ((i + e) + ((j + e) + k))))),
{
    assert(a + (b + e + c) + d + (e + f + e + g) + h + (e + i + e + j + e + k) =~= (a + b + e) + ((c
        + d + e) + ((f + e) + ((g + h + e) + ((i + e) + ((j + e) + k))))));
}

/// The request line of a post.
proof fn lemma_request_line(path: Seq<char>)
    requires
        is_word(path),
    ensures
        opened_by(head_line("POST "@ + path + " HTTP/1.1"@)) == Some(
            RequestView {
                method: "POST"@,
                path,
                framing: Framing::unknown(),
                expect_continue: false,
                keep_alive: true,
            },
        ),
        on_one_line("POST "@ + path + " HTTP/1.1"@),
{
    reveal_strlit("POST ");
    reveal_strlit("POST");
    reveal_strlit(" HTTP/1.1");
    let rest = " HTTP/1.1"@ + seq!['\r', '\n'];
    let bare = "POST "@ + path + " HTTP/1.1"@;
    lemma_two_words("POST"@, path, rest);
    assert(head_line(bare) =~= "POST"@ + (seq![' '] + (path + rest)));
    assert forall|i: int| 0 <= i < bare.len() implies #[trigger] bare[i] != '\n' by {
        if 5 <= i < 5 + path.len() {
            assert(bare[i] == path[i - 5]);
            assert(!is_space(path[i - 5]));
        }
    }
}

proof fn lemma_address_line(target: UriView)
    requires
        on_one_line(target.host),
    ensures
        on_one_line("Host: "@ + address_text(target)),
{
    reveal_strlit("Host: ");
    reveal_strlit(":");
    lemma_decimal(target.port as nat);
    let digits = decimal(target.port as nat);
    let bare = "Host: "@ + address_text(target);
    assert forall|i: int| 0 <= i < bare.len() implies #[trigger] bare[i] != '\n' by {
        let n = target.host.len();
        if 6 <= i < 6 + n {
            assert(bare[i] == target.host[i - 6]);
        } else if i >= 7 + n {
            assert(bare[i] == digits[i - 7 - n]);
        }
    }
}

proof fn lemma_length_line(n: nat)
    ensures
        on_one_line("Content-Length: "@ + decimal(n)),
{
    reveal_strlit("Content-Length: ");
    lemma_decimal(n);
    let bare = "Content-Length: "@ + decimal(n);
    assert forall|i: int| 0 <= i < bare.len() implies #[trigger] bare[i] != '\n' by {
        if i >= 16 {
            assert(bare[i] == decimal(n)[i - 16]);
        }
    }
}

/// The header lines of a post, read from the front.
proof fn lemma_post_headers(target: UriView, n: nat, head: RequestView, tail: Seq<u8>)
    requires
        n <= usize::MAX,
        on_one_line(target.host),
        head.framing == Framing::unknown(),
    ensures
        ({
            let lines = encode_utf8(head_line("Host: "@ + address_text(target))) + (encode_utf8(
                head_line("Content-Type: "@ + "application/ipp"@),
            ) + (encode_utf8(head_line("Content-Length: "@ + decimal(n))) + (encode_utf8(
                head_line("User-Agent: ipp-duplexd/0.1"@),
            ) + (encode_utf8(head_line("Connection: close"@)) + (encode_utf8(head_line(seq![]))
                + tail)))));
            headers_of(head, lines) == Some(
                (
                    RequestView {
                        framing: Framing { content_length: Some(n as usize), chunked: false },
                        keep_alive: false,
                        ..head
                    },
                    tail,
                ),
            )
        }),
{
    reveal_strlit("Host: ");
    reveal_strlit("Content-Type: ");
    reveal_strlit("application/ipp");
    reveal_strlit("Content-Length: ");
    reveal_strlit("User-Agent: ipp-duplexd/0.1");
    reveal_strlit("Connection: close");
    let host = "Host: "@ + address_text(target);
    let kind = "Content-Type: "@ + "application/ipp"@;
    let length = "Content-Length: "@ + decimal(n);
    let agent = "User-Agent: ipp-duplexd/0.1"@;
    let close = "Connection: close"@;
    let t5 = encode_utf8(head_line(seq![])) + tail;
    let t4 = encode_utf8(head_line(close)) + t5;
    let t3 = encode_utf8(head_line(agent)) + t4;
    let t2 = encode_utf8(head_line(length)) + t3;
    let t1 = encode_utf8(head_line(kind)) + t2;
    lemma_address_line(target);
    lemma_length_line(n);
    lemma_headers_line(head, host, t1);
    assert(head_line(host)[0] == 'H');
    lemma_other_header(head_line(host));
    lemma_headers_line(head, kind, t2);
    lemma_type_header("application/ipp"@);
    lemma_headers_line(head, length, t3);
    lemma_length_header(n);
    let sized = head.with_header(head_line(length));
    lemma_headers_line(sized, agent, t4);
    assert(head_line(agent)[0] == 'U');
    lemma_other_header(head_line(agent));
    lemma_headers_line(sized, close, t5);
    lemma_close_header();
    lemma_headers_end(sized.with_header(head_line(close)), tail);
}

/// A message that is posted arrives: what the receiver reads of the request is a
/// POST to the printer's path whose body is the encoded message, to its last
/// byte. The path is one word, and the host stands on one line.
pub proof fn law_posted_message_arrives(target: UriView, msg: MsgView)
    requires
        is_word(target.path),
        on_one_line(target.host),
        msg.encode().len() <= usize::MAX,
    ensures
        request_of(posted(target, msg)) matches Some((head, body)) && head.method == "POST"@
            && head.path == target.path && !head.keep_alive && body == Ok::<
            (Seq<u8>, Seq<u8>),
            Seq<char>,
        >((msg.encode(), seq![])),
{
    let content = msg.encode();
    let n = content.len();
    let first = "POST "@ + target.path + " HTTP/1.1"@;
    let host = "Host: "@ + address_text(target);
    let kind = "Content-Type: "@ + "application/ipp"@;
    let length = "Content-Length: "@ + decimal(n);
    let agent = "User-Agent: ipp-duplexd/0.1"@;
    let close = "Connection: close"@;
    lemma_request_lines(target, n);
    let r5 = head_line(close) + head_line(seq![]);
    let r4 = head_line(agent) + r5;
    let r3 = head_line(length) + r4;
    let r2 = head_line(kind) + r3;
    let r1 = head_line(host) + r2;
    lemma_encode_before(head_line(close), head_line(seq![]), content);
    lemma_encode_before(head_line(agent), r5, content);
    lemma_encode_before(head_line(length), r4, content);
    lemma_encode_before(head_line(kind), r3, content);
    lemma_encode_before(head_line(host), r2, content);
    lemma_encode_before(head_line(first), r1, content);
    let lines = encode_utf8(head_line(host)) + (encode_utf8(head_line(kind)) + (encode_utf8(
        head_line(length),
    ) + (encode_utf8(head_line(agent)) + (encode_utf8(head_line(close)) + (encode_utf8(
        head_line(seq![]),
    ) + content)))));
    assert(posted(target, msg) == encode_utf8(head_line(first)) + lines);
    lemma_request_line(target.path);
    lemma_first_line(first, lines);
    lemma_post_headers(target, n, opened_by(head_line(first)).unwrap(), content);
    assert(content.take(n as int) =~= content);
    assert(content.skip(n as int) =~= seq![]);
}

// ---------------------------------------------------- answers that are read

proof fn lemma_framing_line(
    reader: ResponseView,
    bare: Seq<char>,
    tail: Seq<u8>,
    uri: Seq<char>,
    next: ResponseView,
)
    requires
        on_one_line(bare),
        reader.after_line(head_line(bare), uri) == (next, ProgressView::Line),
    ensures
        framing_of(reader, encode_utf8(head_line(bare)) + tail, uri) == framing_of(
            next,
            tail,
            uri,
        ),
{
    lemma_first_line(bare, tail);
}

/// The header lines of an answer, read from the front.
proof fn lemma_answer_headers(
    status: Seq<char>,
    kind: Seq<char>,
    n: nat,
    connection: Seq<char>,
    tail: Seq<u8>,
    uri: Seq<char>,
)
    requires
        n <= usize::MAX,
        on_one_line(kind),
        on_one_line(connection),
    ensures
        ({
            let reader = ResponseView {
                stage: ResponseStage::Headers,
                status,
                framing: Framing::unknown(),
            };
            let lines = encode_utf8(head_line("Content-Type: "@ + kind)) + (encode_utf8(
                head_line("Content-Length: "@ + decimal(n)),
            ) + (encode_utf8(head_line("Connection: "@ + connection)) + (encode_utf8(
                head_line(seq![]),
            ) + tail)));
            framing_of(reader, lines, uri) == if status == "200"@ {
                Ok::<(Framing, Seq<u8>), Seq<char>>(
                    (Framing { content_length: Some(n as usize), chunked: false }, tail),
                )
            } else {
                Err("http status "@ + status + " from "@ + uri)
            }
        }),
{
    reveal_strlit("Content-Type: ");
    reveal_strlit("Content-Length: ");
    reveal_strlit("Connection: ");
    let reader = ResponseView {
        stage: ResponseStage::Headers,
        status,
        framing: Framing::unknown(),
    };
    let sized = ResponseView {
        framing: Framing { content_length: Some(n as usize), chunked: false },
        ..reader
    };
    let l1 = "Content-Type: "@ + kind;
    let l2 = "Content-Length: "@ + decimal(n);
    let l3 = "Connection: "@ + connection;
    let t3 = encode_utf8(head_line(seq![])) + tail;
    let t2 = encode_utf8(head_line(l3)) + t3;
    let t1 = encode_utf8(head_line(l2)) + t2;
    assert(on_one_line(l1)) by {
        assert forall|i: int| 0 <= i < l1.len() implies #[trigger] l1[i] != '\n' by {
            if i >= 14 {
                assert(l1[i] == kind[i - 14]);
            }
        }
    }
    assert(on_one_line(l3)) by {
        assert forall|i: int| 0 <= i < l3.len() implies #[trigger] l3[i] != '\n' by {
            if i >= 12 {
                assert(l3[i] == connection[i - 12]);
            }
        }
    }
    lemma_length_line(n);
    lemma_type_header(kind);
    lemma_length_header(n);
    lemma_connection_header(connection);
    lemma_not_blank(l1);
    lemma_not_blank(l2);
    lemma_not_blank(l3);
    lemma_framing_line(reader, l1, t1, uri, reader);
    lemma_framing_line(reader, l2, t2, uri, sized);
    lemma_framing_line(sized, l3, t3, uri, sized);
    lemma_first_line(seq![], tail);
    lemma_last_line();
}

/// The lines of an answer's head.
proof fn lemma_answer_lines(reply: ReplyView, connection: Seq<char>)
    ensures
        "HTTP/1.1 "@ + reply.status + "\r\nContent-Type: "@ + reply.content_type
            + "\r\nContent-Length: "@ + decimal(reply.body.len()) + "\r\nConnection: "@ + connection
            + "\r\n\r\n"@ == head_line("HTTP/1.1 "@ + reply.status) + (head_line(
            "Content-Type: "@ + reply.content_type,
        ) + (head_line("Content-Length: "@ + decimal(reply.body.len())) + (head_line(
            "Connection: "@ + connection,
        ) + head_line(seq![])))),
{
    reveal_strlit("\r\nContent-Type: ");
    reveal_strlit("Content-Type: ");
    reveal_strlit("\r\nContent-Length: ");
    reveal_strlit("Content-Length: ");
    reveal_strlit("\r\nConnection: ");
    reveal_strlit("Connection: ");
    reveal_strlit("\r\n\r\n");
    let e = seq!['\r', '\n'];
    assert("\r\nContent-Type: "@ =~= e + "Content-Type: "@);
    assert("\r\nContent-Length: "@ =~= e + "Content-Length: "@);
    assert("\r\nConnection: "@ =~= e + "Connection: "@);
    assert("\r\n\r\n"@ =~= e + (Seq::<char>::empty() + e));
    let a = "HTTP/1.1 "@ + reply.status;
    let b = "Content-Type: "@;
    let c = reply.content_type;
    let d = "Content-Length: "@;
    let f = decimal(reply.body.len());
    let g = "Connection: "@;
    let h = connection;
    let k = Seq::<char>::empty() + e;
    assert(a + (e + b) + c + (e + d) + f + (e + g) + h + (e + k) =~= (a + e) + ((b + c + e) + ((d
        + f + e) + ((g + h + e) + k))));
}

/// An answer is read as it was given: a client of the virtual printer gets the
/// IPP message in the body of a 200 answer, and of any other answer the code of
/// its status. `more` may follow on a connection that stays open.
pub proof fn law_answer_is_read(
    reply: ReplyView,
    code: Seq<char>,
    reason: Seq<char>,
    keep_alive: bool,
    uri: Seq<char>,
    more: Seq<u8>,
)
    requires
        reply.status == code + seq![' '] + reason,
        is_word(code),
        code != "100"@,
        on_one_line(reason),
        on_one_line(reply.content_type),
        reply.body.len() <= usize::MAX,
    ensures
        response_of(encode_utf8(reply.head(keep_alive)) + reply.body + more, uri) == if code
            == "200"@ {
            parse_msg(reply.body)
        } else {
            Err("http status "@ + code + " from "@ + uri)
        },
{
    reveal_strlit("HTTP/1.1 ");
    reveal_strlit("HTTP/1.1");
    reveal_strlit("keep-alive");
    reveal_strlit("close");
    let n = reply.body.len();
    let connection = if keep_alive {
        "keep-alive"@
    } else {
        "close"@
    };
    let l0 = "HTTP/1.1 "@ + reply.status;
    let l1 = "Content-Type: "@ + reply.content_type;
    let l2 = "Content-Length: "@ + decimal(n);
    let l3 = "Connection: "@ + connection;
    let tail = reply.body + more;
    lemma_answer_lines(reply, connection);
    let r3 = head_line(l3) + head_line(seq![]);
    let r2 = head_line(l2) + r3;
    let r1 = head_line(l1) + r2;
    lemma_encode_before(head_line(l3), head_line(seq![]), tail);
    lemma_encode_before(head_line(l2), r3, tail);
    lemma_encode_before(head_line(l1), r2, tail);
    lemma_encode_before(head_line(l0), r1, tail);
    lemma_associative(encode_utf8(reply.head(keep_alive)), reply.body, more);
    let lines = encode_utf8(head_line(l1)) + (encode_utf8(head_line(l2)) + (encode_utf8(
        head_line(l3),
    ) + (encode_utf8(head_line(seq![])) + tail)));
    assert(encode_utf8(reply.head(keep_alive)) + reply.body + more == encode_utf8(head_line(l0))
        + lines);
    let rest = seq![' '] + reason + seq!['\r', '\n'];
    assert(rest[0] == ' ');
    lemma_two_words("HTTP/1.1"@, code, rest);
    assert(head_line(l0) =~= "HTTP/1.1"@ + (seq![' '] + (code + rest)));
    assert(on_one_line(l0)) by {
        assert forall|i: int| 0 <= i < l0.len() implies #[trigger] l0[i] != '\n' by {
            let m = code.len();
            if 9 <= i < 9 + m {
                assert(l0[i] == code[i - 9]);
                assert(!is_space(code[i - 9]));
            } else if i >= 10 + m {
                assert(l0[i] == reason[i - 10 - m]);
            }
        }
    }
    let next = ResponseView {
        stage: ResponseStage::Headers,
        status: code,
        framing: Framing::unknown(),
    };
    lemma_framing_line(fresh_reader(), l0, lines, uri, next);
    lemma_answer_headers(code, reply.content_type, n, connection, tail, uri);
    assert(tail.take(n as int) =~= reply.body);
}

/// An IPP answer of the virtual printer reaches its client whole: what the client
/// reads is the message that was answered, if the encoding can carry it.
pub proof fn law_ipp_answer_is_read(m: MsgView, keep_alive: bool, uri: Seq<char>, more: Seq<u8>)
    requires
        msg_fits(m),
        m.encode().len() <= usize::MAX,
    ensures
        response_of(
            encode_utf8(ipp_reply(m).head(keep_alive)) + ipp_reply(m).body + more,
            uri,
        ) == Ok::<MsgView, Seq<char>>(m),
{
    reveal_strlit("200 OK");
    reveal_strlit("200");
    reveal_strlit("OK");
    reveal_strlit("100");
    reveal_strlit("application/ipp");
    assert("200 OK"@ =~= "200"@ + seq![' '] + "OK"@);
    assert("200"@[0] != "100"@[0]);
    law_answer_is_read(ipp_reply(m), "200"@, "OK"@, keep_alive, uri, more);
    law_parse_encode(m);
}

/// A refused request is told so: what its client reads is the status of the
/// refusal, for bytes that are no IPP message and for a method that there is not.
pub proof fn law_refusal_is_read(text: Seq<char>, keep_alive: bool, uri: Seq<char>, more: Seq<u8>)
    requires
        encode_utf8(text).len() <= usize::MAX,
    ensures
        ({
            let reply = text_reply("400 Bad Request"@, text);
            response_of(encode_utf8(reply.head(keep_alive)) + reply.body + more, uri) == Err::<
                MsgView,
                Seq<char>,
            >("http status "@ + "400"@ + " from "@ + uri)
        }),
        ({
            let reply = text_reply("405 Method Not Allowed"@, text);
            response_of(encode_utf8(reply.head(keep_alive)) + reply.body + more, uri) == Err::<
                MsgView,
                Seq<char>,
            >("http status "@ + "405"@ + " from "@ + uri)
        }),
{
    reveal_strlit("400 Bad Request");
    reveal_strlit("400");
    reveal_strlit("Bad Request");
    reveal_strlit("405 Method Not Allowed");
    reveal_strlit("405");
    reveal_strlit("Method Not Allowed");
    reveal_strlit("100");
    reveal_strlit("200");
    reveal_strlit("text/plain");
    assert("400 Bad Request"@ =~= "400"@ + seq![' '] + "Bad Request"@);
    assert("405 Method Not Allowed"@ =~= "405"@ + seq![' '] + "Method Not Allowed"@);
    assert("400"@[0] != "100"@[0] && "400"@[0] != "200"@[0]);
    assert("405"@[0] != "100"@[0] && "405"@[0] != "200"@[0]);
    let bad = text_reply("400 Bad Request"@, text);
    law_answer_is_read(bad, "400"@, "Bad Request"@, keep_alive, uri, more);
    let wrong = text_reply("405 Method Not Allowed"@, text);
    law_answer_is_read(wrong, "405"@, "Method Not Allowed"@, keep_alive, uri, more);
}

/// A message that is posted to the virtual printer is carried out as that
/// message, if the encoding can carry it.
pub proof fn law_posted_message_is_served(
    sp: SpoolerView,
    name: Seq<char>,
    uri: Seq<char>,
    port: u16,
    path: Seq<char>,
    msg: MsgView,
)
    requires
        msg_fits(msg),
    ensures
        http_outcome(sp, name, uri, port, "POST"@, path, msg.encode()).0 == ipp_outcome(
            sp,
            port,
            msg,
        ).0,
        http_outcome(sp, name, uri, port, "POST"@, path, msg.encode()).1 == (match ipp_outcome(
            sp,
            port,
            msg,
        ).1 {
            OutcomeView::Reply(m) => server::ResponseView::Done(ipp_reply(m)),
            OutcomeView::Print(m, t) => server::ResponseView::Print(ipp_reply(m), t),
            OutcomeView::Canceled(m) => server::ResponseView::Wake(ipp_reply(m)),
            OutcomeView::AskPrinter => server::ResponseView::AskPrinter(msg.request_id),
        }),
{
    law_parse_encode(msg);
}

/// Header lines, and the empty line that ends them.
pub open spec fn header_bytes(headers: Seq<Seq<char>>) -> Seq<u8>
    decreases headers.len(),
{
    if headers.len() == 0 {
        encode_utf8(head_line(seq![]))
    } else {
        encode_utf8(head_line(headers[0])) + header_bytes(headers.drop_first())
    }
}

/// Whether header lines can stand in a head: each is one line, and none is empty.
pub open spec fn are_headers(headers: Seq<Seq<char>>) -> bool {
    forall|i: int|
        0 <= i < headers.len() ==> on_one_line(#[trigger] headers[i]) && headers[i].len() > 0
}

/// What header lines say of a body, taken in order.
pub open spec fn framed(f: Framing, headers: Seq<Seq<char>>) -> Framing
    decreases headers.len(),
{
    if headers.len() == 0 {
        f
    } else {
        framed(f.with_header(head_line(headers[0])), headers.drop_first())
    }
}

/// What header lines make of the head of a request, taken in order.
pub open spec fn headed(h: RequestView, headers: Seq<Seq<char>>) -> RequestView
    decreases headers.len(),
{
    if headers.len() == 0 {
        h
    } else {
        headed(h.with_header(head_line(headers[0])), headers.drop_first())
    }
}

proof fn lemma_fewer_headers(headers: Seq<Seq<char>>)
    requires
        are_headers(headers),
        headers.len() > 0,
    ensures
        on_one_line(headers[0]),
        headers[0].len() > 0,
        are_headers(headers.drop_first()),
{
    let rest = headers.drop_first();
    assert forall|i: int| 0 <= i < rest.len() implies on_one_line(#[trigger] rest[i])
        && rest[i].len() > 0 by {
        assert(rest[i] == headers[i + 1]);
    }
}

proof fn lemma_request_headers(h: RequestView, headers: Seq<Seq<char>>, tail: Seq<u8>)
    requires
        are_headers(headers),
    ensures
        headers_of(h, header_bytes(headers) + tail) == Some((headed(h, headers), tail)),
    decreases headers.len(),
{
    if headers.len() == 0 {
        lemma_headers_end(h, tail);
    } else {
        lemma_fewer_headers(headers);
        let more = header_bytes(headers.drop_first());
        let line = encode_utf8(head_line(headers[0]));
        lemma_associative(line, more, tail);
        lemma_headers_line(h, headers[0], more + tail);
        lemma_request_headers(h.with_header(head_line(headers[0])), headers.drop_first(), tail);
    }
}

/// Every request is read: the method and the path are the first two words of its
/// first line, the headers are taken one by one, and a POST has the body that they
/// describe. Anything else has none, and what follows the head is left.
pub proof fn law_every_request_is_read(
    method: Seq<char>,
    path: Seq<char>,
    version: Seq<char>,
    headers: Seq<Seq<char>>,
    tail: Seq<u8>,
)
    requires
        is_word(method),
        is_word(path),
        on_one_line(version),
        are_headers(headers),
    ensures
        ({
            let line = method + seq![' '] + path + seq![' '] + version;
            let fresh = RequestView {
                method,
                path,
                framing: Framing { content_length: None, chunked: false },
                expect_continue: false,
                keep_alive: true,
            };
            let head = headed(fresh, headers);
            request_of(encode_utf8(head_line(line)) + (header_bytes(headers) + tail)) == Some(
                (
                    head,
                    if head.method == "POST"@ {
                        body_of(tail, head.framing)
                    } else {
                        Ok((seq![], tail))
                    },
                ),
            )
        }),
{
    let line = method + seq![' '] + path + seq![' '] + version;
    let rest = seq![' '] + version + seq!['\r', '\n'];
    assert(rest[0] == ' ');
    lemma_two_words(method, path, rest);
    assert(head_line(line) =~= method + (seq![' '] + (path + rest)));
    assert(on_one_line(line)) by {
        assert forall|i: int| 0 <= i < line.len() implies #[trigger] line[i] != '\n' by {
            let m = method.len();
            let p = path.len();
            if i < m {
                assert(!is_space(method[i]));
                assert(line[i] == method[i]);
            } else if m < i < m + 1 + p {
                assert(!is_space(path[i - m - 1]));
                assert(line[i] == path[i - m - 1]);
            } else if i > m + 1 + p {
                assert(line[i] == version[i - m - p - 2]);
            }
        }
    }
    let fresh = RequestView {
        method,
        path,
        framing: Framing { content_length: None, chunked: false },
        expect_continue: false,
        keep_alive: true,
    };
    lemma_first_line(line, header_bytes(headers) + tail);
    lemma_request_headers(fresh, headers, tail);
}

proof fn lemma_response_headers(
    status: Seq<char>,
    f: Framing,
    headers: Seq<Seq<char>>,
    tail: Seq<u8>,
    uri: Seq<char>,
)
    requires
        are_headers(headers),
    ensures
        framing_of(
            ResponseView { stage: ResponseStage::Headers, status, framing: f },
            header_bytes(headers) + tail,
            uri,
        ) == if status == "200"@ {
            Ok::<(Framing, Seq<u8>), Seq<char>>((framed(f, headers), tail))
        } else {
            Err("http status "@ + status + " from "@ + uri)
        },
    decreases headers.len(),
{
    let reader = ResponseView { stage: ResponseStage::Headers, status, framing: f };
    if headers.len() == 0 {
        lemma_first_line(seq![], tail);
        lemma_last_line();
    } else {
        lemma_fewer_headers(headers);
        let more = header_bytes(headers.drop_first());
        let bare = headers[0];
        let g = f.with_header(head_line(bare));
        lemma_associative(encode_utf8(head_line(bare)), more, tail);
        lemma_not_blank(bare);
        lemma_framing_line(
            reader,
            bare,
            more + tail,
            uri,
            ResponseView { framing: g, ..reader },
        );
        lemma_response_headers(status, g, headers.drop_first(), tail, uri);
    }
}

proof fn lemma_interim_headers(headers: Seq<Seq<char>>, tail: Seq<u8>, uri: Seq<char>)
    requires
        are_headers(headers),
    ensures
        framing_of(
            ResponseView { stage: ResponseStage::Interim, ..fresh_reader() },
            header_bytes(headers) + tail,
            uri,
        ) == framing_of(
            ResponseView { stage: ResponseStage::FinalStatus, ..fresh_reader() },
            tail,
            uri,
        ),
    decreases headers.len(),
{
    let reader = ResponseView { stage: ResponseStage::Interim, ..fresh_reader() };
    if headers.len() == 0 {
        lemma_last_line();
        lemma_framing_line(
            reader,
            seq![],
            tail,
            uri,
            ResponseView { stage: ResponseStage::FinalStatus, ..reader },
        );
    } else {
        lemma_fewer_headers(headers);
        let more = header_bytes(headers.drop_first());
        let bare = headers[0];
        lemma_associative(encode_utf8(head_line(bare)), more, tail);
        lemma_not_blank(bare);
        lemma_framing_line(reader, bare, more + tail, uri, reader);
        lemma_interim_headers(headers.drop_first(), tail, uri);
    }
}

/// The first line of a response, and that it is one.
proof fn lemma_status_line(version: Seq<char>, code: Seq<char>, reason: Seq<char>)
    requires
        is_word(version),
        is_word(code),
        on_one_line(reason),
    ensures
        on_one_line(version + seq![' '] + code + seq![' '] + reason),
        word(head_line(version + seq![' '] + code + seq![' '] + reason), 1) == Some(code),
{
    let line = version + seq![' '] + code + seq![' '] + reason;
    let rest = seq![' '] + reason + seq!['\r', '\n'];
    assert(rest[0] == ' ');
    lemma_two_words(version, code, rest);
    assert(head_line(line) =~= version + (seq![' '] + (code + rest)));
    assert forall|i: int| 0 <= i < line.len() implies #[trigger] line[i] != '\n' by {
        let m = version.len();
        let p = code.len();
        if i < m {
            assert(!is_space(version[i]));
            assert(line[i] == version[i]);
        } else if m < i < m + 1 + p {
            assert(!is_space(code[i - m - 1]));
            assert(line[i] == code[i - m - 1]);
        } else if i > m + 1 + p {
            assert(line[i] == reason[i - m - p - 2]);
        }
    }
}

/// Every response is read: of a 200 answer the IPP message in the body that its
/// headers describe, of any other answer the code. An interim answer before it is
/// skipped with all its headers.
pub proof fn law_every_response_is_read(
    version: Seq<char>,
    code: Seq<char>,
    reason: Seq<char>,
    headers: Seq<Seq<char>>,
    interim: Seq<Seq<char>>,
    tail: Seq<u8>,
    uri: Seq<char>,
)
    requires
        is_word(version),
        is_word(code),
        code != "100"@,
        on_one_line(reason),
        are_headers(headers),
        are_headers(interim),
    ensures
        ({
            let line = version + seq![' '] + code + seq![' '] + reason;
            let hundred = version + seq![' '] + "100"@ + seq![' '] + reason;
            let answer = encode_utf8(head_line(line)) + (header_bytes(headers) + tail);
            let before = encode_utf8(head_line(hundred)) + (header_bytes(interim) + answer);
            let f = framed(Framing { content_length: None, chunked: false }, headers);
            let meant = if code == "200"@ {
                match body_of(tail, f) {
                    Ok((body, _)) => parse_msg(body),
                    Err(e) => Err(e),
                }
            } else {
                Err("http status "@ + code + " from "@ + uri)
            };
            &&& response_of(answer, uri) == meant
            &&& response_of(before, uri) == meant
        }),
{
    let line = version + seq![' '] + code + seq![' '] + reason;
    let hundred = version + seq![' '] + "100"@ + seq![' '] + reason;
    let rest = header_bytes(headers) + tail;
    let answer = encode_utf8(head_line(line)) + rest;
    let unknown = Framing { content_length: None, chunked: false };
    let next = ResponseView { stage: ResponseStage::Headers, status: code, framing: unknown };
    reveal_strlit("100");
    assert(is_word("100"@));
    lemma_status_line(version, code, reason);
    lemma_status_line(version, "100"@, reason);
    lemma_framing_line(fresh_reader(), line, rest, uri, next);
    lemma_response_headers(code, unknown, headers, tail, uri);
    let reading = ResponseView { stage: ResponseStage::Interim, ..fresh_reader() };
    let ready = ResponseView { stage: ResponseStage::FinalStatus, ..fresh_reader() };
    lemma_framing_line(fresh_reader(), hundred, header_bytes(interim) + answer, uri, reading);
    lemma_interim_headers(interim, answer, uri);
    lemma_framing_line(ready, line, rest, uri, next);
}

/// The words of a text are what white space separates: the first one is found where
/// it begins, the others behind it, and white space alone has none.
pub proof fn law_words(space: Seq<char>, a: Seq<char>, rest: Seq<char>, n: nat)
    requires
        all_space(space),
        is_word(a),
        rest.len() == 0 || is_space(rest[0]),
    ensures
        word(a + rest, 0) == Some(a),
        word(a + rest, n + 1) == word(rest, n),
        word(space + rest, n) == word(rest, n),
        word(space, n) is None,
{
    lemma_first_word(a, rest);
    assert((a + rest).skip(a.len() as int) =~= rest);
    lemma_trimmed_start_behind(space, rest);
    let none = Seq::<char>::empty();
    lemma_trimmed_start_behind(space, none);
    assert(space + none =~= space);
}

/// A head that is cut off is no request, and one that is not UTF-8 is none either; a
/// response that is cut off before its status has none, and one whose first line is
/// not UTF-8 is an error.
pub proof fn law_broken_heads(s: Seq<u8>, uri: Seq<char>)
    ensures
        s.len() == 0 ==> request_of(s) is None,
        !valid_utf8(line_of(s)) ==> request_of(s) is None,
        !valid_utf8(line_of(s)) ==> response_of(s, uri) == Err::<MsgView, Seq<char>>(
            "stream did not contain valid UTF-8"@,
        ),
        s.len() == 0 ==> response_of(s, uri) == Err::<MsgView, Seq<char>>(
            "http status "@ + ""@ + " from "@ + uri,
        ),
{
    if s.len() == 0 {
        s.index_of_first_ensures(10u8);
        assert(line_of(s) =~= s);
        assert(after_line_of(s) =~= s);
        lemma_no_text(s);
        reveal_strlit("100");
        reveal_strlit("200");
        reveal_strlit("");
        assert("100"@.len() == 3);
        assert("200"@.len() == 3);
        assert(""@.len() == 0);
        let next = ResponseView {
            stage: ResponseStage::Headers,
            status: ""@,
            ..fresh_reader()
        };
        assert(trimmed_start(decode_utf8(s)).len() == 0);
        assert(fresh_reader().after_line(decode_utf8(s), uri) == (next, ProgressView::Line));
        assert(framing_of(next, s, uri) == Err::<(Framing, Seq<u8>), Seq<char>>(
            "http status "@ + ""@ + " from "@ + uri,
        ));
    }
}

/// What the virtual printer sends is what its client reads: the message of an IPP
/// answer, whether or not the connection stays open, and whatever follows on it.
pub proof fn law_sent_answer_is_read(m: MsgView, keep_alive: bool, uri: Seq<char>, more: Seq<u8>)
    requires
        msg_fits(m),
        m.encode().len() <= usize::MAX,
    ensures
        response_of(ipp_reply(m).bytes(keep_alive) + more, uri) == Ok::<MsgView, Seq<char>>(m),
        ipp_reply(m).bytes(keep_alive).len() >= m.encode().len(),
        ipp_reply(m).bytes(keep_alive).skip(
            ipp_reply(m).bytes(keep_alive).len() - m.encode().len(),
        ) == m.encode(),
{
    law_ipp_answer_is_read(m, keep_alive, uri, more);
    let b = ipp_reply(m).bytes(keep_alive);
    assert(b.skip(b.len() - m.encode().len()) =~= m.encode());
}

} // verus!
