//! The part of HTTP/1.1 that IPP travels over: message heads, and bodies by
//! length, by chunks, or up to the end of the connection.

use crate::text::{
    all_space, before_first, contains, copy_bytes, decimal, digit_value, digits_value, hexadecimal,
    is_space, is_trim, law_cuts, law_digits_of_hexadecimal, law_prefix, law_trimming,
    lemma_all_digits, lemma_encode_concat, lemma_text_feed, lower, lower_char, lowered, nth_word,
    number, occurs, on_one_line, parse_number, push_decimal, quoted, quoted_text, same, starts_with,
    strip_prefix, trim, trimmed, trimmed_end, trimmed_start, up_to, utf8_text, without_prefix, word,
};
use crate::uri::{law_number_of_decimal, lemma_decimal, PrinterUri, UriView};
use vstd::prelude::*;
use vstd::string::StringExecFns;
use vstd::utf8::*;

verus! {

// ---------------------------------------------------------------- framing

/// What the head of a message says of its body.
#[derive(Clone, Copy, Debug, PartialEq, Eq)]
pub struct Framing {
    pub content_length: Option<usize>,
    pub chunked: bool,
}

/// A length as a header gives it: an unreadable one counts as none.
pub open spec fn length_of(value: Seq<char>) -> Option<usize> {
    match number(trimmed(value), 10, usize::MAX as nat) {
        Some(n) => Some(n as usize),
        None => None,
    }
}

impl Framing {
    /// What is known of a body before any header was read.
    pub open spec fn unknown() -> Framing {
        Framing { content_length: None, chunked: false }
    }

    /// What is known after one more header line.
    pub open spec fn with_header(self, line: Seq<char>) -> Framing {
        let l = lowered(line);
        match without_prefix(l, "content-length:"@) {
            Some(value) => Framing { content_length: length_of(value), ..self },
            None => if "transfer-encoding:"@.is_prefix_of(l) && occurs(l, "chunked"@) {
                Framing { chunked: true, ..self }
            } else {
                self
            },
        }
    }

    /// What is known of a body before any header was read.
    pub fn new() -> (r: Framing)
        ensures
            r == Framing::unknown(),
    {
        Framing { content_length: None, chunked: false }
    }

    /// Takes one more header line into account.
    pub fn header(&mut self, line: &str)
        ensures
            *final(self) == old(self).with_header(line@),
    {
        let l = lower(line);
        match strip_prefix(l.as_str(), "content-length:") {
            Some(value) => {
                let v = trim(value.as_str());
                self.content_length = match parse_number(v.as_str(), 10, usize::MAX as u64) {
                    Some(n) => Some(n as usize),
                    None => None,
                };
            },
            None => {
                if starts_with(l.as_str(), "transfer-encoding:") && contains(l.as_str(), "chunked")
                {
                    self.chunked = true;
                }
            },
        }
    }
}

/// Whether a line is an empty one, its line end apart.
pub open spec fn is_blank(line: Seq<char>) -> bool {
    line == "\r\n"@ || line == "\n"@
}

/// Whether a line is an empty one, its line end apart.
pub fn blank_line(line: &str) -> (r: bool)
    ensures
        r == is_blank(line@),
{
    same(line, "\r\n") || same(line, "\n")
}

// ----------------------------------------------------- what a body is

/// The error of a body that ends too early.
pub open spec fn short_body() -> Seq<char> {
    "failed to fill whole buffer"@
}

/// The error of a line that is not UTF-8.
pub open spec fn bad_line() -> Seq<char> {
    "stream did not contain valid UTF-8"@
}

/// How long the first line is, its line feed included.
pub open spec fn line_len(s: Seq<u8>) -> int {
    match s.index_of_first(10u8) {
        Some(i) => i + 1,
        None => s.len() as int,
    }
}

/// The first line, its line end included.
pub open spec fn line_of(s: Seq<u8>) -> Seq<u8> {
    s.take(line_len(s))
}

/// What follows the first line.
pub open spec fn after_line_of(s: Seq<u8>) -> Seq<u8> {
    s.skip(line_len(s))
}

/// The size that a chunk's first line gives, in hexadecimal before any extension.
pub open spec fn chunk_size(line: Seq<char>) -> Option<nat> {
    number(before_first(trimmed(line), ';'), 16, usize::MAX as nat)
}

/// What follows the trailer of a chunked body.
pub open spec fn after_trailer(s: Seq<u8>) -> Result<Seq<u8>, Seq<char>>
    decreases s.len(),
    via after_trailer_decreases
{
    let line = s.take(line_len(s));
    if !valid_utf8(line) {
        Err(bad_line())
    } else if is_blank(decode_utf8(line)) || line.len() == 0 {
        Ok(s.skip(line_len(s)))
    } else {
        after_trailer(s.skip(line_len(s)))
    }
}

#[via_fn]
proof fn after_trailer_decreases(s: Seq<u8>) {
    s.index_of_first_ensures(10u8);
}

/// The content of a chunked body, and what follows the body.
pub open spec fn chunked_body(s: Seq<u8>) -> Result<(Seq<u8>, Seq<u8>), Seq<char>>
    decreases s.len(),
    via chunked_body_decreases
{
    let line = s.take(line_len(s));
    let rest = s.skip(line_len(s));
    if !valid_utf8(line) {
        Err(bad_line())
    } else {
        match chunk_size(decode_utf8(line)) {
            None => Err("bad chunk size line "@ + quoted(decode_utf8(line))),
            Some(n) => if n == 0 {
                match after_trailer(rest) {
                    Ok(after) => Ok((seq![], after)),
                    Err(e) => Err(e),
                }
            } else if rest.len() < n + 2 {
                Err(short_body())
            } else {
                match chunked_body(rest.skip(n as int + 2)) {
                    Ok((more, after)) => Ok((rest.take(n as int) + more, after)),
                    Err(e) => Err(e),
                }
            },
        }
    }
}

#[via_fn]
proof fn chunked_body_decreases(s: Seq<u8>) {
    s.index_of_first_ensures(10u8);
}

/// The content of a body, and what follows the body.
pub open spec fn body_of(s: Seq<u8>, framing: Framing) -> Result<(Seq<u8>, Seq<u8>), Seq<char>> {
    if framing.chunked {
        chunked_body(s)
    } else {
        match framing.content_length {
            Some(n) => if s.len() < n {
                Err(short_body())
            } else {
                Ok((s.take(n as int), s.skip(n as int)))
            },
            None => Ok((s, seq![])),
        }
    }
}

// ------------------------------------------------------- reading a body

/// What a body reader waits for.
#[derive(Clone, Copy, Debug, PartialEq, Eq)]
pub enum Need {
    /// the line that gives a chunk's size
    SizeLine,
    /// that many bytes of a chunk
    Chunk(usize),
    /// the line end after a chunk
    ChunkEnd,
    /// a line of the trailer
    TrailerLine,
    /// that many bytes, all of the body
    Exact(usize),
    /// everything up to the end of the connection
    Rest,
    /// nothing: the body is complete
    Nothing,
}

/// Reads a body piece by piece, as the pieces arrive.
#[derive(Debug)]
pub struct BodyReader {
    pub need: Need,
    pub body: Vec<u8>,
}

/// What a reader makes of the bytes that are still to come: the content of the
/// body and what follows it.
pub open spec fn outcome(need: Need, body: Seq<u8>, s: Seq<u8>) -> Result<
    (Seq<u8>, Seq<u8>),
    Seq<char>,
> {
    match need {
        Need::SizeLine => match chunked_body(s) {
            Ok((more, after)) => Ok((body + more, after)),
            Err(e) => Err(e),
        },
        Need::Chunk(n) => if s.len() < n + 2 {
            Err(short_body())
        } else {
            match chunked_body(s.skip(n + 2)) {
                Ok((more, after)) => Ok((body + s.take(n as int) + more, after)),
                Err(e) => Err(e),
            }
        },
        Need::ChunkEnd => if s.len() < 2 {
            Err(short_body())
        } else {
            match chunked_body(s.skip(2)) {
                Ok((more, after)) => Ok((body + more, after)),
                Err(e) => Err(e),
            }
        },
        Need::TrailerLine => match after_trailer(s) {
            Ok(after) => Ok((body, after)),
            Err(e) => Err(e),
        },
        Need::Exact(n) => if s.len() < n {
            Err(short_body())
        } else {
            Ok((body + s.take(n as int), s.skip(n as int)))
        },
        Need::Rest => Ok((body + s, seq![])),
        Need::Nothing => Ok((body, s)),
    }
}

/// What a reader waits for after the size line of a chunk.
pub open spec fn after_size_line(line: Seq<char>) -> Result<Need, Seq<char>> {
    match chunk_size(line) {
        None => Err("bad chunk size line "@ + quoted(line)),
        Some(n) => if n == 0 {
            Ok(Need::TrailerLine)
        } else {
            Ok(Need::Chunk(n as usize))
        },
    }
}

/// What a reader waits for after a line.
pub open spec fn after_line(need: Need, line: Seq<char>) -> Result<Need, Seq<char>> {
    match need {
        Need::SizeLine => after_size_line(line),
        _ => Ok(
            if is_blank(line) || line.len() == 0 {
                Need::Nothing
            } else {
                Need::TrailerLine
            },
        ),
    }
}

/// Whether so many bytes are what a reader waits for, of `len` that are left.
pub open spec fn wants(need: Need, bytes: nat, len: nat) -> bool {
    match need {
        Need::Chunk(n) => bytes == n,
        Need::ChunkEnd => bytes == 2,
        Need::Exact(n) => bytes == n,
        Need::Rest => bytes == len,
        _ => false,
    }
}

/// What a reader waits for after bytes, and the content that it has then.
pub open spec fn after_bytes(need: Need, body: Seq<u8>, bytes: Seq<u8>) -> (Need, Seq<u8>) {
    match need {
        Need::Chunk(_) => (Need::ChunkEnd, body + bytes),
        Need::ChunkEnd => (Need::SizeLine, body),
        _ => (Need::Nothing, body + bytes),
    }
}

/// What to say of a size line that gives no size, given how it is quoted.
pub fn bad_size_line(quoted: &str) -> (r: String)
    ensures
        r@ == "bad chunk size line "@ + quoted@,
{
    let mut e = "bad chunk size line ".to_owned();
    e.append(quoted);
    e
}

impl BodyReader {
    /// A reader for a body of that framing.
    pub fn new(framing: Framing) -> (r: BodyReader)
        ensures
            r.body@ == Seq::<u8>::empty(),
            r.need == (if framing.chunked {
                Need::SizeLine
            } else {
                match framing.content_length {
                    Some(n) => Need::Exact(n),
                    None => Need::Rest,
                }
            }),
            forall|s: Seq<u8>| #[trigger] outcome(r.need, r.body@, s) == body_of(s, framing),
    {
        let need = if framing.chunked {
            Need::SizeLine
        } else {
            match framing.content_length {
                Some(n) => Need::Exact(n),
                None => Need::Rest,
            }
        };
        let r = BodyReader { need, body: Vec::new() };
        assert forall|s: Seq<u8>| #[trigger] outcome(r.need, r.body@, s) == body_of(s, framing) by {
            assert(r.body@ + s =~= s);
            if framing.chunked {
                if let Ok((more, after)) = chunked_body(s) {
                    assert(r.body@ + more =~= more);
                }
            } else if let Some(n) = framing.content_length {
                assert(r.body@ + s.take(n as int) =~= s.take(n as int));
            }
        }
        r
    }

    /// Takes the line that the reader waits for.
    pub fn on_line(&mut self, line: &str) -> (r: Result<(), String>)
        requires
            old(self).need is SizeLine || old(self).need is TrailerLine,
        ensures
            final(self).body@ == old(self).body@,
            match after_line(old(self).need, line@) {
                Ok(need) => r is Ok && final(self).need == need,
                Err(e) => r matches Err(text) && text@ == e && final(self).need == old(self).need,
            },
    {
        match self.need {
            Need::SizeLine => {
                let t = trim(line);
                let digits = up_to(t.as_str(), ';');
                match parse_number(digits.as_str(), 16, usize::MAX as u64) {
                    None => Err(bad_size_line(quoted_text(line).as_str())),
                    Some(n) => {
                        self.need = if n == 0 {
                            Need::TrailerLine
                        } else {
                            Need::Chunk(n as usize)
                        };
                        Ok(())
                    },
                }
            },
            _ => {
                if blank_line(line) || line.is_empty() {
                    self.need = Need::Nothing;
                }
                Ok(())
            },
        }
    }

    /// Takes the bytes that the reader waits for.
    pub fn on_bytes(&mut self, bytes: &[u8])
        requires
            wants(old(self).need, bytes@.len(), bytes@.len()),
        ensures
            (final(self).need, final(self).body@) == after_bytes(
                old(self).need,
                old(self).body@,
                bytes@,
            ),
    {
        match self.need {
            Need::ChunkEnd => {
                self.need = Need::SizeLine;
            },
            Need::Chunk(_) => {
                self.body.extend_from_slice(bytes);
                self.need = Need::ChunkEnd;
                assert(self.body@ =~= old(self).body@ + bytes@);
            },
            _ => {
                self.body.extend_from_slice(bytes);
                self.need = Need::Nothing;
                assert(self.body@ =~= old(self).body@ + bytes@);
            },
        }
    }
}

/// An empty line gives no chunk size.
proof fn lemma_no_size()
    ensures
        chunk_size(seq![]) is None,
{
    let none = Seq::<char>::empty();
    none.index_of_first_ensures(';');
    assert(trimmed(none) =~= none);
    assert(before_first(none, ';') =~= none);
}

/// A body that was read, with the number of bytes it took, or what was wrong.
pub open spec fn body_result(r: Result<(Vec<u8>, usize), String>, s: Seq<u8>) -> Result<
    (Seq<u8>, Seq<u8>),
    Seq<char>,
> {
    match r {
        Ok((body, used)) => Ok((body@, s.skip(used as int))),
        Err(e) => Err(e@),
    }
}

/// The end of the line that starts at `at`, its line feed included.
pub(crate) fn line_end(input: &[u8], at: usize) -> (r: usize)
    requires
        at <= input@.len(),
    ensures
        r == at + line_len(input@.skip(at as int)),
        at <= r <= input@.len(),
        at < input@.len() ==> at < r,
{
    let ghost s = input@.skip(at as int);
    proof {
        s.index_of_first_ensures(10u8);
    }
    let mut i: usize = at;
    while i < input.len()
        invariant
            at <= i <= input@.len(),
            s == input@.skip(at as int),
            forall|j: int| 0 <= j < i - at ==> s[j] != 10u8,
        decreases input@.len() - i,
    {
        if input[i] == 10 {
            assert(s[i - at] == 10u8);
            proof {
                s.index_of_first_ensures(10u8);
            }
            return i + 1;
        }
        i += 1;
    }
    proof {
        s.index_of_first_ensures(10u8);
    }
    i
}

/// A line that a reader takes leaves what it makes of the whole input as it was:
/// the rest of the input is read as the whole would have been, or fails alike.
pub proof fn law_line_is_a_step(need: Need, body: Seq<u8>, s: Seq<u8>)
    requires
        need is SizeLine || need is TrailerLine,
    ensures
        !valid_utf8(s.take(line_len(s))) ==> outcome(need, body, s) == Err::<
            (Seq<u8>, Seq<u8>),
            Seq<char>,
        >(bad_line()),
        valid_utf8(s.take(line_len(s))) ==> match after_line(need, decode_utf8(s.take(line_len(s)))) {
            Ok(next) => outcome(need, body, s) == outcome(next, body, s.skip(line_len(s))),
            Err(e) => outcome(need, body, s) == Err::<(Seq<u8>, Seq<u8>), Seq<char>>(e),
        },
{
    let line = s.take(line_len(s));
    let rest = s.skip(line_len(s));
    if valid_utf8(line) {
        lemma_empty_line(line);
        if need is SizeLine {
            if let Ok(next) = after_size_line(decode_utf8(line)) {
                if let Need::Chunk(n) = next {
                    if rest.len() >= n + 2 {
                        if let Ok((more, after)) = chunked_body(rest.skip(n + 2)) {
                            assert(body + (rest.take(n as int) + more) =~= body + rest.take(
                                n as int,
                            ) + more);
                        }
                    }
                } else {
                    assert(body + Seq::<u8>::empty() =~= body);
                }
            }
        }
    }
}

/// Bytes that a reader takes leave what it makes of the whole input as it was.
/// So a body that arrives in pieces is the body that it is in one.
pub proof fn law_bytes_are_a_step(need: Need, body: Seq<u8>, s: Seq<u8>, size: int)
    requires
        0 <= size <= s.len(),
        wants(need, size as nat, s.len()),
    ensures
        ({
            let (next, content) = after_bytes(need, body, s.take(size));
            outcome(need, body, s) == outcome(next, content, s.skip(size))
        }),
{
    match need {
        Need::Chunk(n) => {
            if s.len() >= n + 2 {
                assert(s.skip(n as int).skip(2) =~= s.skip(n + 2));
            }
        },
        Need::Rest => {
            assert(s.take(s.len() as int) =~= s);
            assert(s.skip(s.len() as int) =~= seq![]);
        },
        _ => {},
    }
}

/// A line with its line end.
pub open spec fn head_line(bare: Seq<char>) -> Seq<char> {
    bare + seq!['\r', '\n']
}

/// A line at the front of the input is read whole, and what follows it is left.
pub proof fn lemma_first_line(bare: Seq<char>, tail: Seq<u8>)
    requires
        on_one_line(bare),
    ensures
        ({
            let s = encode_utf8(head_line(bare)) + tail;
            &&& line_of(s) == encode_utf8(head_line(bare))
            &&& after_line_of(s) == tail
            &&& valid_utf8(line_of(s))
            &&& decode_utf8(line_of(s)) == head_line(bare)
            &&& line_of(s).len() > 0
        }),
{
    let line = head_line(bare);
    let front = bare + seq!['\r'];
    let feed = seq!['\n'];
    assert(line =~= front + feed);
    lemma_encode_concat(front, feed);
    assert(on_one_line(front));
    lemma_text_feed(front);
    assert(encode_utf8(feed) =~= seq![10u8]) by {
        assert(encode_utf8(feed.drop_first()) =~= seq![]);
        assert((10u32 & 0x7f) as u8 == 10u8) by (bit_vector);
        assert(feed[0] as u32 == 10u32);
        assert(encode_utf8(feed) =~= encode_scalar(10u32) + encode_utf8(feed.drop_first()));
    }
    let s = encode_utf8(line) + tail;
    let n = encode_utf8(front).len() as int;
    assert(encode_utf8(line).len() == n + 1);
    assert(s[n] == 10u8);
    s.index_of_first_ensures(10u8);
    let at = s.index_of_first(10u8).unwrap();
    assert(at == n) by {
        if at < n {
            assert(s[at] == encode_utf8(front)[at]);
        }
    }
    assert(line_of(s) =~= encode_utf8(line));
    assert(after_line_of(s) =~= tail);
    encode_utf8_valid_utf8(line);
    encode_utf8_decode_utf8(line);
}

/// A body cut into chunks, each after a line with its size, and the chunk of size
/// zero that ends it.
pub open spec fn in_chunks(sizes: Seq<Seq<char>>, chunks: Seq<Seq<u8>>) -> Seq<u8>
    decreases chunks.len(),
{
    if chunks.len() == 0 {
        encode_utf8(head_line(seq!['0'])) + encode_utf8(head_line(seq![]))
    } else {
        encode_utf8(head_line(sizes[0])) + (chunks[0] + seq![13u8, 10u8] + in_chunks(
            sizes.drop_first(),
            chunks.drop_first(),
        ))
    }
}

/// The text spells the number in hexadecimal digits of either case.
pub open spec fn spells(size: Seq<char>, n: nat) -> bool {
    size.len() > 0 && digits_value(size, 16) == Some(n)
}

proof fn lemma_trim_line(bare: Seq<char>)
    requires
        bare.len() > 0,
        !is_space(bare[0]),
        !is_space(bare.last()),
    ensures
        trimmed(head_line(bare)) == bare,
{
    let s = head_line(bare);
    assert(s[0] == bare[0]);
    assert(trimmed_start(s) == s);
    assert(s.drop_last() =~= bare + seq!['\r']);
    assert(s.drop_last().drop_last() =~= bare);
    assert(trimmed_end(bare) == bare);
    assert(trimmed_end(s.drop_last()) == bare);
    assert(trimmed_end(s) == bare);
}

/// A size line gives the size that it spells.
proof fn lemma_size_line(size: Seq<char>, n: nat)
    requires
        spells(size, n),
        n <= usize::MAX,
    ensures
        on_one_line(size),
        chunk_size(head_line(size)) == Some(n),
{
    lemma_all_digits(size, 16);
    lemma_trim_line(size);
    size.index_of_first_ensures(';');
    assert(before_first(size, ';') == size);
    assert(size[0] != '+');
}

/// The chunk of size zero ends a body, and what follows it is left.
proof fn lemma_last_chunk(tail: Seq<u8>)
    ensures
        chunked_body(in_chunks(seq![], seq![]) + tail) == Ok::<(Seq<u8>, Seq<u8>), Seq<char>>(
            (seq![], tail),
        ),
{
    let zero = seq!['0'];
    let rest = encode_utf8(head_line(seq![])) + tail;
    let s = in_chunks(seq![], seq![]) + tail;
    assert(s =~= encode_utf8(head_line(zero)) + rest);
    assert(zero.drop_last() =~= seq![]);
    assert(digits_value(zero.drop_last(), 16) == Some(0nat));
    assert(digit_value('0', 16) == Some(0nat));
    lemma_size_line(zero, 0);
    lemma_first_line(zero, rest);
    lemma_first_line(seq![], tail);
    reveal_strlit("\r\n");
    assert(head_line(seq![]) =~= "\r\n"@);
    assert(after_trailer(rest) == Ok::<Seq<u8>, Seq<char>>(tail));
}

/// A body cut into chunks in any way is read whole, whatever length the head gave
/// besides, and exactly what follows the body is left. The sizes may be written
/// in any hexadecimal digits.
pub proof fn law_chunks_are_joined(
    sizes: Seq<Seq<char>>,
    chunks: Seq<Seq<u8>>,
    tail: Seq<u8>,
    content_length: Option<usize>,
)
    requires
        sizes.len() == chunks.len(),
        forall|i: int|
            #![trigger chunks[i]]
            0 <= i < chunks.len() ==> 0 < chunks[i].len() <= usize::MAX && spells(
                sizes[i],
                chunks[i].len(),
            ),
    ensures
        body_of(in_chunks(sizes, chunks) + tail, Framing { content_length, chunked: true }) == Ok::<
            (Seq<u8>, Seq<u8>),
            Seq<char>,
        >((chunks.flatten(), tail)),
    decreases chunks.len(),
{
    if chunks.len() == 0 {
        assert(sizes =~= seq![]);
        assert(chunks =~= seq![]);
        lemma_last_chunk(tail);
    } else {
        let size = sizes[0];
        let chunk = chunks[0];
        let n = chunk.len() as int;
        let others = chunks.drop_first();
        let more = in_chunks(sizes.drop_first(), others) + tail;
        let rest = chunk + seq![13u8, 10u8] + more;
        assert(in_chunks(sizes, chunks) + tail =~= encode_utf8(head_line(size)) + rest);
        lemma_size_line(size, chunk.len());
        lemma_first_line(size, rest);
        assert(rest.skip(n + 2) =~= more);
        assert(rest.take(n) =~= chunk);
        assert forall|i: int| #![trigger others[i]] 0 <= i < others.len() implies 0
            < others[i].len() <= usize::MAX && spells(
            sizes.drop_first()[i],
            others[i].len(),
        ) by {
            assert(others[i] == chunks[i + 1]);
        }
        law_chunks_are_joined(sizes.drop_first(), others, tail, content_length);
        assert(chunks.flatten() == chunk + others.flatten());
    }
}

/// The sizes of chunks as they are written without leading zeros.
pub open spec fn plain_sizes(chunks: Seq<Seq<u8>>) -> Seq<Seq<char>> {
    chunks.map_values(|c: Seq<u8>| hexadecimal(c.len()))
}

/// A body sent in chunks, each after its size in hexadecimal, is read whole, and
/// exactly what follows the body is left.
pub proof fn law_chunked_body_is_read(
    chunks: Seq<Seq<u8>>,
    tail: Seq<u8>,
    content_length: Option<usize>,
)
    requires
        forall|i: int|
            #![trigger chunks[i]]
            0 <= i < chunks.len() ==> 0 < chunks[i].len() <= usize::MAX,
    ensures
        body_of(
            in_chunks(plain_sizes(chunks), chunks) + tail,
            Framing { content_length, chunked: true },
        ) == Ok::<(Seq<u8>, Seq<u8>), Seq<char>>((chunks.flatten(), tail)),
{
    assert forall|i: int| #![trigger chunks[i]] 0 <= i < chunks.len() implies 0 < chunks[i].len()
        <= usize::MAX && spells(plain_sizes(chunks)[i], chunks[i].len()) by {
        law_digits_of_hexadecimal(chunks[i].len());
    }
    law_chunks_are_joined(plain_sizes(chunks), chunks, tail, content_length);
}

/// The text of a line is empty exactly if its bytes are.
proof fn lemma_empty_line(bytes: Seq<u8>)
    requires
        valid_utf8(bytes),
    ensures
        decode_utf8(bytes).len() == 0 <==> bytes.len() == 0,
{
    decode_utf8_encode_utf8(bytes);
    if bytes.len() == 0 {
        assert(decode_utf8(bytes) =~= seq![]);
    }
    if decode_utf8(bytes).len() == 0 {
        assert(encode_utf8(decode_utf8(bytes)).len() == 0);
    }
}

/// How far a reader is from the end where no more bytes are left.
spec fn rank(need: Need) -> int {
    match need {
        Need::Nothing => 0,
        Need::TrailerLine => 1,
        _ => 2,
    }
}

/// How many bytes a reader waits for at `at`.
fn piece_len(need: Need, input: &[u8], at: usize) -> (r: usize)
    requires
        at <= input@.len(),
    ensures
        r == (match need {
            Need::Nothing => 0,
            Need::SizeLine | Need::TrailerLine => line_len(input@.skip(at as int)),
            Need::Chunk(n) => n as int,
            Need::ChunkEnd => 2,
            Need::Exact(n) => n as int,
            Need::Rest => input@.len() - at,
        }),
        need is SizeLine || need is TrailerLine ==> at + r <= input@.len() && (r > 0 || at
            == input@.len()),
{
    match need {
        Need::Nothing => 0,
        Need::SizeLine | Need::TrailerLine => line_end(input, at) - at,
        Need::Chunk(n) => n,
        Need::ChunkEnd => 2,
        Need::Exact(n) => n,
        Need::Rest => input.len() - at,
    }
}

/// Hands a reader the line it waits for.
#[verifier::spinoff_prover]
fn feed_line(reader: &mut BodyReader, bytes: &[u8], Ghost(s): Ghost<Seq<u8>>) -> (r: Result<
    (),
    String,
>)
    requires
        old(reader).need is SizeLine || old(reader).need is TrailerLine,
        bytes@ == s.take(line_len(s)),
    ensures
        r is Ok ==> outcome(old(reader).need, old(reader).body@, s) == outcome(
            final(reader).need,
            final(reader).body@,
            s.skip(line_len(s)),
        ),
        r matches Err(e) ==> outcome(old(reader).need, old(reader).body@, s) == Err::<
            (Seq<u8>, Seq<u8>),
            Seq<char>,
        >(e@),
        r is Ok ==> (final(reader).need matches Need::Chunk(n) ==> n > 0),
        r is Ok && bytes@.len() == 0 ==> rank(final(reader).need) < rank(old(reader).need),
{
    proof {
        law_line_is_a_step(reader.need, reader.body@, s);
    }
    match utf8_text(bytes) {
        None => Err("stream did not contain valid UTF-8".to_owned()),
        Some(line) => {
            proof {
                lemma_empty_line(bytes@);
                if bytes@.len() == 0 {
                    assert(line@ =~= seq![]);
                    lemma_no_size();
                }
            }
            reader.on_line(line)
        },
    }
}

/// Hands a reader the bytes it waits for.
#[verifier::spinoff_prover]
fn feed_bytes(reader: &mut BodyReader, bytes: &[u8], Ghost(s): Ghost<Seq<u8>>)
    requires
        bytes@.len() <= s.len(),
        bytes@ == s.take(bytes@.len() as int),
        wants(old(reader).need, bytes@.len(), s.len()),
        old(reader).need matches Need::Chunk(n) ==> n > 0,
    ensures
        outcome(old(reader).need, old(reader).body@, s) == outcome(
            final(reader).need,
            final(reader).body@,
            s.skip(bytes@.len() as int),
        ),
        !(final(reader).need is Chunk),
        bytes@.len() == 0 ==> rank(final(reader).need) < rank(old(reader).need),
{
    proof {
        law_bytes_are_a_step(reader.need, reader.body@, s, bytes@.len() as int);
    }
    reader.on_bytes(bytes);
}

/// Reads a body from the front of the input: its content, and the number of
/// bytes that it took.
pub fn read_body(input: &[u8], content_length: Option<usize>, chunked: bool) -> (r: Result<
    (Vec<u8>, usize),
    String,
>)
    ensures
        body_result(r, input@) == body_of(input@, Framing { content_length, chunked }),
        r matches Ok((body, used)) ==> used <= input@.len(),
{
    let framing = Framing { content_length, chunked };
    let mut reader = BodyReader::new(framing);
    let mut at: usize = 0;
    assert(input@.skip(0) =~= input@);
    loop
        invariant
            at <= input@.len(),
            reader.need matches Need::Chunk(n) ==> n > 0,
            outcome(reader.need, reader.body@, input@.skip(at as int)) == body_of(input@, framing),
            framing == (Framing { content_length, chunked }),
        decreases input@.len() - at, rank(reader.need),
    {
        let ghost s = input@.skip(at as int);
        if let Need::Nothing = reader.need {
            return Ok((reader.body, at));
        }
        let size = piece_len(reader.need, input, at);
        if input.len() - at < size {
            return Err("failed to fill whole buffer".to_owned());
        }
        let bytes = vstd::slice::slice_subrange(input, at, at + size);
        assert(bytes@ =~= s.take(size as int));
        assert(input@.skip(at + size) =~= s.skip(size as int));
        match reader.need {
            Need::SizeLine | Need::TrailerLine => {
                match feed_line(&mut reader, bytes, Ghost(s)) {
                    Ok(()) => {},
                    Err(e) => {
                        return Err(e);
                    },
                }
            },
            _ => {
                feed_bytes(&mut reader, bytes, Ghost(s));
            },
        }
        at = at + size;
    }
}

// ------------------------------------------------------ asking a printer

/// `host:port` of a printer.
pub open spec fn address_text(target: UriView) -> Seq<char> {
    target.host + ":"@ + decimal(target.port as nat)
}

/// `host:port` of a printer.
pub fn address(target: &PrinterUri) -> (r: String)
    ensures
        r@ == address_text(target@),
{
    let mut s = target.host.clone();
    s.append(":");
    push_decimal(&mut s, target.port as u64);
    s
}

/// The head of a request that posts an IPP message of that length.
pub open spec fn request_head_text(target: UriView, length: nat) -> Seq<char> {
    "POST "@ + target.path + " HTTP/1.1\r\nHost: "@ + address_text(target)
        + "\r\nContent-Type: application/ipp\r\nContent-Length: "@ + decimal(length)
        + "\r\nUser-Agent: ipp-duplexd/0.1\r\nConnection: close\r\n\r\n"@
}

/// The head of a request that posts an IPP message of that length.
pub fn request_head(target: &PrinterUri, length: usize) -> (r: String)
    ensures
        r@ == request_head_text(target@, length as nat),
{
    let mut s = "POST ".to_owned();
    s.append(target.path.as_str());
    s.append(" HTTP/1.1\r\nHost: ");
    let host = address(target);
    s.append(host.as_str());
    s.append("\r\nContent-Type: application/ipp\r\nContent-Length: ");
    push_decimal(&mut s, length as u64);
    s.append("\r\nUser-Agent: ipp-duplexd/0.1\r\nConnection: close\r\n\r\n");
    s
}

/// Where the reader of a response's head stands.
#[derive(Clone, Copy, Debug, PartialEq, Eq, Structural)]
pub enum ResponseStage {
    /// before the first status line
    Status,
    /// in the head of an interim response
    Interim,
    /// before the status line after an interim response
    FinalStatus,
    /// in the header lines
    Headers,
}

/// Reads the head of a response line by line.
#[derive(Debug)]
pub struct ResponseReader {
    pub stage: ResponseStage,
    pub status: String,
    pub framing: Framing,
}

/// A response reader as a mathematical value.
#[verifier::ext_equal]
pub struct ResponseView {
    pub stage: ResponseStage,
    pub status: Seq<char>,
    pub framing: Framing,
}

impl View for ResponseReader {
    type V = ResponseView;

    open spec fn view(&self) -> ResponseView {
        ResponseView { stage: self.stage, status: self.status@, framing: self.framing }
    }
}

/// What to do after a line of a response's head.
#[derive(Debug)]
pub enum Progress {
    /// read another line
    Line,
    /// read the body
    Body(Framing),
    /// give up
    Failed(String),
}

/// What to do after a line, as a mathematical value.
pub enum ProgressView {
    Line,
    Body(Framing),
    Failed(Seq<char>),
}

impl View for Progress {
    type V = ProgressView;

    open spec fn view(&self) -> ProgressView {
        match self {
            Progress::Line => ProgressView::Line,
            Progress::Body(f) => ProgressView::Body(*f),
            Progress::Failed(e) => ProgressView::Failed(e@),
        }
    }
}

/// The status in a status line: its second word.
pub open spec fn status_word(line: Seq<char>) -> Seq<char> {
    match word(line, 1) {
        Some(w) => w,
        None => ""@,
    }
}

/// Whether a line ends a head; a connection that ended gives empty lines.
pub open spec fn ends_head(line: Seq<char>) -> bool {
    is_blank(line) || line.len() == 0
}

impl ResponseView {
    /// The reader and what to do after one more line of a response from `uri`.
    pub open spec fn after_line(self, line: Seq<char>, uri: Seq<char>) -> (
        ResponseView,
        ProgressView,
    ) {
        match self.stage {
            ResponseStage::Status => if status_word(line) == "100"@ {
                (ResponseView { stage: ResponseStage::Interim, ..self }, ProgressView::Line)
            } else {
                (
                    ResponseView {
                        stage: ResponseStage::Headers,
                        status: status_word(line),
                        ..self
                    },
                    ProgressView::Line,
                )
            },
            ResponseStage::Interim => if ends_head(line) {
                (ResponseView { stage: ResponseStage::FinalStatus, ..self }, ProgressView::Line)
            } else {
                (self, ProgressView::Line)
            },
            ResponseStage::FinalStatus => (
                ResponseView {
                    stage: ResponseStage::Headers,
                    status: status_word(line),
                    ..self
                },
                ProgressView::Line,
            ),
            ResponseStage::Headers => if !ends_head(line) {
                (
                    ResponseView { framing: self.framing.with_header(line), ..self },
                    ProgressView::Line,
                )
            } else if self.status == "200"@ {
                (self, ProgressView::Body(self.framing))
            } else {
                (
                    self,
                    ProgressView::Failed("http status "@ + self.status + " from "@ + uri),
                )
            },
        }
    }
}

impl ResponseReader {
    /// A reader before the first line.
    pub fn new() -> (r: ResponseReader)
        ensures
            r@ == (ResponseView {
                stage: ResponseStage::Status,
                status: seq![],
                framing: Framing::unknown(),
            }),
    {
        ResponseReader {
            stage: ResponseStage::Status,
            status: String::new(),
            framing: Framing::new(),
        }
    }

    /// Takes one more line of a response from `uri`.
    pub fn on_line(&mut self, line: &str, uri: &str) -> (r: Progress)
        ensures
            (final(self)@, r@) == old(self)@.after_line(line@, uri@),
    {
        match self.stage {
            ResponseStage::Interim => {
                if blank_line(line) || line.is_empty() {
                    self.stage = ResponseStage::FinalStatus;
                }
                Progress::Line
            },
            ResponseStage::Headers => {
                if !(blank_line(line) || line.is_empty()) {
                    self.framing.header(line);
                    Progress::Line
                } else if same(self.status.as_str(), "200") {
                    Progress::Body(self.framing)
                } else {
                    let mut e = "http status ".to_owned();
                    e.append(self.status.as_str());
                    e.append(" from ");
                    e.append(uri);
                    Progress::Failed(e)
                }
            },
            _ => {
                let status = match nth_word(line, 1) {
                    Some(w) => w,
                    None => "".to_owned(),
                };
                if self.stage == ResponseStage::Status && same(status.as_str(), "100") {
                    self.stage = ResponseStage::Interim;
                } else {
                    self.status = status;
                    self.stage = ResponseStage::Headers;
                }
                Progress::Line
            },
        }
    }
}

// ---------------------------------------------------- answering a client

/// The head of a request.
#[derive(Debug)]
pub struct RequestHead {
    pub method: String,
    pub path: String,
    pub framing: Framing,
    pub expect_continue: bool,
    pub keep_alive: bool,
}

/// The head of a request as a mathematical value.
#[verifier::ext_equal]
pub struct RequestView {
    pub method: Seq<char>,
    pub path: Seq<char>,
    pub framing: Framing,
    pub expect_continue: bool,
    pub keep_alive: bool,
}

impl View for RequestHead {
    type V = RequestView;

    open spec fn view(&self) -> RequestView {
        RequestView {
            method: self.method@,
            path: self.path@,
            framing: self.framing,
            expect_continue: self.expect_continue,
            keep_alive: self.keep_alive,
        }
    }
}

/// Whether a header line has that name and mentions that value.
pub open spec fn mentions(line: Seq<char>, name: Seq<char>, value: Seq<char>) -> bool {
    name.is_prefix_of(lowered(line)) && occurs(lowered(line), value)
}

impl RequestView {
    /// The head after one more header line.
    pub open spec fn with_header(self, line: Seq<char>) -> RequestView {
        RequestView {
            framing: self.framing.with_header(line),
            expect_continue: self.expect_continue || mentions(line, "expect:"@, "100-continue"@),
            keep_alive: self.keep_alive && !mentions(line, "connection:"@, "close"@),
            ..self
        }
    }
}

/// The head that a request line opens; a line of fewer than two words opens none.
pub open spec fn opened_by(line: Seq<char>) -> Option<RequestView> {
    match (word(line, 0), word(line, 1)) {
        (Some(method), Some(path)) => Some(
            RequestView {
                method,
                path,
                framing: Framing::unknown(),
                expect_continue: false,
                keep_alive: true,
            },
        ),
        _ => None,
    }
}

/// Whether a header line has that name and mentions that value.
fn header_mentions(line: &str, name: &str, value: &str) -> (r: bool)
    ensures
        r == mentions(line@, name@, value@),
{
    let l = lower(line);
    starts_with(l.as_str(), name) && contains(l.as_str(), value)
}

impl RequestHead {
    /// The head that a request line opens.
    pub fn open(line: &str) -> (r: Option<RequestHead>)
        ensures
            r is Some <==> opened_by(line@) is Some,
            r matches Some(h) ==> opened_by(line@) == Some(h@),
    {
        match (nth_word(line, 0), nth_word(line, 1)) {
            (Some(method), Some(path)) => Some(
                RequestHead {
                    method,
                    path,
                    framing: Framing::new(),
                    expect_continue: false,
                    keep_alive: true,
                },
            ),
            _ => None,
        }
    }

    /// Takes one more header line into account.
    pub fn header(&mut self, line: &str)
        ensures
            final(self)@ == old(self)@.with_header(line@),
    {
        self.framing.header(line);
        if header_mentions(line, "expect:", "100-continue") {
            self.expect_continue = true;
        }
        if header_mentions(line, "connection:", "close") {
            self.keep_alive = false;
        }
    }

    /// Whether a body follows the head.
    pub fn has_body(&self) -> (r: bool)
        ensures
            r == (self@.method == "POST"@),
    {
        same(self.method.as_str(), "POST")
    }
}

/// The interim response that invites the body of a request.
pub fn continue_text() -> (r: String)
    ensures
        r@ == "HTTP/1.1 100 Continue\r\n\r\n"@,
{
    "HTTP/1.1 100 Continue\r\n\r\n".to_owned()
}

/// The answer to a request.
#[derive(Debug)]
pub struct Reply {
    pub status: String,
    pub content_type: String,
    pub body: Vec<u8>,
}

/// The answer to a request as a mathematical value.
#[verifier::ext_equal]
pub struct ReplyView {
    pub status: Seq<char>,
    pub content_type: Seq<char>,
    pub body: Seq<u8>,
}

impl View for Reply {
    type V = ReplyView;

    open spec fn view(&self) -> ReplyView {
        ReplyView { status: self.status@, content_type: self.content_type@, body: self.body@ }
    }
}

impl ReplyView {
    /// The head of the response that carries the answer.
    pub open spec fn head(self, keep_alive: bool) -> Seq<char> {
        "HTTP/1.1 "@ + self.status + "\r\nContent-Type: "@ + self.content_type
            + "\r\nContent-Length: "@ + decimal(self.body.len()) + "\r\nConnection: "@ + (
        if keep_alive {
            "keep-alive"@
        } else {
            "close"@
        }) + "\r\n\r\n"@
    }
}

impl ReplyView {
    /// The bytes of the response that carries the answer.
    pub open spec fn bytes(self, keep_alive: bool) -> Seq<u8> {
        encode_utf8(self.head(keep_alive)) + self.body
    }
}

impl Reply {
    /// An answer.
    pub fn new(status: &str, content_type: &str, body: Vec<u8>) -> (r: Reply)
        ensures
            r@ == (ReplyView { status: status@, content_type: content_type@, body: body@ }),
    {
        Reply { status: status.to_owned(), content_type: content_type.to_owned(), body }
    }

    /// The bytes of the response that carries the answer.
    pub fn encode(&self, keep_alive: bool) -> (r: Vec<u8>)
        ensures
            r@ == encode_utf8(self@.head(keep_alive)) + self@.body,
            r@ == self@.bytes(keep_alive),
    {
        let mut s = "HTTP/1.1 ".to_owned();
        s.append(self.status.as_str());
        s.append("\r\nContent-Type: ");
        s.append(self.content_type.as_str());
        s.append("\r\nContent-Length: ");
        push_decimal(&mut s, self.body.len() as u64);
        s.append("\r\nConnection: ");
        s.append(
            if keep_alive {
                "keep-alive"
            } else {
                "close"
            },
        );
        s.append("\r\n\r\n");
        let mut out = copy_bytes(s.as_str().as_bytes());
        out.extend_from_slice(self.body.as_slice());
        assert(out@ =~= encode_utf8(self@.head(keep_alive)) + self@.body);
        out
    }
}

// ------------------------------------------------------------------- laws

/// A body of a given length is so many bytes, and what follows is left; with fewer
/// there is an error. A body without a length goes up to the end.
pub proof fn law_body_by_length(content: Seq<u8>, tail: Seq<u8>, n: usize)
    ensures
        content.len() == n ==> body_of(
            content + tail,
            Framing { content_length: Some(n), chunked: false },
        ) == Ok::<(Seq<u8>, Seq<u8>), Seq<char>>((content, tail)),
        content.len() < n ==> body_of(
            content,
            Framing { content_length: Some(n), chunked: false },
        ) == Err::<(Seq<u8>, Seq<u8>), Seq<char>>("failed to fill whole buffer"@),
        body_of(content, Framing { content_length: None, chunked: false }) == Ok::<
            (Seq<u8>, Seq<u8>),
            Seq<char>,
        >((content, seq![])),
{
    if content.len() == n {
        assert((content + tail).take(n as int) =~= content);
        assert((content + tail).skip(n as int) =~= tail);
    }
}

proof fn lemma_trimmed_end_keeps(a: Seq<char>, b: Seq<char>)
    requires
        a.len() > 0,
        !is_space(a.last()),
    ensures
        trimmed_end(a + b) == a + trimmed_end(b),
    decreases b.len(),
{
    if b.len() == 0 {
        assert(a + b =~= a);
        assert(a + trimmed_end(b) =~= a);
    } else {
        assert((a + b).last() == b.last());
        if is_space(b.last()) {
            assert((a + b).drop_last() =~= a + b.drop_last());
            lemma_trimmed_end_keeps(a, b.drop_last());
        }
    }
}

/// The size of a chunk is what its line spells in hexadecimal; an extension behind a
/// semicolon does not matter, nor does white space around the line.
pub proof fn law_chunk_sizes(
    before: Seq<char>,
    size: Seq<char>,
    extension: Seq<char>,
    after: Seq<char>,
    n: nat,
)
    requires
        spells(size, n),
        n <= usize::MAX,
        all_space(before),
        all_space(after),
    ensures
        chunk_size(before + size + after) == Some(n),
        chunk_size(size + seq![';'] + extension) == Some(n),
{
    lemma_all_digits(size, 16);
    size.index_of_first_ensures(';');
    assert(!size.contains(';'));
    assert(size[0] != '+');
    law_trimming(before, size, after);
    let a = size + seq![';'];
    let s = a + extension;
    assert(s[0] == size[0]);
    assert(trimmed_start(s) == s);
    assert(a.last() == ';');
    lemma_trimmed_end_keeps(a, extension);
    law_cuts(size, ';', trimmed_end(extension));
}

/// A size line that spells no size is an error that shows the line, and so is a
/// chunk that is cut off.
pub proof fn law_bad_chunks(line: Seq<char>, size: Seq<char>, n: nat, part: Seq<u8>, rest: Seq<u8>)
    requires
        on_one_line(line),
        chunk_size(head_line(line)) is None,
        spells(size, n),
        0 < n <= usize::MAX,
        part.len() < n + 2,
    ensures
        chunked_body(encode_utf8(head_line(line)) + rest) == Err::<(Seq<u8>, Seq<u8>), Seq<char>>(
            "bad chunk size line "@ + quoted(head_line(line)),
        ),
        chunked_body(encode_utf8(head_line(size)) + part) == Err::<(Seq<u8>, Seq<u8>), Seq<char>>(
            "failed to fill whole buffer"@,
        ),
{
    lemma_first_line(line, rest);
    lemma_size_line(size, n);
    lemma_first_line(size, part);
}

/// The lines of a trailer do not matter, and the first empty one ends the body.
pub proof fn law_trailer_is_skipped(bare: Seq<char>, rest: Seq<u8>)
    requires
        on_one_line(bare),
    ensures
        bare.len() > 0 ==> after_trailer(encode_utf8(head_line(bare)) + rest) == after_trailer(
            rest,
        ),
        after_trailer(encode_utf8(head_line(seq![])) + rest) == Ok::<Seq<u8>, Seq<char>>(rest),
        chunked_body(encode_utf8(head_line(seq!['0'])) + rest) == (match after_trailer(rest) {
            Ok(after) => Ok::<(Seq<u8>, Seq<u8>), Seq<char>>((seq![], after)),
            Err(e) => Err(e),
        }),
{
    reveal_strlit("\r\n");
    reveal_strlit("\n");
    lemma_first_line(bare, rest);
    lemma_first_line(seq![], rest);
    assert(head_line(seq![]) =~= "\r\n"@);
    assert(head_line(bare).len() == bare.len() + 2);
    let zero = seq!['0'];
    assert(zero.drop_last() =~= seq![]);
    assert(digits_value(zero.drop_last(), 16) == Some(0nat));
    assert(digit_value('0', 16) == Some(0nat));
    lemma_size_line(zero, 0);
    lemma_first_line(zero, rest);
}

proof fn lemma_lowered_concat(a: Seq<char>, b: Seq<char>)
    ensures
        lowered(a + b) == lowered(a) + lowered(b),
{
    assert(lowered(a + b) =~= lowered(a) + lowered(b));
}

/// The length of a body is the number that a Content-Length header gives, in any
/// letter case and with any white space; what is no number is no length.
pub proof fn law_length_header_is_read(
    f: Framing,
    header: Seq<char>,
    before: Seq<char>,
    n: usize,
    after: Seq<char>,
    bad: Seq<char>,
)
    requires
        lowered(header) == "content-length:"@,
        all_space(before),
        all_space(after),
        length_of(lowered(bad)) is None,
    ensures
        f.with_header(header + (before + decimal(n as nat) + after)) == (Framing {
            content_length: Some(n),
            ..f
        }),
        f.with_header(header + bad) == (Framing { content_length: None, ..f }),
{
    let digits = decimal(n as nat);
    let value = before + digits + after;
    lemma_decimal(n as nat);
    law_number_of_decimal(n as nat, usize::MAX as nat);
    lemma_lowered_concat(header, value);
    lemma_lowered_concat(header, bad);
    assert(lowered(value) =~= value) by {
        assert forall|i: int| 0 <= i < value.len() implies lower_char(#[trigger] value[i])
            == value[i] by {
            let b = before.len();
            let d = digits.len();
            if i < b {
                assert(is_space(before[i]));
            } else if i < b + d {
                assert('0' <= digits[i - b] <= '9');
            } else {
                assert(is_space(after[i - b - d]));
            }
        }
    }
    law_prefix("content-length:"@, value);
    law_prefix("content-length:"@, lowered(bad));
    assert(is_trim(digits));
    law_trimming(before, digits, after);
}

/// A body is in chunks if a Transfer-Encoding header says so, in any letter case, and
/// every header but these two leaves what is known of the body as it was.
pub proof fn law_other_framing_headers(f: Framing, line: Seq<char>)
    ensures
        "transfer-encoding:"@.is_prefix_of(lowered(line)) && occurs(lowered(line), "chunked"@)
            ==> f.with_header(line) == (Framing { chunked: true, ..f }),
        !"content-length:"@.is_prefix_of(lowered(line)) && !"transfer-encoding:"@.is_prefix_of(
            lowered(line),
        ) ==> f.with_header(line) == f,
        "transfer-encoding:"@.is_prefix_of(lowered(line)) && !occurs(lowered(line), "chunked"@)
            ==> f.with_header(line) == f,
{
    reveal_strlit("content-length:");
    reveal_strlit("transfer-encoding:");
    let l = lowered(line);
    if "transfer-encoding:"@.is_prefix_of(l) && "content-length:"@.is_prefix_of(l) {
        assert(l.subrange(0, "transfer-encoding:"@.len() as int)[0] == l[0]);
        assert(l.subrange(0, "content-length:"@.len() as int)[0] == l[0]);
    }
}

/// A client that expects it is invited to send the body, and a connection is closed
/// if a header says so; no other header changes either, nor the method or the path.
pub proof fn law_request_headers_are_read(h: RequestView, line: Seq<char>)
    ensures
        ({
            let l = lowered(line);
            let g = h.with_header(line);
            &&& g.method == h.method
            &&& g.path == h.path
            &&& g.framing == h.framing.with_header(line)
            &&& g.expect_continue == (h.expect_continue || ("expect:"@.is_prefix_of(l) && occurs(
                l,
                "100-continue"@,
            )))
            &&& g.keep_alive == (h.keep_alive && !("connection:"@.is_prefix_of(l) && occurs(
                l,
                "close"@,
            )))
        }),
{
}

/// What a request is posted with: the path, the printer's address, the kind and the
/// length of what follows.
pub proof fn law_request_head_layout(target: UriView, length: nat)
    ensures
        request_head_text(target, length) == "POST "@ + target.path + " HTTP/1.1\r\nHost: "@
            + target.host + ":"@ + decimal(target.port as nat)
            + "\r\nContent-Type: application/ipp\r\nContent-Length: "@ + decimal(length)
            + "\r\nUser-Agent: ipp-duplexd/0.1\r\nConnection: close\r\n\r\n"@,
{
    assert(request_head_text(target, length) =~= "POST "@ + target.path + " HTTP/1.1\r\nHost: "@
        + target.host + ":"@ + decimal(target.port as nat)
        + "\r\nContent-Type: application/ipp\r\nContent-Length: "@ + decimal(length)
        + "\r\nUser-Agent: ipp-duplexd/0.1\r\nConnection: close\r\n\r\n"@);
}

/// What an answer is sent with: its status, the kind and the length of what follows,
/// and what becomes of the connection.
pub proof fn law_answer_head_layout(reply: ReplyView)
    ensures
        reply.head(true) == "HTTP/1.1 "@ + reply.status + "\r\nContent-Type: "@
            + reply.content_type + "\r\nContent-Length: "@ + decimal(reply.body.len())
            + "\r\nConnection: "@ + "keep-alive"@ + "\r\n\r\n"@,
        reply.head(false) == "HTTP/1.1 "@ + reply.status + "\r\nContent-Type: "@
            + reply.content_type + "\r\nContent-Length: "@ + decimal(reply.body.len())
            + "\r\nConnection: "@ + "close"@ + "\r\n\r\n"@,
{
}

/// A line goes up to its line feed, or to the end where there is none; it is empty if
/// it is but a line end, with or without a carriage return. A head ends there, or
/// where the connection does.
pub proof fn law_line_ends(a: Seq<u8>, rest: Seq<u8>, line: Seq<char>)
    requires
        !a.contains(10u8),
    ensures
        line_of(a + seq![10u8] + rest) == a + seq![10u8],
        after_line_of(a + seq![10u8] + rest) == rest,
        line_of(a) == a,
        after_line_of(a).len() == 0,
        is_blank(line) <==> line == seq!['\n'] || line == seq!['\r', '\n'],
        ends_head(line) <==> line.len() == 0 || is_blank(line),
{
    let s = a + seq![10u8] + rest;
    let n = a.len() as int;
    assert(s[n] == 10u8);
    a.index_of_first_ensures(10u8);
    s.index_of_first_ensures(10u8);
    let i = s.index_of_first(10u8).unwrap();
    if i < n {
        assert(a[i] == 10u8);
    }
    assert(line_of(s) =~= a + seq![10u8]);
    assert(after_line_of(s) =~= rest);
    assert(line_of(a) =~= a);
    reveal_strlit("\n");
    reveal_strlit("\r\n");
    assert("\n"@ =~= seq!['\n']);
    assert("\r\n"@ =~= seq!['\r', '\n']);
}

/// A line that is not UTF-8 is an error in a body; a trailer ends where the bytes do.
pub proof fn law_bad_lines(s: Seq<u8>)
    ensures
        !valid_utf8(line_of(s)) ==> chunked_body(s) == Err::<(Seq<u8>, Seq<u8>), Seq<char>>(
            "stream did not contain valid UTF-8"@,
        ),
        !valid_utf8(line_of(s)) ==> after_trailer(s) == Err::<Seq<u8>, Seq<char>>(
            "stream did not contain valid UTF-8"@,
        ),
        s.len() == 0 ==> after_trailer(s) == Ok::<Seq<u8>, Seq<char>>(s),
{
    if s.len() == 0 {
        s.index_of_first_ensures(10u8);
        assert(line_of(s) =~= s);
        assert(after_line_of(s) =~= s);
        assert(valid_utf8(s));
    }
}

} // verus!