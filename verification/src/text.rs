//! Text over sequences of characters: comparison, trimming, splitting,
//! searching, and the number formats that the protocols use.
//!
//! Every function here is stated over the characters of its arguments, so a
//! caller's contract can speak of whole texts.

use vstd::prelude::*;
use vstd::string::StringExecFns;
use vstd::utf8::*;

verus! {

// ------------------------------------------------------- calls into std

/// `String::push`: appends one character to the end of the string and leaves
/// what was there before it.
pub assume_specification[ String::push ](s: &mut String, c: char)
    ensures
        final(s)@ == old(s)@.push(c),
;

/// `std::str::from_utf8`: the text that the bytes spell if they are valid
/// UTF-8, and nothing otherwise.
#[verifier::external_body]
pub(crate) fn utf8_text(bytes: &[u8]) -> (r: Option<&str>)
    ensures
        r is Some <==> valid_utf8(bytes@),
        r matches Some(s) ==> s@ == decode_utf8(bytes@),
{
    std::str::from_utf8(bytes).ok()
}

/// The text that `String::from_utf8_lossy` gives for bytes that are not UTF-8,
/// as what stands before its first U+FFFD and what stands after it.
pub uninterp spec fn repaired(bytes: Seq<u8>) -> (Seq<char>, Seq<char>);

/// The text that the bytes spell: valid UTF-8 decoded, other bytes repaired.
pub open spec fn lossy(bytes: Seq<u8>) -> Seq<char> {
    if valid_utf8(bytes) {
        decode_utf8(bytes)
    } else {
        repaired(bytes).0.push('\u{fffd}') + repaired(bytes).1
    }
}

/// `String::from_utf8_lossy`: decodes the bytes, with U+FFFD in place of what
/// is not UTF-8. Valid UTF-8 is decoded unchanged. Other bytes give at least one
/// U+FFFD; what stands around the first one is left to `repaired`.
#[verifier::external_body]
pub(crate) fn lossy_text(bytes: &[u8]) -> (r: String)
    ensures
        valid_utf8(bytes@) ==> r@ == decode_utf8(bytes@),
        !valid_utf8(bytes@) ==> r@ == repaired(bytes@).0.push('\u{fffd}') + repaired(bytes@).1,
{
    String::from_utf8_lossy(bytes).into_owned()
}

/// The quoted and escaped form that `{:?}` gives of a text.
pub uninterp spec fn quoted(s: Seq<char>) -> Seq<char>;

/// `{:?}` of a `str`: the text in double quotes with its special characters
/// escaped, named `quoted`.
#[verifier::external_body]
pub(crate) fn quoted_text(s: &str) -> (r: String)
    ensures
        r@ == quoted(s@),
{
    format!("{:?}", s)
}

// ------------------------------------------------------------ characters

/// The characters of a text, in order.
pub fn chars_of(s: &str) -> (r: Vec<char>)
    ensures
        r@ == s@,
{
    let mut out: Vec<char> = Vec::new();
    for c in it: s.chars()
        invariant
            it.seq() == s@,
            out@ == s@.take(it.index() as int),
    {
        out.push(c);
    }
    assert(s@.take(s@.len() as int) =~= s@);
    out
}

/// The text of the characters from `from` up to, not including, `to`.
pub fn string_of(chars: &[char], from: usize, to: usize) -> (r: String)
    requires
        from <= to <= chars@.len(),
    ensures
        r@ == chars@.subrange(from as int, to as int),
{
    let mut out = String::new();
    let mut i: usize = from;
    while i < to
        invariant
            from <= i <= to <= chars@.len(),
            out@ == chars@.subrange(from as int, i as int),
        decreases to - i,
    {
        out.push(chars[i]);
        i += 1;
        assert(out@ =~= chars@.subrange(from as int, i as int));
    }
    out
}

/// The bytes of a text in UTF-8.
pub fn bytes_of(s: &str) -> (r: Vec<u8>)
    ensures
        r@ == encode_utf8(s@),
{
    vstd::slice::slice_to_vec(s.as_bytes())
}

/// A copy of the bytes.
pub fn copy_bytes(bytes: &[u8]) -> (r: Vec<u8>)
    ensures
        r@ == bytes@,
{
    vstd::slice::slice_to_vec(bytes)
}

/// Whether two texts hold the same characters.
pub fn same(a: &str, b: &str) -> (r: bool)
    ensures
        r == (a@ == b@),
{
    let x = a.as_bytes();
    let y = b.as_bytes();
    proof {
        encode_utf8_decode_utf8(a@);
        encode_utf8_decode_utf8(b@);
    }
    same_bytes(x, y)
}

/// Whether two byte sequences are equal.
pub fn same_bytes(x: &[u8], y: &[u8]) -> (r: bool)
    ensures
        r == (x@ == y@),
{
    if x.len() != y.len() {
        return false;
    }
    let mut i: usize = 0;
    while i < x.len()
        invariant
            i <= x.len(),
            x.len() == y.len(),
            forall|j: int| 0 <= j < i ==> x@[j] == y@[j],
        decreases x.len() - i,
    {
        if x[i] != y[i] {
            return false;
        }
        i += 1;
    }
    assert(x@ =~= y@);
    true
}

/// Whether the text is one of the listed texts.
pub fn in_list(name: &str, list: &[&str]) -> (r: bool)
    ensures
        r == list@.map_values(|s: &str| s@).contains(name@),
{
    let mut i: usize = 0;
    let ghost views = list@.map_values(|s: &str| s@);
    while i < list.len()
        invariant
            i <= list.len(),
            views == list@.map_values(|s: &str| s@),
            forall|j: int| 0 <= j < i ==> views[j] != name@,
        decreases list.len() - i,
    {
        if same(list[i], name) {
            assert(views[i as int] == name@);
            return true;
        }
        i += 1;
    }
    false
}

/// White space as Unicode's White_Space property has it.
pub open spec fn is_space(c: char) -> bool {
    ||| '\u{9}' <= c <= '\u{d}'
    ||| c == '\u{20}'
    ||| c == '\u{85}'
    ||| c == '\u{a0}'
    ||| c == '\u{1680}'
    ||| '\u{2000}' <= c <= '\u{200a}'
    ||| c == '\u{2028}'
    ||| c == '\u{2029}'
    ||| c == '\u{202f}'
    ||| c == '\u{205f}'
    ||| c == '\u{3000}'
}

/// Whether the character is white space.
pub fn is_whitespace(c: char) -> (r: bool)
    ensures
        r == is_space(c),
{
    ('\u{9}' <= c && c <= '\u{d}') || c == '\u{20}' || c == '\u{85}' || c == '\u{a0}' || c
        == '\u{1680}' || ('\u{2000}' <= c && c <= '\u{200a}') || c == '\u{2028}' || c == '\u{2029}'
        || c == '\u{202f}' || c == '\u{205f}' || c == '\u{3000}'
}

// --------------------------------------------------------- texts in bytes

/// The bytes of two texts in a row are those of the one and then of the other.
pub proof fn lemma_encode_concat(a: Seq<char>, b: Seq<char>)
    ensures
        encode_utf8(a + b) == encode_utf8(a) + encode_utf8(b),
    decreases a.len(),
{
    if a.len() == 0 {
        assert(a + b =~= b);
        assert(encode_utf8(a) + encode_utf8(b) =~= encode_utf8(b));
    } else {
        assert((a + b).drop_first() =~= a.drop_first() + b);
        lemma_encode_concat(a.drop_first(), b);
        assert(encode_utf8(a + b) =~= encode_utf8(a) + encode_utf8(b));
    }
}

/// No byte of a character other than the line feed is one.
proof fn lemma_scalar_feed(c: char)
    requires
        c != '\n',
    ensures
        forall|i: int|
            0 <= i < encode_scalar(c as u32).len() ==> #[trigger] encode_scalar(c as u32)[i] != 10,
{
    let v = c as u32;
    char_is_scalar(c);
    assert(v != 10);
    assert(v < 0x80 ==> (v & 0x7f) as u8 == v as u8 && (v & 0x7f) as u8 != 10u8) by (bit_vector)
        requires
            v != 10,
    ;
    assert(0xC0u8 | ((v >> 6) & 0x1F) as u8 >= 0x80u8) by (bit_vector);
    assert(0xE0u8 | ((v >> 12) & 0x0F) as u8 >= 0x80u8) by (bit_vector);
    assert(0xF0u8 | ((v >> 18) & 0x7) as u8 >= 0x80u8) by (bit_vector);
    assert(0x80u8 | (v & 0x3F) as u8 >= 0x80u8) by (bit_vector);
    assert(0x80u8 | ((v >> 6) & 0x3F) as u8 >= 0x80u8) by (bit_vector);
    assert(0x80u8 | ((v >> 12) & 0x3F) as u8 >= 0x80u8) by (bit_vector);
}

/// A text on one line.
pub open spec fn on_one_line(s: Seq<char>) -> bool {
    forall|i: int| 0 <= i < s.len() ==> #[trigger] s[i] != '\n'
}

/// No byte of a text on one line is a line feed.
pub proof fn lemma_text_feed(a: Seq<char>)
    requires
        on_one_line(a),
    ensures
        forall|i: int| 0 <= i < encode_utf8(a).len() ==> #[trigger] encode_utf8(a)[i] != 10,
    decreases a.len(),
{
    if a.len() > 0 {
        let rest = a.drop_first();
        assert(a[0] != '\n');
        assert forall|i: int| 0 <= i < rest.len() implies #[trigger] rest[i] != '\n' by {
            assert(rest[i] == a[i + 1]);
        }
        lemma_scalar_feed(a[0]);
        lemma_text_feed(rest);
        let first = encode_scalar(a[0] as u32);
        assert forall|i: int| 0 <= i < encode_utf8(a).len() implies #[trigger] encode_utf8(a)[i]
            != 10 by {
            if i < first.len() {
                assert(encode_utf8(a)[i] == first[i]);
            } else {
                assert(encode_utf8(a)[i] == encode_utf8(rest)[i - first.len()]);
            }
        }
    }
}

// -------------------------------------------------------------- trimming

/// The text without its leading white space.
pub open spec fn trimmed_start(s: Seq<char>) -> Seq<char>
    decreases s.len(),
{
    if s.len() > 0 && is_space(s[0]) {
        trimmed_start(s.drop_first())
    } else {
        s
    }
}

/// The text without its trailing white space.
pub open spec fn trimmed_end(s: Seq<char>) -> Seq<char>
    decreases s.len(),
{
    if s.len() > 0 && is_space(s.last()) {
        trimmed_end(s.drop_last())
    } else {
        s
    }
}

/// The text without white space at either end.
pub open spec fn trimmed(s: Seq<char>) -> Seq<char> {
    trimmed_end(trimmed_start(s))
}

/// The position of the first character at or after `from` that is not white space.
fn skip_space(chars: &[char], from: usize) -> (r: usize)
    requires
        from <= chars@.len(),
    ensures
        from <= r <= chars@.len(),
        trimmed_start(chars@.skip(from as int)) == chars@.skip(r as int),
        r < chars@.len() ==> !is_space(chars@[r as int]),
{
    let mut i: usize = from;
    while i < chars.len() && is_whitespace(chars[i])
        invariant
            from <= i <= chars@.len(),
            trimmed_start(chars@.skip(from as int)) == trimmed_start(chars@.skip(i as int)),
        decreases chars@.len() - i,
    {
        assert(chars@.skip(i as int).drop_first() =~= chars@.skip(i + 1));
        i += 1;
    }
    i
}

/// The text without white space at either end.
pub fn trim(s: &str) -> (r: String)
    ensures
        r@ == trimmed(s@),
{
    let chars = chars_of(s);
    assert(chars@.skip(0) =~= s@);
    let lo = skip_space(&chars, 0);
    let mut hi: usize = chars.len();
    assert(chars@.subrange(lo as int, hi as int) =~= chars@.skip(lo as int));
    while hi > lo && is_whitespace(chars[hi - 1])
        invariant
            lo <= hi <= chars@.len(),
            trimmed(s@) == trimmed_end(chars@.subrange(lo as int, hi as int)),
        decreases hi,
    {
        assert(chars@.subrange(lo as int, hi as int).drop_last() =~= chars@.subrange(
            lo as int,
            hi - 1,
        ));
        assert(chars@.subrange(lo as int, hi as int).last() == chars@[hi - 1]);
        hi -= 1;
    }
    assert(hi > lo ==> chars@.subrange(lo as int, hi as int).last() == chars@[hi - 1]);
    string_of(&chars, lo, hi)
}

// ----------------------------------------------------------------- words

/// How many characters the text has before its first white space.
pub open spec fn word_len(s: Seq<char>) -> nat
    decreases s.len(),
{
    if s.len() == 0 || is_space(s[0]) {
        0
    } else {
        1 + word_len(s.drop_first())
    }
}

/// The `n`th of the words that white space separates, counted from zero.
pub open spec fn word(s: Seq<char>, n: nat) -> Option<Seq<char>>
    decreases n,
{
    let t = trimmed_start(s);
    if t.len() == 0 {
        None
    } else if n == 0 {
        Some(t.take(word_len(t) as int))
    } else {
        word(t.skip(word_len(t) as int), (n - 1) as nat)
    }
}

/// The end of the word that starts at `from`.
fn word_end(chars: &[char], from: usize) -> (r: usize)
    requires
        from <= chars@.len(),
    ensures
        from <= r <= chars@.len(),
        r == from + word_len(chars@.skip(from as int)),
{
    let mut i: usize = from;
    while i < chars.len() && !is_whitespace(chars[i])
        invariant
            from <= i <= chars@.len(),
            from + word_len(chars@.skip(from as int)) == i + word_len(chars@.skip(i as int)),
        decreases chars@.len() - i,
    {
        assert(chars@.skip(i as int).drop_first() =~= chars@.skip(i + 1));
        i += 1;
    }
    i
}

/// The `n`th of the words that white space separates, counted from zero.
pub fn nth_word(s: &str, n: usize) -> (r: Option<String>)
    ensures
        r is Some <==> word(s@, n as nat) is Some,
        r matches Some(w) ==> word(s@, n as nat) == Some(w@),
{
    let chars = chars_of(s);
    let mut at: usize = 0;
    let mut left: usize = n;
    assert(chars@.skip(0) =~= s@);
    loop
        invariant
            at <= chars@.len(),
            word(s@, n as nat) == word(chars@.skip(at as int), left as nat),
        decreases left,
    {
        let start = skip_space(&chars, at);
        let end = word_end(&chars, start);
        let ghost t = trimmed_start(chars@.skip(at as int));
        if start == chars.len() {
            return None;
        }
        assert(chars@.subrange(start as int, end as int) =~= t.take(word_len(t) as int));
        assert(chars@.skip(end as int) =~= t.skip(word_len(t) as int));
        if left == 0 {
            return Some(string_of(&chars, start, end));
        }
        at = end;
        left -= 1;
    }
}

// ------------------------------------------------------------- searching

/// Whether the text begins with `prefix`.
pub fn starts_with(s: &str, prefix: &str) -> (r: bool)
    ensures
        r == prefix@.is_prefix_of(s@),
{
    let a = chars_of(s);
    let p = chars_of(prefix);
    p.len() <= a.len() && matches_at(&a, &p, 0)
}

/// Whether `pattern` stands at position `at`.
fn matches_at(chars: &[char], pattern: &[char], at: usize) -> (r: bool)
    requires
        at + pattern@.len() <= chars@.len(),
    ensures
        r == (chars@.subrange(at as int, at + pattern@.len()) == pattern@),
{
    let mut i: usize = 0;
    let ghost here = chars@.subrange(at as int, at + pattern@.len());
    while i < pattern.len()
        invariant
            i <= pattern@.len(),
            at + pattern@.len() <= chars@.len(),
            here == chars@.subrange(at as int, at + pattern@.len()),
            forall|j: int| 0 <= j < i ==> here[j] == pattern@[j],
        decreases pattern@.len() - i,
    {
        assert(chars@.len() == chars.len());
        if chars[at + i] != pattern[i] {
            assert(here[i as int] != pattern@[i as int]);
            return false;
        }
        i += 1;
    }
    assert(here =~= pattern@);
    true
}

/// Whether `pattern` stands at position `at` of the text.
pub open spec fn stands_at(s: Seq<char>, pattern: Seq<char>, at: int) -> bool {
    0 <= at && at + pattern.len() <= s.len() && s.subrange(at, at + pattern.len()) == pattern
}

/// Whether `pattern` stands anywhere in the text.
pub open spec fn occurs(s: Seq<char>, pattern: Seq<char>) -> bool {
    exists|at: int| stands_at(s, pattern, at)
}

/// Whether `pattern` stands anywhere in the text.
pub fn contains(s: &str, pattern: &str) -> (r: bool)
    ensures
        r == occurs(s@, pattern@),
{
    last_occurrence(s, pattern).is_some()
}

/// The last position where `pattern` stands, among those up to `limit`.
pub open spec fn last_stand(s: Seq<char>, pattern: Seq<char>, limit: int) -> Option<int>
    decreases limit + 1,
{
    if limit < 0 {
        None
    } else if stands_at(s, pattern, limit) {
        Some(limit)
    } else {
        last_stand(s, pattern, limit - 1)
    }
}

/// The last position where `pattern` stands in the text.
pub fn last_occurrence(s: &str, pattern: &str) -> (r: Option<usize>)
    ensures
        r is Some <==> occurs(s@, pattern@),
        r matches Some(i) ==> stands_at(s@, pattern@, i as int) && last_stand(
            s@,
            pattern@,
            s@.len() as int,
        ) == Some(i as int),
        r matches Some(i) ==> i + pattern@.len() <= usize::MAX,
        r is None ==> last_stand(s@, pattern@, s@.len() as int) is None,
{
    let chars = chars_of(s);
    let p = chars_of(pattern);
    let mut i: usize = chars.len();
    loop
        invariant
            i <= chars@.len(),
            chars@ == s@,
            p@ == pattern@,
            last_stand(s@, pattern@, s@.len() as int) == last_stand(s@, pattern@, i as int),
            forall|at: int| i < at ==> !stands_at(s@, pattern@, at),
        decreases i,
    {
        if p.len() <= chars.len() - i && matches_at(&chars, &p, i) {
            assert(stands_at(s@, pattern@, i as int));
            return Some(i);
        }
        assert(!stands_at(s@, pattern@, i as int));
        if i == 0 {
            assert(last_stand(s@, pattern@, -1) is None);
            assert forall|at: int| !stands_at(s@, pattern@, at) by {}
            return None;
        }
        i -= 1;
    }
}

/// The first position of a character at or after `from`.
fn find_char(chars: &[char], c: char, from: usize) -> (r: Option<usize>)
    requires
        from <= chars@.len(),
    ensures
        r is Some <==> chars@.skip(from as int).contains(c),
        r matches Some(i) ==> from <= i < chars@.len() && chars@.skip(from as int).index_of_first(c)
            == Some(i - from),
        r is None ==> chars@.skip(from as int).index_of_first(c) is None,
{
    let mut i: usize = from;
    let ghost t = chars@.skip(from as int);
    while i < chars.len()
        invariant
            from <= i <= chars@.len(),
            t == chars@.skip(from as int),
            forall|j: int| 0 <= j < i - from ==> t[j] != c,
        decreases chars@.len() - i,
    {
        if chars[i] == c {
            proof {
                assert(t[i - from] == c);
                t.index_of_first_ensures(c);
            }
            return Some(i);
        }
        i += 1;
    }
    proof {
        t.index_of_first_ensures(c);
    }
    None
}

/// The last position of a character.
fn rfind_char(chars: &[char], c: char) -> (r: Option<usize>)
    ensures
        r is Some <==> chars@.contains(c),
        r matches Some(i) ==> i < chars@.len() && chars@.index_of_last(c) == Some(i as int),
        r is None ==> chars@.index_of_last(c) is None,
{
    let mut i: usize = chars.len();
    while i > 0
        invariant
            i <= chars@.len(),
            forall|j: int| i <= j < chars@.len() ==> chars@[j] != c,
        decreases i,
    {
        i -= 1;
        if chars[i] == c {
            proof {
                chars@.index_of_last_ensures(c);
            }
            return Some(i);
        }
    }
    proof {
        chars@.index_of_last_ensures(c);
    }
    None
}

// ------------------------------------------------------------- splitting

/// The text up to the first `c`, or all of it.
pub open spec fn before_first(s: Seq<char>, c: char) -> Seq<char> {
    match s.index_of_first(c) {
        Some(i) => s.take(i),
        None => s,
    }
}

/// The text up to the first `c`, or all of it.
pub fn up_to(s: &str, c: char) -> (r: String)
    ensures
        r@ == before_first(s@, c),
{
    let chars = chars_of(s);
    assert(chars@.skip(0) =~= chars@);
    proof {
        s@.index_of_first_ensures(c);
    }
    let end = match find_char(&chars, c, 0) {
        Some(i) => i,
        None => chars.len(),
    };
    assert(chars@.subrange(0, end as int) =~= before_first(s@, c));
    string_of(&chars, 0, end)
}

/// The parts of the text before and after the first `c`.
pub open spec fn cut_first(s: Seq<char>, c: char) -> Option<(Seq<char>, Seq<char>)> {
    match s.index_of_first(c) {
        Some(i) => Some((s.take(i), s.skip(i + 1))),
        None => None,
    }
}

/// The parts of the text before and after the last `c`.
pub open spec fn cut_last(s: Seq<char>, c: char) -> Option<(Seq<char>, Seq<char>)> {
    match s.index_of_last(c) {
        Some(i) => Some((s.take(i), s.skip(i + 1))),
        None => None,
    }
}

/// A pair of texts as a pair of character sequences.
pub open spec fn pair_view(p: (String, String)) -> (Seq<char>, Seq<char>) {
    (p.0@, p.1@)
}

/// The parts of the text before and after the first `c`.
pub fn split_first(s: &str, c: char) -> (r: Option<(String, String)>)
    ensures
        r is Some <==> cut_first(s@, c) is Some,
        r matches Some(p) ==> cut_first(s@, c) == Some(pair_view(p)),
{
    let chars = chars_of(s);
    assert(chars@.skip(0) =~= chars@);
    proof {
        s@.index_of_first_ensures(c);
    }
    match find_char(&chars, c, 0) {
        Some(i) => {
            assert(chars@.len() == chars.len());
            assert(chars@.subrange(0, i as int) =~= s@.take(i as int));
            assert(chars@.subrange(i + 1, chars@.len() as int) =~= s@.skip(i + 1));
            Some((string_of(&chars, 0, i), string_of(&chars, i + 1, chars.len())))
        },
        None => None,
    }
}

/// The parts of the text before and after the last `c`.
pub fn split_last(s: &str, c: char) -> (r: Option<(String, String)>)
    ensures
        r is Some <==> cut_last(s@, c) is Some,
        r matches Some(p) ==> cut_last(s@, c) == Some(pair_view(p)),
{
    let chars = chars_of(s);
    match rfind_char(&chars, c) {
        Some(i) => {
            assert(chars@.len() == chars.len());
            assert(chars@.subrange(0, i as int) =~= s@.take(i as int));
            assert(chars@.subrange(i + 1, chars@.len() as int) =~= s@.skip(i + 1));
            Some((string_of(&chars, 0, i), string_of(&chars, i + 1, chars.len())))
        },
        None => None,
    }
}

/// The text from position `from` on.
pub fn tail(s: &str, from: usize) -> (r: String)
    requires
        from <= s@.len(),
    ensures
        r@ == s@.skip(from as int),
{
    let chars = chars_of(s);
    assert(chars@.subrange(from as int, chars@.len() as int) =~= s@.skip(from as int));
    string_of(&chars, from, chars.len())
}

/// What follows `prefix`, where the text begins with it.
pub open spec fn without_prefix(s: Seq<char>, prefix: Seq<char>) -> Option<Seq<char>> {
    if prefix.is_prefix_of(s) {
        Some(s.skip(prefix.len() as int))
    } else {
        None
    }
}

/// What follows `prefix`, where the text begins with it.
pub fn strip_prefix(s: &str, prefix: &str) -> (r: Option<String>)
    ensures
        r is Some <==> without_prefix(s@, prefix@) is Some,
        r matches Some(t) ==> without_prefix(s@, prefix@) == Some(t@),
{
    if starts_with(s, prefix) {
        let n = chars_of(prefix).len();
        Some(tail(s, n))
    } else {
        None
    }
}

/// The views of a list of texts.
pub open spec fn texts(v: Seq<String>) -> Seq<Seq<char>> {
    v.map_values(|s: String| s@)
}

/// The pieces of the text that `c` separates; one more than `c` occurs.
pub open spec fn pieces(s: Seq<char>, c: char) -> Seq<Seq<char>>
    decreases s.len(),
    via pieces_decreases
{
    match s.index_of_first(c) {
        Some(i) => seq![s.take(i)] + pieces(s.skip(i + 1), c),
        None => seq![s],
    }
}

#[via_fn]
proof fn pieces_decreases(s: Seq<char>, c: char) {
    s.index_of_first_ensures(c);
}

/// The pieces of the text that `c` separates.
pub fn split(s: &str, c: char) -> (r: Vec<String>)
    ensures
        texts(r@) == pieces(s@, c),
{
    let chars = chars_of(s);
    let mut out: Vec<String> = Vec::new();
    let mut at: usize = 0;
    assert(chars@.skip(0) =~= s@);
    assert(texts(out@) + pieces(s@, c) =~= pieces(s@, c));
    loop
        invariant
            at <= chars@.len(),
            texts(out@) + pieces(chars@.skip(at as int), c) == pieces(s@, c),
        decreases chars@.len() - at,
    {
        let ghost t = chars@.skip(at as int);
        let ghost before = texts(out@);
        proof {
            t.index_of_first_ensures(c);
        }
        match find_char(&chars, c, at) {
            Some(i) => {
                assert(chars@.len() == chars.len());
                out.push(string_of(&chars, at, i));
                assert(chars@.subrange(at as int, i as int) =~= t.take(i - at));
                assert(texts(out@) =~= before.push(t.take(i - at)));
                assert(chars@.skip(i + 1) =~= t.skip(i - at + 1));
                assert(texts(out@) + pieces(t.skip(i - at + 1), c) =~= before + (seq![t.take(i - at)]
                    + pieces(t.skip(i - at + 1), c)));
                at = i + 1;
            },
            None => {
                out.push(string_of(&chars, at, chars.len()));
                assert(chars@.subrange(at as int, chars@.len() as int) =~= t);
                assert(texts(out@) =~= before + seq![t]);
                return out;
            },
        }
    }
}

/// A line without the carriage return at its end.
pub open spec fn without_cr(line: Seq<char>) -> Seq<char> {
    if line.len() > 0 && line.last() == '\r' {
        line.drop_last()
    } else {
        line
    }
}

/// The lines of the text: each ends at a line feed, which is not part of it,
/// nor is a carriage return right before that; what follows the last line feed
/// is a line if it is not empty.
pub open spec fn text_lines(s: Seq<char>) -> Seq<Seq<char>>
    decreases s.len(),
    via text_lines_decreases
{
    if s.len() == 0 {
        seq![]
    } else {
        match s.index_of_first('\n') {
            Some(i) => seq![without_cr(s.take(i))] + text_lines(s.skip(i + 1)),
            None => seq![s],
        }
    }
}

#[via_fn]
proof fn text_lines_decreases(s: Seq<char>) {
    s.index_of_first_ensures('\n');
}

/// The lines of the text.
pub fn lines(s: &str) -> (r: Vec<String>)
    ensures
        texts(r@) == text_lines(s@),
{
    let chars = chars_of(s);
    let mut out: Vec<String> = Vec::new();
    let mut at: usize = 0;
    assert(chars@.skip(0) =~= s@);
    assert(texts(out@) + text_lines(s@) =~= text_lines(s@));
    while at < chars.len()
        invariant
            at <= chars@.len(),
            texts(out@) + text_lines(chars@.skip(at as int)) == text_lines(s@),
        decreases chars@.len() - at,
    {
        let ghost t = chars@.skip(at as int);
        let ghost before = texts(out@);
        proof {
            t.index_of_first_ensures('\n');
        }
        match find_char(&chars, '\n', at) {
            Some(i) => {
                let end = if i > at && chars[i - 1] == '\r' {
                    i - 1
                } else {
                    i
                };
                out.push(string_of(&chars, at, end));
                assert(chars@.subrange(at as int, end as int) =~= without_cr(t.take(i - at)));
                assert(texts(out@) =~= before.push(without_cr(t.take(i - at))));
                assert(chars@.skip(i + 1) =~= t.skip(i - at + 1));
                assert(texts(out@) + text_lines(t.skip(i - at + 1)) =~= before + (seq![
                    without_cr(t.take(i - at)),
                ] + text_lines(t.skip(i - at + 1))));
                at = i + 1;
            },
            None => {
                out.push(string_of(&chars, at, chars.len()));
                assert(chars@.subrange(at as int, chars@.len() as int) =~= t);
                assert(texts(out@) =~= before + seq![t]);
                return out;
            },
        }
    }
    assert(texts(out@) + text_lines(chars@.skip(at as int)) =~= texts(out@));
    out
}

/// The texts of the list with `sep` between neighbours.
pub open spec fn joined(parts: Seq<Seq<char>>, sep: Seq<char>) -> Seq<char>
    decreases parts.len(),
{
    if parts.len() == 0 {
        seq![]
    } else if parts.len() == 1 {
        parts[0]
    } else {
        joined(parts.drop_last(), sep) + sep + parts.last()
    }
}

/// The texts of the list with `sep` between neighbours.
pub fn join(parts: &Vec<String>, sep: &str) -> (r: String)
    ensures
        r@ == joined(texts(parts@), sep@),
{
    let mut out = String::new();
    let mut i: usize = 0;
    let ghost all = texts(parts@);
    assert(joined(all.take(0), sep@) =~= out@);
    while i < parts.len()
        invariant
            i <= parts@.len(),
            all == texts(parts@),
            out@ == joined(all.take(i as int), sep@),
        decreases parts@.len() - i,
    {
        assert(all.take(i + 1).drop_last() =~= all.take(i as int));
        assert(all.take(i + 1).last() == parts@[i as int]@);
        if i > 0 {
            out.append(sep);
        }
        out.append(parts[i].as_str());
        assert(out@ =~= joined(all.take(i + 1), sep@));
        i += 1;
    }
    assert(all.take(i as int) =~= all);
    out
}

// ----------------------------------------------------------- letter case

/// A character with `A` to `Z` made lower case.
pub open spec fn lower_char(c: char) -> char {
    if 'A' <= c <= 'Z' {
        (c as u32 + 32) as char
    } else {
        c
    }
}

/// A text with `A` to `Z` made lower case.
pub open spec fn lowered(s: Seq<char>) -> Seq<char> {
    s.map_values(|c: char| lower_char(c))
}

/// A text with `A` to `Z` made lower case.
pub fn lower(s: &str) -> (r: String)
    ensures
        r@ == lowered(s@),
{
    let chars = chars_of(s);
    let mut out = String::new();
    let mut i: usize = 0;
    while i < chars.len()
        invariant
            i <= chars@.len(),
            out@ == lowered(chars@.take(i as int)),
        decreases chars@.len() - i,
    {
        let c = chars[i];
        let d = if 'A' <= c && c <= 'Z' {
            ((c as u8) + 32) as char
        } else {
            c
        };
        out.push(d);
        i += 1;
        assert(out@ =~= lowered(chars@.take(i as int)));
    }
    assert(chars@.take(i as int) =~= s@);
    out
}

// --------------------------------------------------------------- numbers

/// The value of a digit in the radix.
pub open spec fn digit_value(c: char, radix: nat) -> Option<nat> {
    let v = if '0' <= c <= '9' {
        (c as u32 - 48) as nat
    } else if 'a' <= c <= 'z' {
        (c as u32 - 87) as nat
    } else if 'A' <= c <= 'Z' {
        (c as u32 - 55) as nat
    } else {
        radix
    };
    if v < radix {
        Some(v)
    } else {
        None
    }
}

/// The value of a run of digits, the most significant one first; nothing if a
/// character is no digit.
pub open spec fn digits_value(s: Seq<char>, radix: nat) -> Option<nat>
    decreases s.len(),
{
    if s.len() == 0 {
        Some(0)
    } else {
        match (digits_value(s.drop_last(), radix), digit_value(s.last(), radix)) {
            (Some(v), Some(d)) => Some(v * radix + d),
            _ => None,
        }
    }
}

/// The number that a text spells: digits, at least one, after an optional plus
/// sign, with a value of at most `max`.
pub open spec fn number(s: Seq<char>, radix: nat, max: nat) -> Option<nat> {
    let digits = if s.len() > 0 && s[0] == '+' {
        s.skip(1)
    } else {
        s
    };
    match digits_value(digits, radix) {
        Some(v) => if digits.len() > 0 && v <= max {
            Some(v)
        } else {
            None
        },
        None => None,
    }
}

/// More digits make no value smaller, and no failure a success.
proof fn lemma_digits_prefix(s: Seq<char>, n: int, radix: nat)
    requires
        0 <= n <= s.len(),
        radix >= 1,
    ensures
        digits_value(s.take(n), radix) is None ==> digits_value(s, radix) is None,
        digits_value(s, radix) matches Some(v) ==> digits_value(s.take(n), radix) matches Some(u)
            && u <= v,
    decreases s.len(),
{
    if n == s.len() {
        assert(s.take(n) =~= s);
    } else {
        assert(s.drop_last().take(n) =~= s.take(n));
        lemma_digits_prefix(s.drop_last(), n, radix);
        if let Some(v) = digits_value(s.drop_last(), radix) {
            assert(v * radix >= v) by (nonlinear_arith)
                requires
                    radix >= 1,
                    v >= 0,
            ;
        }
    }
}

/// The value of a digit in the radix.
fn digit(c: char, radix: u64) -> (r: Option<u64>)
    requires
        2 <= radix <= 36,
    ensures
        r is Some <==> digit_value(c, radix as nat) is Some,
        r matches Some(d) ==> digit_value(c, radix as nat) == Some(d as nat) && d < radix,
{
    let v: u64 = if '0' <= c && c <= '9' {
        (c as u64) - 48
    } else if 'a' <= c && c <= 'z' {
        (c as u64) - 87
    } else if 'A' <= c && c <= 'Z' {
        (c as u64) - 55
    } else {
        radix
    };
    if v < radix {
        Some(v)
    } else {
        None
    }
}

/// The number that a text spells in the radix, if it is at most `max`.
pub fn parse_number(s: &str, radix: u64, max: u64) -> (r: Option<u64>)
    requires
        2 <= radix <= 36,
    ensures
        r is Some <==> number(s@, radix as nat, max as nat) is Some,
        r matches Some(v) ==> number(s@, radix as nat, max as nat) == Some(v as nat),
{
    let chars = chars_of(s);
    let start: usize = if chars.len() > 0 && chars[0] == '+' {
        1
    } else {
        0
    };
    let ghost digits = chars@.skip(start as int);
    assert(chars@.skip(0) =~= chars@);
    if start == chars.len() {
        return None;
    }
    let mut acc: u64 = 0;
    let mut i: usize = start;
    assert(digits.take(0) =~= Seq::<char>::empty());
    while i < chars.len()
        invariant
            2 <= radix <= 36,
            start <= i <= chars@.len(),
            start < chars@.len(),
            digits == chars@.skip(start as int),
            number(s@, radix as nat, max as nat) == (match digits_value(digits, radix as nat) {
                Some(v) => if v <= max {
                    Some(v)
                } else {
                    None
                },
                None => None,
            }),
            digits_value(digits.take(i - start), radix as nat) == Some(acc as nat),
            acc <= max,
        decreases chars@.len() - i,
    {
        let ghost next = digits.take(i - start + 1);
        assert(next.drop_last() =~= digits.take(i - start));
        assert(next.last() == chars@[i as int]);
        proof {
            lemma_digits_prefix(digits, i - start + 1, radix as nat);
        }
        match digit(chars[i], radix) {
            None => {
                return None;
            },
            Some(d) => {
                assert(acc * radix <= u64::MAX * 36) by (nonlinear_arith)
                    requires
                        0 <= acc <= u64::MAX,
                        0 <= radix <= 36,
                ;
                let wide: u128 = (acc as u128) * (radix as u128) + (d as u128);
                if wide > max as u128 {
                    return None;
                }
                acc = wide as u64;
            },
        }
        i += 1;
    }
    assert(digits.take(i - start) =~= digits);
    Some(acc)
}

/// The digit character of a value below ten.
pub open spec fn decimal_digit(d: nat) -> char {
    (48 + d) as char
}

/// A number in decimal, without leading zeros.
pub open spec fn decimal(n: nat) -> Seq<char>
    decreases n,
{
    if n < 10 {
        seq![decimal_digit(n)]
    } else {
        decimal(n / 10).push(decimal_digit(n % 10))
    }
}

/// A signed number in decimal.
pub open spec fn decimal_int(n: int) -> Seq<char> {
    if n < 0 {
        seq!['-'] + decimal((-n) as nat)
    } else {
        decimal(n as nat)
    }
}

/// Appends a number in decimal.
pub fn push_decimal(out: &mut String, n: u64)
    ensures
        final(out)@ == old(out)@ + decimal(n as nat),
    decreases n,
{
    if n >= 10 {
        push_decimal(out, n / 10);
    }
    let d: u8 = (n % 10) as u8;
    out.push((48 + d) as char);
    assert(out@ =~= old(out)@ + decimal(n as nat));
}

/// Appends a signed number in decimal.
pub fn push_decimal_int(out: &mut String, n: i32)
    ensures
        final(out)@ == old(out)@ + decimal_int(n as int),
{
    if n < 0 {
        out.push('-');
        push_decimal(out, (-(n as i64)) as u64);
        assert(out@ =~= old(out)@ + decimal_int(n as int));
    } else {
        push_decimal(out, n as u64);
    }
}

/// The lower-case hexadecimal digit of a value below sixteen.
pub open spec fn hex_digit(d: nat) -> char {
    if d < 10 {
        (48 + d) as char
    } else {
        (87 + d) as char
    }
}

/// Two hexadecimal digits of a byte.
pub open spec fn hex_byte(b: u8) -> Seq<char> {
    seq![hex_digit((b / 16) as nat), hex_digit((b % 16) as nat)]
}

/// Four hexadecimal digits of a sixteen-bit number.
pub open spec fn hex_word(w: u16) -> Seq<char> {
    hex_byte((w / 256) as u8) + hex_byte((w % 256) as u8)
}

/// Appends one hexadecimal digit.
pub fn push_hex_digit(out: &mut String, d: u8)
    requires
        d < 16,
    ensures
        final(out)@ == old(out)@.push(hex_digit(d as nat)),
{
    if d < 10 {
        out.push((48 + d) as char);
    } else {
        out.push((87 + d) as char);
    }
}

/// Appends two hexadecimal digits of a byte.
pub fn push_hex_byte(out: &mut String, b: u8)
    ensures
        final(out)@ == old(out)@ + hex_byte(b),
{
    push_hex_digit(out, b / 16);
    push_hex_digit(out, b % 16);
    assert(out@ =~= old(out)@ + hex_byte(b));
}

/// Appends four hexadecimal digits of a sixteen-bit number.
pub fn push_hex_word(out: &mut String, w: u16)
    ensures
        final(out)@ == old(out)@ + hex_word(w),
{
    push_hex_byte(out, (w / 256) as u8);
    push_hex_byte(out, (w % 256) as u8);
    assert(out@ =~= old(out)@ + hex_word(w));
}

/// A number in hexadecimal, without leading zeros.
pub open spec fn hexadecimal(n: nat) -> Seq<char>
    decreases n,
{
    if n < 16 {
        seq![hex_digit(n)]
    } else {
        hexadecimal(n / 16).push(hex_digit(n % 16))
    }
}

/// A number written in hexadecimal reads back as that number.
pub proof fn law_digits_of_hexadecimal(n: nat)
    ensures
        hexadecimal(n).len() > 0,
        digits_value(hexadecimal(n), 16) == Some(n),
    decreases n,
{
    let s = hexadecimal(n);
    if n < 16 {
        assert(s.drop_last() =~= seq![]);
        assert(s.last() == hex_digit(n));
        assert(digits_value(s.drop_last(), 16) == Some(0nat));
        assert(digit_value(s.last(), 16) == Some(n));
    } else {
        law_digits_of_hexadecimal(n / 16);
        assert(s.drop_last() =~= hexadecimal(n / 16));
        assert(s.last() == hex_digit(n % 16));
        assert(digit_value(s.last(), 16) == Some(n % 16));
    }
}

/// Every character of a run of digits is one.
pub proof fn lemma_all_digits(s: Seq<char>, radix: nat)
    requires
        digits_value(s, radix) is Some,
    ensures
        forall|i: int| 0 <= i < s.len() ==> digit_value(#[trigger] s[i], radix) is Some,
    decreases s.len(),
{
    if s.len() > 0 {
        let front = s.drop_last();
        lemma_all_digits(front, radix);
        assert forall|i: int| 0 <= i < s.len() implies digit_value(
            #[trigger] s[i],
            radix,
        ) is Some by {
            if i < front.len() {
                assert(s[i] == front[i]);
            }
        }
    }
}

// ------------------------------------------------------------------- laws

/// Whether a text is white space all through.
pub open spec fn all_space(s: Seq<char>) -> bool {
    forall|i: int| 0 <= i < s.len() ==> is_space(#[trigger] s[i])
}

/// Whether a text neither begins nor ends with white space.
pub open spec fn is_trim(s: Seq<char>) -> bool {
    s.len() > 0 ==> !is_space(s[0]) && !is_space(s.last())
}

/// Leading white space does not matter to what is left without it.
pub proof fn lemma_trimmed_start_behind(before: Seq<char>, s: Seq<char>)
    requires
        all_space(before),
    ensures
        trimmed_start(before + s) == trimmed_start(s),
    decreases before.len(),
{
    if before.len() == 0 {
        assert(before + s =~= s);
    } else {
        assert(is_space(before[0]));
        let more = before.drop_first();
        assert forall|i: int| 0 <= i < more.len() implies is_space(#[trigger] more[i]) by {
            assert(more[i] == before[i + 1]);
        }
        assert((before + s).drop_first() =~= more + s);
        lemma_trimmed_start_behind(more, s);
    }
}

proof fn lemma_trimmed_end_before(s: Seq<char>, after: Seq<char>)
    requires
        all_space(after),
    ensures
        trimmed_end(s + after) == trimmed_end(s),
    decreases after.len(),
{
    if after.len() == 0 {
        assert(s + after =~= s);
    } else {
        assert(is_space(after[after.len() - 1]));
        let more = after.drop_last();
        assert forall|i: int| 0 <= i < more.len() implies is_space(#[trigger] more[i]) by {
            assert(more[i] == after[i]);
        }
        assert((s + after).drop_last() =~= s + more);
        assert((s + after).last() == after.last());
        lemma_trimmed_end_before(s, more);
    }
}

/// Trimming takes the white space at both ends, all of it and nothing else.
pub proof fn law_trimming(before: Seq<char>, s: Seq<char>, after: Seq<char>)
    requires
        all_space(before),
        is_trim(s),
        all_space(after),
    ensures
        trimmed(before + s + after) == s,
{
    assert(before + s + after =~= before + (s + after));
    lemma_trimmed_start_behind(before, s + after);
    if s.len() > 0 {
        assert((s + after)[0] == s[0]);
        lemma_trimmed_end_before(s, after);
    } else {
        assert(s + after =~= after);
        assert(after + s =~= after);
        lemma_trimmed_start_behind(after, s);
        assert(s =~= seq![]);
    }
}

/// White space is what Unicode calls so.
pub proof fn law_white_space(c: char)
    ensures
        is_space(c) <==> {
            let n = c as u32;
            ||| 0x9 <= n <= 0xd
            ||| n == 0x20
            ||| n == 0x85
            ||| n == 0xa0
            ||| n == 0x1680
            ||| 0x2000 <= n <= 0x200a
            ||| n == 0x2028
            ||| n == 0x2029
            ||| n == 0x202f
            ||| n == 0x205f
            ||| n == 0x3000
        },
{
}

/// Lower case changes the letters A to Z, each into the small one, and nothing
/// else.
pub proof fn law_lower_case(s: Seq<char>, i: int)
    requires
        0 <= i < s.len(),
    ensures
        lowered(s).len() == s.len(),
        'A' <= s[i] <= 'Z' ==> lowered(s)[i] as u32 == s[i] as u32 + 32,
        !('A' <= s[i] <= 'Z') ==> lowered(s)[i] == s[i],
{
}

/// A prefix is taken off where it stands, and nowhere else.
pub proof fn law_prefix(prefix: Seq<char>, s: Seq<char>)
    ensures
        without_prefix(prefix + s, prefix) == Some(s),
        without_prefix(s, prefix) matches Some(rest) ==> s == prefix + rest,
        without_prefix(s, prefix) is None <==> !prefix.is_prefix_of(s),
{
    assert((prefix + s).subrange(0, prefix.len() as int) =~= prefix);
    assert(prefix.is_prefix_of(prefix + s));
    assert((prefix + s).skip(prefix.len() as int) =~= s);
    if prefix.is_prefix_of(s) {
        assert(s =~= prefix + s.skip(prefix.len() as int));
    }
}

/// A text is cut at the first separator, or at the last one; where there is none
/// it is not cut.
pub proof fn law_cuts(a: Seq<char>, c: char, b: Seq<char>)
    ensures
        !a.contains(c) ==> cut_first(a + seq![c] + b, c) == Some((a, b)),
        !a.contains(c) ==> before_first(a + seq![c] + b, c) == a,
        !b.contains(c) ==> cut_last(a + seq![c] + b, c) == Some((a, b)),
        !a.contains(c) ==> cut_first(a, c) is None && cut_last(a, c) is None && before_first(a, c)
            == a,
{
    let s = a + seq![c] + b;
    let n = a.len() as int;
    assert(s[n] == c);
    s.index_of_first_ensures(c);
    s.index_of_last_ensures(c);
    a.index_of_first_ensures(c);
    a.index_of_last_ensures(c);
    assert(s.take(n) =~= a);
    assert(s.skip(n + 1) =~= b);
    if !a.contains(c) {
        let i = s.index_of_first(c).unwrap();
        if i < n {
            assert(s[i] == a[i]);
            assert(a.contains(c));
        }
    }
    if !b.contains(c) {
        let i = s.index_of_last(c).unwrap();
        if i > n {
            assert(s[i] == b[i - n - 1]);
            assert(b.contains(c));
        }
    }
}

/// Texts are joined with the separator between neighbours.
pub proof fn law_joining(parts: Seq<Seq<char>>, part: Seq<char>, sep: Seq<char>)
    ensures
        joined(Seq::<Seq<char>>::empty(), sep) == Seq::<char>::empty(),
        joined(seq![part], sep) == part,
        parts.len() > 0 ==> joined(parts.push(part), sep) == joined(parts, sep) + sep + part,
{
    assert(parts.push(part).drop_last() =~= parts);
    assert(parts.push(part).last() == part);
}

proof fn lemma_joined_front(part: Seq<char>, parts: Seq<Seq<char>>, sep: Seq<char>)
    requires
        parts.len() > 0,
    ensures
        joined(seq![part] + parts, sep) == part + sep + joined(parts, sep),
    decreases parts.len(),
{
    let all = seq![part] + parts;
    assert(all.last() == parts.last());
    if parts.len() == 1 {
        assert(all.drop_last() =~= seq![part]);
        assert(joined(all.drop_last(), sep) == part);
    } else {
        let front = parts.drop_last();
        assert(all.drop_last() =~= seq![part] + front);
        lemma_joined_front(part, front, sep);
        assert(joined(all, sep) =~= part + sep + joined(parts, sep));
    }
}

/// Splitting at a separator gives pieces without it, which joined with it give the
/// text back.
pub proof fn law_splitting(s: Seq<char>, c: char)
    ensures
        pieces(s, c).len() > 0,
        joined(pieces(s, c), seq![c]) == s,
        forall|i: int| 0 <= i < pieces(s, c).len() ==> !(#[trigger] pieces(s, c)[i]).contains(c),
    decreases s.len(),
{
    s.index_of_first_ensures(c);
    match s.index_of_first(c) {
        Some(i) => {
            let rest = s.skip(i + 1);
            let head = s.take(i);
            law_splitting(rest, c);
            lemma_joined_front(head, pieces(rest, c), seq![c]);
            assert(s =~= head + seq![c] + rest);
            assert(!head.contains(c)) by {
                if head.contains(c) {
                    let k = choose|k: int| 0 <= k < head.len() && head[k] == c;
                    assert(s[k] == c);
                }
            }
            let all = pieces(s, c);
            assert forall|k: int| 0 <= k < all.len() implies !(#[trigger] all[k]).contains(c) by {
                if k > 0 {
                    assert(all[k] == pieces(rest, c)[k - 1]);
                }
            }
        },
        None => {},
    }
}

/// A line ends at a line feed, which is not part of it, nor is a carriage return
/// right before that; what follows the last line feed is a line if it is there.
pub proof fn law_lines(line: Seq<char>, rest: Seq<char>)
    requires
        !line.contains('\n'),
    ensures
        text_lines(Seq::<char>::empty()) == Seq::<Seq<char>>::empty(),
        line.len() > 0 ==> text_lines(line) == seq![line],
        text_lines(line + seq!['\r', '\n'] + rest) == seq![line] + text_lines(rest),
        !(line.len() > 0 && line.last() == '\r') ==> text_lines(line + seq!['\n'] + rest) == seq![
            line,
        ] + text_lines(rest),
{
    line.index_of_first_ensures('\n');
    let n = line.len() as int;
    let a = line + seq!['\n'] + rest;
    law_cuts(line, '\n', rest);
    a.index_of_first_ensures('\n');
    assert(a[n] == '\n');
    let i = a.index_of_first('\n').unwrap();
    if i < n {
        assert(a[i] == line[i]);
        assert(line.contains('\n'));
    }
    assert(a.take(n) =~= line);
    assert(a.skip(n + 1) =~= rest);
    let l2 = line + seq!['\r'];
    assert(!l2.contains('\n')) by {
        if l2.contains('\n') {
            let k = choose|k: int| 0 <= k < l2.len() && l2[k] == '\n';
            assert(line[k] == '\n');
        }
    }
    let b = line + seq!['\r', '\n'] + rest;
    b.index_of_first_ensures('\n');
    assert(b[n + 1] == '\n');
    let k = b.index_of_first('\n').unwrap();
    if k < n + 1 {
        assert(b[k] == l2[k]);
        assert(l2.contains('\n'));
    }
    assert(b.take(n + 1) =~= l2);
    assert(l2.drop_last() =~= line);
    assert(b.skip(n + 2) =~= rest);
}

/// The digits of a number, and what they are worth: 0 to 9, and from 10 on the
/// letters in either case.
pub proof fn law_digits(c: char, radix: nat)
    requires
        2 <= radix <= 36,
    ensures
        digit_value(c, radix) matches Some(d) ==> d < radix && (c as u32 == 48 + d && d < 10
            || c as u32 == 87 + d && d >= 10 || c as u32 == 55 + d && d >= 10),
        '0' <= c <= '9' && c as u32 - 48 < radix ==> digit_value(c, radix) == Some(
            (c as u32 - 48) as nat,
        ),
        'a' <= c <= 'z' && c as u32 - 87 < radix ==> digit_value(c, radix) == Some(
            (c as u32 - 87) as nat,
        ),
        'A' <= c <= 'Z' && c as u32 - 55 < radix ==> digit_value(c, radix) == Some(
            (c as u32 - 55) as nat,
        ),
{
}

/// A number is what its digits spell: each is worth the radix times the one behind
/// it. There is at least one, a plus sign may stand before them, nothing else may
/// stand anywhere, and more than the limit is none.
pub proof fn law_numbers(s: Seq<char>, c: char, radix: nat, max: nat)
    requires
        2 <= radix <= 36,
    ensures
        digits_value(Seq::<char>::empty(), radix) == Some(0nat),
        digits_value(s.push(c), radix) == (match (digits_value(s, radix), digit_value(c, radix)) {
            (Some(v), Some(d)) => Some(v * radix + d),
            _ => None,
        }),
        number(Seq::<char>::empty(), radix, max) is None,
        number(seq!['+'], radix, max) is None,
        s.len() > 0 && s[0] != '+' ==> number(seq!['+'] + s, radix, max) == number(s, radix, max),
        s.len() > 0 && s[0] != '+' ==> number(s, radix, max) == (match digits_value(s, radix) {
            Some(v) => if v <= max {
                Some(v)
            } else {
                None
            },
            None => None,
        }),
{
    assert(s.push(c).drop_last() =~= s);
    assert(s.push(c).last() == c);
    assert((seq!['+'] + s).skip(1) =~= s);
    assert(seq!['+'].skip(1) =~= seq![]);
}

/// A number in decimal has no zero in front, and a negative one has a minus sign.
pub proof fn law_decimal_digits(n: nat)
    ensures
        n < 10 ==> decimal(n).len() == 1 && decimal(n)[0] as u32 == 48 + n,
        n >= 10 ==> decimal(n).len() >= 2 && '1' <= decimal(n)[0] <= '9',
        n >= 10 ==> decimal(n).drop_last() == decimal(n / 10) && decimal(n).last() as u32 == 48 + n
            % 10,
        decimal_int(n as int) == decimal(n),
        n > 0 ==> decimal_int(-n) == seq!['-'] + decimal(n),
    decreases n,
{
    if n >= 10 {
        law_decimal_digits(n / 10);
        assert(decimal(n).drop_last() =~= decimal(n / 10));
    }
}

/// A byte is two hexadecimal digits and a sixteen-bit number four, in lower case.
pub proof fn law_hex_digits(b: u8, w: u16)
    ensures
        hex_byte(b).len() == 2,
        digits_value(hex_byte(b), 16) == Some(b as nat),
        hex_word(w).len() == 4,
        digits_value(hex_word(w), 16) == Some(w as nat),
        forall|i: int|
            0 <= i < 4 ==> '0' <= #[trigger] hex_word(w)[i] <= '9' || 'a' <= hex_word(w)[i] <= 'f',
{
    let none = Seq::<char>::empty();
    let x = hex_byte(b);
    assert(x =~= none.push(x[0]).push(x[1]));
    law_numbers(none, x[0], 16, 0);
    law_numbers(none.push(x[0]), x[1], 16, 0);
    assert(digit_value(x[0], 16) == Some((b / 16) as nat));
    assert(digit_value(x[1], 16) == Some((b % 16) as nat));
    assert(digits_value(none.push(x[0]), 16) == Some((b / 16) as nat));
    let y = hex_word(w);
    let hi = w / 256;
    let lo = w % 256;
    let one = none.push(y[0]);
    let two = one.push(y[1]);
    let three = two.push(y[2]);
    assert(y =~= three.push(y[3]));
    law_numbers(none, y[0], 16, 0);
    law_numbers(one, y[1], 16, 0);
    law_numbers(two, y[2], 16, 0);
    law_numbers(three, y[3], 16, 0);
    assert(digit_value(y[0], 16) == Some((hi / 16) as nat));
    assert(digit_value(y[1], 16) == Some((hi % 16) as nat));
    assert(digit_value(y[2], 16) == Some((lo / 16) as nat));
    assert(digit_value(y[3], 16) == Some((lo % 16) as nat));
    assert(digits_value(one, 16) == Some((hi / 16) as nat));
    assert(digits_value(two, 16) == Some(hi as nat));
    assert(digits_value(three, 16) == Some((hi * 16 + lo / 16) as nat));
}

/// A pattern that stands in a text occurs in it, and what is found last is the
/// last place where it stands.
pub proof fn law_searching(a: Seq<char>, pattern: Seq<char>, b: Seq<char>)
    ensures
        occurs(a + pattern + b, pattern),
        (forall|i: int|
            a.len() < i <= a.len() + b.len() ==> !#[trigger] stands_at(
                a + pattern + b,
                pattern,
                i,
            )) ==> last_stand(a + pattern + b, pattern, (a + pattern + b).len() as int) == Some(
            a.len() as int,
        ),
        !occurs(a, pattern) ==> last_stand(a, pattern, a.len() as int) is None,
{
    let s = a + pattern + b;
    assert(s.subrange(a.len() as int, a.len() + pattern.len() as int) =~= pattern);
    assert(stands_at(s, pattern, a.len() as int));
    if forall|i: int|
        a.len() < i <= a.len() + b.len() ==> !#[trigger] stands_at(s, pattern, i) {
        lemma_last_stand(s, pattern, s.len() as int, a.len() as int);
    }
    if !occurs(a, pattern) {
        lemma_no_stand(a, pattern, a.len() as int);
    }
}

proof fn lemma_last_stand(s: Seq<char>, pattern: Seq<char>, limit: int, at: int)
    requires
        stands_at(s, pattern, at),
        0 <= at <= limit <= s.len(),
        forall|i: int| at < i <= s.len() - pattern.len() ==> !#[trigger] stands_at(s, pattern, i),
    ensures
        last_stand(s, pattern, limit) == Some(at),
    decreases limit,
{
    if limit > at {
        assert(!stands_at(s, pattern, limit));
        lemma_last_stand(s, pattern, limit - 1, at);
    }
}

proof fn lemma_no_stand(s: Seq<char>, pattern: Seq<char>, limit: int)
    requires
        !occurs(s, pattern),
    ensures
        last_stand(s, pattern, limit) is None,
    decreases limit + 1,
{
    if limit >= 0 {
        assert(!stands_at(s, pattern, limit));
        lemma_no_stand(s, pattern, limit - 1);
    }
}

} // verus!
