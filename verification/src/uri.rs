//! Printer addresses: `ipp://host[:port]/path`.

use crate::text::{
    chars_of, cut_last, decimal, decimal_digit, digit_value, digits_value, law_cuts, law_prefix,
    number, parse_number, push_decimal, split_last, string_of, strip_prefix, without_prefix,
};
use vstd::prelude::*;
use vstd::string::StringExecFns;

verus! {

/// ipp://host[:port]/path parsed into connectable pieces.
#[derive(Debug)]
pub struct PrinterUri {
    pub host: String,
    pub port: u16,
    pub path: String,
    pub uri: String,
}

/// A printer address as a mathematical value.
#[verifier::ext_equal]
pub struct UriView {
    pub host: Seq<char>,
    pub port: u16,
    pub path: Seq<char>,
    pub uri: Seq<char>,
}

impl View for PrinterUri {
    type V = UriView;

    open spec fn view(&self) -> UriView {
        UriView { host: self.host@, port: self.port, path: self.path@, uri: self.uri@ }
    }
}

impl Clone for PrinterUri {
    fn clone(&self) -> (r: Self)
        ensures
            r@ == self@,
    {
        PrinterUri {
            host: self.host.clone(),
            port: self.port,
            path: self.path.clone(),
            uri: self.uri.clone(),
        }
    }
}

/// What follows the scheme of a usable address.
pub open spec fn after_scheme(uri: Seq<char>) -> Option<Seq<char>> {
    match without_prefix(uri, "ipp://"@) {
        Some(rest) => Some(rest),
        None => without_prefix(uri, "http://"@),
    }
}

/// The part up to the first slash, and the path from that slash on.
pub open spec fn authority_and_path(rest: Seq<char>) -> (Seq<char>, Seq<char>) {
    match rest.index_of_first('/') {
        Some(i) => (rest.take(i), rest.skip(i)),
        None => (rest, "/"@),
    }
}

/// The host, and the port after the last colon; 631 where there is none.
pub open spec fn host_and_port(authority: Seq<char>) -> Option<(Seq<char>, u16)> {
    match cut_last(authority, ':') {
        Some((host, port)) => match number(port, 10, 0xffff) {
            Some(n) => Some((host, n as u16)),
            None => None,
        },
        None => Some((authority, 631)),
    }
}

/// The address that a text spells, or what is wrong with it.
pub open spec fn uri_of(uri: Seq<char>) -> Result<UriView, Seq<char>> {
    match after_scheme(uri) {
        None => Err(
            "unsupported printer URI '"@ + uri
                + "' (need ipp:// or http://; TLS-only ipps:// is not supported)"@,
        ),
        Some(rest) => {
            let (authority, path) = authority_and_path(rest);
            match host_and_port(authority) {
                None => Err("bad port"@),
                Some((host, port)) => if host.len() == 0 {
                    Err("empty host in printer URI"@)
                } else {
                    Ok(UriView { host, port, path, uri })
                },
            }
        },
    }
}

/// The outcome of reading an address as a mathematical value.
pub open spec fn uri_result(r: Result<PrinterUri, String>) -> Result<UriView, Seq<char>> {
    match r {
        Ok(u) => Ok(u@),
        Err(e) => Err(e@),
    }
}

/// The part up to the first slash, and the path from that slash on.
fn split_path(rest: &str) -> (r: (String, String))
    ensures
        (r.0@, r.1@) == authority_and_path(rest@),
{
    let chars = chars_of(rest);
    let mut i: usize = 0;
    while i < chars.len()
        invariant
            i <= chars@.len(),
            chars@ == rest@,
            forall|j: int| 0 <= j < i ==> chars@[j] != '/',
        decreases chars@.len() - i,
    {
        if chars[i] == '/' {
            proof {
                rest@.index_of_first_ensures('/');
            }
            assert(rest@.index_of_first('/') == Some(i as int));
            assert(chars@.subrange(0, i as int) =~= rest@.take(i as int));
            assert(chars@.subrange(i as int, chars@.len() as int) =~= rest@.skip(i as int));
            return (string_of(&chars, 0, i), string_of(&chars, i, chars.len()));
        }
        i += 1;
    }
    proof {
        rest@.index_of_first_ensures('/');
    }
    (rest.to_owned(), "/".to_owned())
}

/// The address that a text spells, or what is wrong with it.
pub fn parse_uri(uri: &str) -> (r: Result<PrinterUri, String>)
    ensures
        uri_result(r) == uri_of(uri@),
{
    let rest = match strip_prefix(uri, "ipp://") {
        Some(rest) => rest,
        None => match strip_prefix(uri, "http://") {
            Some(rest) => rest,
            None => {
                let mut e = "unsupported printer URI '".to_owned();
                e.append(uri);
                e.append("' (need ipp:// or http://; TLS-only ipps:// is not supported)");
                return Err(e);
            },
        },
    };
    let (authority, path) = split_path(rest.as_str());
    let (host, port) = match split_last(authority.as_str(), ':') {
        Some((host, port)) => match parse_number(port.as_str(), 10, 0xffff) {
            Some(n) => (host, n as u16),
            None => {
                return Err("bad port".to_owned());
            },
        },
        None => (authority, 631),
    };
    if host.as_str().is_empty() {
        return Err("empty host in printer URI".to_owned());
    }
    Ok(PrinterUri { host, port, path, uri: uri.to_owned() })
}

// ------------------------------------------------------- own address

/// The address under which the virtual printer itself is reached.
pub open spec fn self_uri_text(port: u16) -> Seq<char> {
    "ipp://127.0.0.1:"@ + decimal(port as nat) + "/ipp/print"@
}

/// The address under which the virtual printer itself is reached.
pub fn self_uri(port: u16) -> (r: String)
    ensures
        r@ == self_uri_text(port),
{
    let mut s = "ipp://127.0.0.1:".to_owned();
    push_decimal(&mut s, port as u64);
    s.append("/ipp/print");
    s
}

/// A number in decimal is made of digits that spell it.
pub proof fn lemma_decimal(n: nat)
    ensures
        digits_value(decimal(n), 10) == Some(n),
        decimal(n).len() > 0,
        forall|i: int| 0 <= i < decimal(n).len() ==> '0' <= #[trigger] decimal(n)[i] <= '9',
    decreases n,
{
    if n < 10 {
        let s = decimal(n);
        assert(s.drop_last() =~= seq![]);
        assert(s.last() == decimal_digit(n));
        assert(digits_value(s.drop_last(), 10) == Some(0nat));
        assert(digit_value(s.last(), 10) == Some(n));
    } else {
        lemma_decimal(n / 10);
        let s = decimal(n);
        assert(s.drop_last() =~= decimal(n / 10));
        assert(s.last() == decimal_digit(n % 10));
        assert(digit_value(s.last(), 10) == Some(n % 10));
        assert forall|i: int| 0 <= i < s.len() implies '0' <= #[trigger] s[i] <= '9' by {
            if i < s.len() - 1 {
                assert(s[i] == decimal(n / 10)[i]);
            }
        }
    }
}

/// A number written in decimal reads back as that number, wherever it is allowed.
pub proof fn law_number_of_decimal(n: nat, max: nat)
    requires
        n <= max,
    ensures
        number(decimal(n), 10, max) == Some(n),
{
    lemma_decimal(n);
}

/// The address that the virtual printer advertises leads back to it: it reads as
/// the loopback host, the same port, and the print path.
pub proof fn law_self_uri_reads_back(port: u16)
    ensures
        uri_of(self_uri_text(port)) == Ok::<UriView, Seq<char>>(
            UriView {
                host: "127.0.0.1"@,
                port,
                path: "/ipp/print"@,
                uri: self_uri_text(port),
            },
        ),
{
    reveal_strlit("ipp://127.0.0.1:");
    reveal_strlit("127.0.0.1");
    reveal_strlit("/ipp/print");
    reveal_strlit("ipp://");
    let uri = self_uri_text(port);
    let digits = decimal(port as nat);
    lemma_decimal(port as nat);
    law_number_of_decimal(port as nat, 0xffff);
    assert("ipp://"@.is_prefix_of(uri)) by {
        assert("ipp://"@ =~= uri.subrange(0, 6));
    }
    let rest = uri.skip(6);
    let authority = "127.0.0.1"@ + seq![':'] + digits;
    assert(rest =~= authority + "/ipp/print"@);
    rest.index_of_first_ensures('/');
    assert forall|i: int| 0 <= i < authority.len() implies authority[i] != '/' by {
        if i >= 10 {
            assert(authority[i] == digits[i - 10]);
        }
    }
    assert(rest[authority.len() as int] == '/');
    let cut = rest.index_of_first('/').unwrap();
    assert(cut == authority.len()) by {
        if cut < authority.len() {
            assert(rest[cut] == authority[cut]);
        }
    }
    assert(rest.take(cut) =~= authority);
    assert(rest.skip(cut) =~= "/ipp/print"@);
    authority.index_of_last_ensures(':');
    assert(authority[9] == ':');
    let colon = authority.index_of_last(':').unwrap();
    assert(colon == 9) by {
        if colon > 9 {
            assert(authority[colon] == digits[colon - 10]);
        }
    }
    assert(authority.take(9) =~= "127.0.0.1"@);
    assert(authority.skip(10) =~= digits);
}

/// An address of either scheme is read as its host, its port and its path: the port
/// is 631 where none is given, and the path is a slash.
pub proof fn law_addresses_are_read(host: Seq<char>, port: u16, path: Seq<char>)
    requires
        host.len() > 0,
        !host.contains('/'),
        !host.contains(':'),
        path.len() > 0,
        path[0] == '/',
    ensures
        ({
            let full = host + seq![':'] + decimal(port as nat);
            let read = |uri: Seq<char>, port: u16, path: Seq<char>| uri_of(uri) == Ok::<
                UriView,
                Seq<char>,
            >(UriView { host, port, path, uri });
            &&& read("ipp://"@ + (full + path), port, path)
            &&& read("ipp://"@ + (host + path), 631, path)
            &&& read("ipp://"@ + full, port, "/"@)
            &&& read("ipp://"@ + host, 631, "/"@)
            &&& read("http://"@ + (full + path), port, path)
            &&& read("http://"@ + (host + path), 631, path)
        }),
{
    let full = host + seq![':'] + decimal(port as nat);
    lemma_authority(host, port);
    lemma_no_slash(host, port);
    lemma_path(full, path);
    lemma_path(host, path);
    host.index_of_first_ensures('/');
    full.index_of_first_ensures('/');
    lemma_schemes(full + path);
    lemma_schemes(host + path);
    lemma_schemes(full);
    lemma_schemes(host);
}

proof fn lemma_schemes(rest: Seq<char>)
    ensures
        after_scheme("ipp://"@ + rest) == Some(rest),
        after_scheme("http://"@ + rest) == Some(rest),
{
    law_prefix("ipp://"@, rest);
    law_prefix("http://"@, rest);
    reveal_strlit("ipp://");
    reveal_strlit("http://");
    let s = "http://"@ + rest;
    if "ipp://"@.is_prefix_of(s) {
        assert(s.subrange(0, 6)[0] == "ipp://"@[0]);
    }
}

proof fn lemma_no_slash(host: Seq<char>, port: u16)
    requires
        !host.contains('/'),
    ensures
        !(host + seq![':'] + decimal(port as nat)).contains('/'),
{
    let digits = decimal(port as nat);
    let full = host + seq![':'] + digits;
    lemma_decimal(port as nat);
    if full.contains('/') {
        let i = choose|i: int| 0 <= i < full.len() && full[i] == '/';
        if i < host.len() {
            assert(host[i] == '/');
        } else if i > host.len() {
            assert(digits[i - host.len() - 1] == '/');
        }
    }
}

proof fn lemma_authority(host: Seq<char>, port: u16)
    requires
        !host.contains(':'),
    ensures
        host_and_port(host) == Some((host, 631u16)),
        host_and_port(host + seq![':'] + decimal(port as nat)) == Some((host, port)),
{
    let digits = decimal(port as nat);
    lemma_decimal(port as nat);
    law_number_of_decimal(port as nat, 0xffff);
    if digits.contains(':') {
        let i = choose|i: int| 0 <= i < digits.len() && digits[i] == ':';
        assert('0' <= digits[i] <= '9');
    }
    law_cuts(host, ':', digits);
}

proof fn lemma_path(authority: Seq<char>, path: Seq<char>)
    requires
        !authority.contains('/'),
        path.len() > 0,
        path[0] == '/',
    ensures
        authority_and_path(authority + path) == (authority, path),
{
    let s = authority + path;
    let n = authority.len() as int;
    assert(s[n] == '/');
    s.index_of_first_ensures('/');
    let i = s.index_of_first('/').unwrap();
    if i < n {
        assert(authority[i] == '/');
    }
    assert(s.take(n) =~= authority);
    assert(s.skip(n) =~= path);
}

/// An address that cannot be used is an error that says why: another scheme, no
/// host, or a port that is no number below 65536.
pub proof fn law_bad_addresses_are_refused(uri: Seq<char>, port: Seq<char>, path: Seq<char>)
    requires
        path.len() > 0,
        path[0] == '/',
        !port.contains('/'),
        !port.contains(':'),
    ensures
        !"ipp://"@.is_prefix_of(uri) && !"http://"@.is_prefix_of(uri) ==> uri_of(uri) == Err::<
            UriView,
            Seq<char>,
        >(
            "unsupported printer URI '"@ + uri
                + "' (need ipp:// or http://; TLS-only ipps:// is not supported)"@,
        ),
        uri_of("ipp://"@ + path) == Err::<UriView, Seq<char>>("empty host in printer URI"@),
        number(port, 10, 0xffff) is None ==> uri_of("ipp://"@ + (seq!['h', ':'] + port + path))
            == Err::<UriView, Seq<char>>("bad port"@),
{
    let none = Seq::<char>::empty();
    lemma_schemes(path);
    lemma_path(none, path);
    assert(none + path =~= path);
    lemma_authority(none, 0);
    let h = seq!['h'];
    let authority = seq!['h', ':'] + port;
    assert(authority =~= h + seq![':'] + port);
    law_cuts(h, ':', port);
    if authority.contains('/') {
        let i = choose|i: int| 0 <= i < authority.len() && authority[i] == '/';
        assert(port[i - 2] == '/');
    }
    lemma_path(authority, path);
    lemma_schemes(authority + path);
}

/// The port stands behind the last colon, so that a host may have colons of its own.
pub proof fn law_last_colon_is_the_ports(host: Seq<char>, port: u16, path: Seq<char>)
    requires
        host.len() > 0,
        !host.contains('/'),
        path.len() > 0,
        path[0] == '/',
    ensures
        ({
            let uri = "ipp://"@ + (host + seq![':'] + decimal(port as nat) + path);
            uri_of(uri) == Ok::<UriView, Seq<char>>(UriView { host, port, path, uri })
        }),
{
    let digits = decimal(port as nat);
    let full = host + seq![':'] + digits;
    lemma_decimal(port as nat);
    law_number_of_decimal(port as nat, 0xffff);
    if digits.contains(':') {
        let i = choose|i: int| 0 <= i < digits.len() && digits[i] == ':';
        assert('0' <= digits[i] <= '9');
    }
    law_cuts(host, ':', digits);
    lemma_no_slash(host, port);
    lemma_path(full, path);
    lemma_schemes(full + path);
}

} // verus!
