//! Settings of the server read from its environment: the database address,
//! the port, and the addresses derived from the port.

use vstd::prelude::*;
use vstd::string::StringExecFns;
use crate::text::{decimal, decimal_string, digits_value, is_ascii_digit, lemma_decimal};

verus! {

/// The database the library uses where none is configured.
pub open spec fn default_database_url() -> Seq<char> {
    "sqlite:movies.db"@
}

/// The database address: the configured one, else `sqlite:movies.db`.
pub fn database_url(configured: Option<String>) -> (r: String)
    ensures
        r@ == match configured {
            Some(u) => u@,
            None => default_database_url(),
        },
{
    match configured {
        Some(u) => u,
        None => String::from_str("sqlite:movies.db"),
    }
}

/// The digits of a port setting: the text without one leading `+`.
pub open spec fn port_digits(s: Seq<char>) -> Seq<char> {
    if s.len() > 0 && s[0] == '+' {
        s.drop_first()
    } else {
        s
    }
}

/// The port a setting names as `u16::from_str` reads it: an optional `+`
/// and at least one ASCII digit, of a value that fits in 16 bits.
pub open spec fn parsed_port(s: Seq<char>) -> Option<u16> {
    let d = port_digits(s);
    if d.len() > 0 && (forall|i: int| 0 <= i < d.len() ==> is_ascii_digit(#[trigger] d[i]))
        && digits_value(d) <= u16::MAX {
        Some(digits_value(d) as u16)
    } else {
        None
    }
}

/// The port the server listens on: the configured one where it reads as a
/// port number, else 8080.
pub open spec fn port_of(configured: Option<Seq<char>>) -> u16 {
    match configured {
        Some(s) => match parsed_port(s) {
            Some(p) => p,
            None => 8080,
        },
        None => 8080,
    }
}

proof fn lemma_digits_value_grows(d: Seq<char>, i: int)
    requires
        0 <= i < d.len(),
        forall|j: int| 0 <= j < d.len() ==> is_ascii_digit(#[trigger] d[j]),
    ensures
        digits_value(d.take(i)) <= digits_value(d),
    decreases d.len(),
{
    let p = d.drop_last();
    assert forall|j: int| 0 <= j < p.len() implies is_ascii_digit(#[trigger] p[j]) by {
        assert(p[j] == d[j]);
    }
    assert(is_ascii_digit(d[d.len() - 1]));
    lemma_digits_value_nonneg(p);
    if i < d.len() - 1 {
        assert(d.take(i) =~= p.take(i));
        lemma_digits_value_grows(p, i);
    } else {
        assert(d.take(i) =~= p);
    }
}

proof fn lemma_digits_value_nonneg(d: Seq<char>)
    requires
        forall|j: int| 0 <= j < d.len() ==> is_ascii_digit(#[trigger] d[j]),
    ensures
        digits_value(d) >= 0,
    decreases d.len(),
{
    if d.len() > 0 {
        let p = d.drop_last();
        assert forall|j: int| 0 <= j < p.len() implies is_ascii_digit(#[trigger] p[j]) by {
            assert(p[j] == d[j]);
        }
        assert(is_ascii_digit(d[d.len() - 1]));
        lemma_digits_value_nonneg(p);
    }
}

/// The port named by `s`, as `u16::from_str` reads it.
pub fn parse_port(s: &str) -> (r: Option<u16>)
    ensures
        r == parsed_port(s@),
{
    let chars = crate::text::chars_of(s);
    let n = chars.len();
    let start: usize = if n > 0 && chars[0] == '+' {
        1
    } else {
        0
    };
    let ghost d = port_digits(s@);
    assert(d =~= chars@.skip(start as int));
    if start >= n {
        return None;
    }
    let mut value: u32 = 0;
    let mut i: usize = start;
    assert(d.take(0) =~= Seq::<char>::empty());
    while i < n
        invariant
            start < n == chars@.len(),
            chars@ == s@,
            d == port_digits(s@),
            d == chars@.skip(start as int),
            start <= i <= n,
            forall|j: int| 0 <= j < i - start ==> is_ascii_digit(#[trigger] d[j]),
            value == digits_value(d.take(i - start)),
            value <= u16::MAX,
        decreases n - i,
    {
        let c = chars[i];
        assert(d[i - start] == c);
        if !('0' <= c && c <= '9') {
            return None;
        }
        assert(d.take(i - start + 1).drop_last() =~= d.take(i - start));
        value = value * 10 + ((c as u32) - 48);
        if value > 65535 {
            proof {
                if forall|j: int| 0 <= j < d.len() ==> is_ascii_digit(#[trigger] d[j]) {
                    if i + 1 - start < d.len() {
                        lemma_digits_value_grows(d, i + 1 - start);
                    } else {
                        assert(d.take(i + 1 - start) =~= d);
                    }
                }
            }
            return None;
        }
        i += 1;
    }
    assert(d.take(n - start) =~= d);
    Some(value as u16)
}

/// The port the server listens on: `configured` where it reads as a port
/// number, else 8080.
pub fn port_setting(configured: Option<&str>) -> (r: u16)
    ensures
        r == port_of(
            match configured {
                Some(s) => Some(s@),
                None => None,
            },
        ),
{
    match configured {
        Some(s) => match parse_port(s) {
            Some(p) => p,
            None => 8080,
        },
        None => 8080,
    }
}

/// The local address the server binds to on `port`.
pub fn server_address(port: u16) -> (r: String)
    ensures
        r@ == "127.0.0.1:"@ + decimal(port as nat),
{
    let mut a = String::from_str("127.0.0.1:");
    a.append(decimal_string(port as u64).as_str());
    a
}

/// The only origin whose browser requests the server accepts.
pub fn allowed_origin(port: u16) -> (r: String)
    ensures
        r@ == "http://127.0.0.1:"@ + decimal(port as nat),
{
    let mut a = String::from_str("http://127.0.0.1:");
    a.append(decimal_string(port as u64).as_str());
    a
}


/// The port in the server's address reads back as that port: a setting
/// written as the decimal notation of a port names that port.
pub proof fn lemma_port_round_trip(port: u16)
    ensures
        parsed_port(decimal(port as nat)) == Some(port),
        port_of(Some(decimal(port as nat))) == port,
{
    lemma_decimal(port as nat);
    let d = decimal(port as nat);
    assert(is_ascii_digit(d[0]));
    assert(port_digits(d) == d);
}

} // verus!
