//! Socket addresses in text form: an IP address and a port.
//!
//! An IPv4 address is followed by a colon and the port. An IPv6 address stands
//! in brackets, where a `%` and the number of a scope may follow it. A number is
//! any run of decimal digits that is not too large; leading zeros do not matter.

use vstd::prelude::*;
use vstd::string::*;
use crate::ipv6;
use crate::text;

verus! {

/// The number up to `max` that a text writes in decimal digits.
pub open spec fn bounded_number(s: Seq<char>, max: int) -> Option<int> {
    if s.len() > 0 && (forall|i: int| 0 <= i < s.len() ==> text::is_digit(#[trigger] s[i]))
        && ipv6::decimal_number(s) <= max {
        Some(ipv6::decimal_number(s))
    } else {
        None
    }
}

/// An IPv4 address and a port, in canonical spelling.
pub open spec fn ipv4_socket(s: Seq<char>) -> Option<Seq<char>> {
    let i = text::span(s, seq![':']);
    if i < s.len() && ipv6::quad_groups(s.take(i)) is Some {
        match bounded_number(s.skip(i + 1), 65535) {
            Some(port) => Some(s.take(i).push(':') + text::decimal(port as nat)),
            None => None,
        }
    } else {
        None
    }
}

/// The scope that is written behind an address: 0 where there is none.
pub open spec fn scope_of(s: Seq<char>) -> Option<int> {
    if s.len() == 0 {
        Some(0)
    } else {
        bounded_number(s.skip(1), 4294967295)
    }
}

/// How a scope is spelled: not at all where it is 0.
pub open spec fn scope_text(scope: int) -> Seq<char> {
    if scope == 0 {
        Seq::empty()
    } else {
        seq!['%'] + text::decimal(scope as nat)
    }
}

/// What stands between the brackets, in canonical spelling.
pub open spec fn bracketed(s: Seq<char>) -> Option<Seq<char>> {
    let i = text::span(s, seq!['%']);
    match (ipv6::parse_ipv6(s.take(i)), scope_of(s.skip(i))) {
        (Some(g), Some(scope)) => Some(ipv6::ipv6_text(g) + scope_text(scope)),
        _ => None,
    }
}

/// An IPv6 address in brackets and a port, in canonical spelling. `s` is what
/// follows the opening bracket.
pub open spec fn ipv6_socket(s: Seq<char>) -> Option<Seq<char>> {
    let i = text::span(s, seq![']']);
    if i + 1 < s.len() && s[i + 1] == ':' {
        match (bracketed(s.take(i)), bounded_number(s.skip(i + 2), 65535)) {
            (Some(address), Some(port)) => Some(
                seq!['['] + address + seq![']', ':'] + text::decimal(port as nat),
            ),
            _ => None,
        }
    } else {
        None
    }
}

/// The canonical spelling of a socket address, where the text is one.
pub open spec fn socket_address(s: Seq<char>) -> Option<Seq<char>> {
    if s.len() > 0 && s[0] == '[' {
        ipv6_socket(s.skip(1))
    } else {
        ipv4_socket(s)
    }
}

proof fn lemma_number_grows(s: Seq<char>, n: int)
    requires
        0 <= n <= s.len(),
        forall|i: int| 0 <= i < s.len() ==> text::is_digit(#[trigger] s[i]),
    ensures
        0 <= ipv6::decimal_number(s.take(n)) <= ipv6::decimal_number(s),
    decreases s.len(),
{
    if n == s.len() {
        assert(s.take(n) =~= s);
        if n > 0 {
            assert(s.drop_last() =~= s.take(n - 1));
            lemma_number_grows(s.drop_last(), n - 1);
            assert(text::is_digit(s[n - 1]));
        }
    } else {
        let t = s.drop_last();
        assert(t.take(n) =~= s.take(n));
        lemma_number_grows(t, n);
        assert(text::is_digit(s[s.len() - 1]));
    }
}

/// The number up to `max` in a text.
fn number(v: &Vec<char>, max: u32) -> (r: Option<u32>)
    ensures
        r is Some <==> bounded_number(v@, max as int) is Some,
        r matches Some(n) ==> n as int == bounded_number(v@, max as int)->0,
{
    if v.len() == 0 {
        return None;
    }
    let mut acc: u64 = 0;
    let mut small: bool = true;
    for i in 0..v.len()
        invariant
            forall|j: int| 0 <= j < i ==> text::is_digit(#[trigger] v@[j]),
            small ==> acc as int == ipv6::decimal_number(v@.take(i as int)) && acc <= max,
            !small ==> ipv6::decimal_number(v@.take(i as int)) > max,
    {
        if !text::digit(v[i]) {
            assert(!text::is_digit(v@[i as int]));
            return None;
        }
        let ghost t = v@.take(i + 1);
        assert(t.drop_last() =~= v@.take(i as int));
        if small {
            acc = acc * 10 + (v[i] as u64 - '0' as u64);
            small = acc <= max as u64;
        } else {
            proof {
                assert forall|j: int| 0 <= j < t.len() implies text::is_digit(#[trigger] t[j]) by {
                    assert(t[j] == v@[j]);
                }
                lemma_number_grows(t, i as int);
                assert(t.take(i as int) =~= v@.take(i as int));
            }
        }
    }
    assert(v@.take(v@.len() as int) =~= v@);
    if small {
        Some(acc as u32)
    } else {
        None
    }
}

fn scope(v: &Vec<char>) -> (r: Option<u32>)
    ensures
        r is Some <==> scope_of(v@) is Some,
        r matches Some(n) ==> n as int == scope_of(v@)->0,
{
    if v.len() == 0 {
        return Some(0);
    }
    let digits = text::slice(v, 1, v.len());
    assert(digits@ =~= v@.skip(1));
    number(&digits, 4294967295)
}

fn inside_brackets(v: &Vec<char>) -> (r: Option<String>)
    ensures
        text::option_view(r) == bracketed(v@),
{
    let stops: Vec<char> = vec!['%'];
    assert(stops@ =~= seq!['%']);
    let i = text::span_from(v, 0, &stops);
    assert(v@.skip(0) =~= v@);
    let address = text::slice(v, 0, i);
    let rest = text::slice(v, i, v.len());
    assert(address@ =~= v@.take(i as int));
    assert(rest@ =~= v@.skip(i as int));
    match (ipv6::parse(&address), scope(&rest)) {
        (Some(g), Some(n)) => {
            let s = ipv6::format_address(&g);
            if n == 0 {
                assert(s@ + Seq::<char>::empty() =~= s@);
                Some(s)
            } else {
                let out = s.concat("%").concat(text::decimal_text(n as u64).as_str());
                proof {
                    reveal_strlit("%");
                    assert(out@ =~= s@ + (seq!['%'] + text::decimal(n as nat)));
                }
                Some(out)
            }
        },
        _ => None,
    }
}

/// The canonical spelling of a socket address, where the text is one.
pub fn parse(value: &str) -> (r: Option<String>)
    ensures
        text::option_view(r) == socket_address(value@),
{
    let v = text::to_chars(value);
    if v.len() > 0 && v[0] == '[' {
        let s = text::slice(&v, 1, v.len());
        assert(s@ =~= value@.skip(1));
        let stops: Vec<char> = vec![']'];
        assert(stops@ =~= seq![']']);
        let i = text::span_from(&s, 0, &stops);
        assert(s@.skip(0) =~= s@);
        if s.len() - i < 2 || s[i + 1] != ':' {
            return None;
        }
        let inner = text::slice(&s, 0, i);
        let digits = text::slice(&s, i + 2, s.len());
        assert(inner@ =~= s@.take(i as int));
        assert(digits@ =~= s@.skip(i + 2));
        match (inside_brackets(&inner), number(&digits, 65535)) {
            (Some(address), Some(port)) => {
                let out = "[".to_owned().concat(address.as_str()).concat("]:").concat(
                    text::decimal_text(port as u64).as_str(),
                );
                proof {
                    reveal_strlit("[");
                    reveal_strlit("]:");
                    assert(out@ =~= seq!['['] + address@ + seq![']', ':'] + text::decimal(
                        port as nat,
                    ));
                }
                Some(out)
            },
            _ => None,
        }
    } else {
        let stops: Vec<char> = vec![':'];
        assert(stops@ =~= seq![':']);
        let i = text::span_from(&v, 0, &stops);
        assert(v@.skip(0) =~= v@);
        if i == v.len() {
            return None;
        }
        let address = text::slice(&v, 0, i);
        let digits = text::slice(&v, i + 1, v.len());
        assert(address@ =~= v@.take(i as int));
        assert(digits@ =~= v@.skip(i + 1));
        if ipv6::quad(&address).is_none() {
            return None;
        }
        match number(&digits, 65535) {
            Some(port) => {
                let out = text::from_chars(&address).concat(":").concat(
                    text::decimal_text(port as u64).as_str(),
                );
                proof {
                    reveal_strlit(":");
                    assert(out@ =~= address@.push(':') + text::decimal(port as nat));
                }
                Some(out)
            },
            None => None,
        }
    }
}

proof fn lemma_decimal(n: nat, max: int)
    requires
        n <= max,
    ensures
        bounded_number(text::decimal(n), max) == Some(n as int),
    decreases n,
{
    let s = text::decimal(n);
    if n >= 10 {
        lemma_decimal(n / 10, max);
        assert(s.drop_last() == text::decimal(n / 10));
        assert forall|i: int| 0 <= i < s.len() implies text::is_digit(#[trigger] s[i]) by {
            if i < s.len() - 1 {
                assert(s[i] == text::decimal(n / 10)[i]);
            }
        }
    } else {
        assert(s.drop_last() == Seq::<char>::empty());
        assert(ipv6::decimal_number(s.drop_last()) == 0);
    }
}

proof fn lemma_number_is_no_negative(s: Seq<char>, max: int)
    requires
        bounded_number(s, max) is Some,
    ensures
        0 <= bounded_number(s, max)->0 <= max,
{
    lemma_number_grows(s, s.len() as int);
    assert(s.take(s.len() as int) =~= s);
}

/// The canonical spelling of a socket address is its own canonical spelling.
pub proof fn law_socket_address_is_a_fixed_point(s: Seq<char>)
    requires
        socket_address(s) is Some,
    ensures
        socket_address(socket_address(s)->0) == socket_address(s),
{
    let t = socket_address(s)->0;
    if s[0] == '[' {
        let u = s.skip(1);
        let i = text::span(u, seq![']']);
        let address = bracketed(u.take(i))->0;
        let port = bounded_number(u.skip(i + 2), 65535)->0;
        lemma_number_is_no_negative(u.skip(i + 2), 65535);
        lemma_decimal(port as nat, 65535);
        text::lemma_span_bounds(u, seq![']']);
        text::lemma_span_bounds(u.take(i), seq!['%']);
        lemma_bracketed(u.take(i));
        let v = t.skip(1);
        let n = address.len() as int;
        assert(seq![']'][0] == ']');
        assert forall|j: int| 0 <= j < n implies !seq![']'].contains(#[trigger] v[j]) by {
            assert(v[j] == address[j]);
            assert(address.contains(address[j]));
        }
        assert(v[n] == ']');
        text::lemma_span(v, seq![']'], n);
        assert(v.take(n) =~= address);
        assert(v.skip(n + 2) =~= text::decimal(port as nat));
    } else {
        let i = text::span(s, seq![':']);
        let port = bounded_number(s.skip(i + 1), 65535)->0;
        lemma_number_is_no_negative(s.skip(i + 1), 65535);
        lemma_decimal(port as nat, 65535);
        text::lemma_span_bounds(s, seq![':']);
        assert(seq![':'][0] == ':');
        assert forall|j: int| 0 <= j < i implies !seq![':'].contains(#[trigger] t[j]) by {
            assert(t[j] == s[j]);
        }
        assert(t[i] == ':');
        text::lemma_span(t, seq![':'], i);
        assert(t.take(i) =~= s.take(i));
        assert(t.skip(i + 1) =~= text::decimal(port as nat));
        assert(t[0] == s[0] || i == 0);
    }
}

proof fn lemma_bracketed(s: Seq<char>)
    requires
        bracketed(s) is Some,
    ensures
        bracketed(bracketed(s)->0) == bracketed(s),
        !bracketed(s)->0.contains(']'),
{
    let i = text::span(s, seq!['%']);
    let g = ipv6::parse_ipv6(s.take(i))->0;
    let a = ipv6::ipv6_text(g);
    let n = a.len() as int;
    let scope = scope_of(s.skip(i))->0;
    let t = bracketed(s)->0;
    ipv6::lemma_parse_gives_address(s.take(i));
    ipv6::law_parse_undoes_format(g);
    ipv6::lemma_text_holds_no(g, '%');
    ipv6::lemma_text_holds_no(g, ']');
    assert(seq!['%'][0] == '%');
    assert forall|j: int| 0 <= j < n implies !seq!['%'].contains(#[trigger] t[j]) by {
        assert(t[j] == a[j]);
        assert(a.contains(a[j]));
    }
    if s.skip(i).len() > 0 {
        lemma_number_is_no_negative(s.skip(i).skip(1), 4294967295);
    }
    if scope == 0 {
        assert(t =~= a);
    } else {
        lemma_decimal(scope as nat, 4294967295);
        assert(t.skip(n).skip(1) =~= text::decimal(scope as nat));
        assert(t[n] == '%');
    }
    text::lemma_span(t, seq!['%'], n);
    assert(t.take(n) =~= a);
    assert forall|j: int| 0 <= j < t.len() implies #[trigger] t[j] != ']' by {
        if j < n {
            assert(a.contains(a[j]));
        } else if j > n {
            let d = text::decimal(scope as nat);
            assert(t[j] == d[j - n - 1]);
            assert(text::is_digit(d[j - n - 1]));
        }
    }
}

/// An IPv4 address, a colon and a port in decimal are a socket address, whatever
/// zeros stand before the port, and it is spelled without these.
pub proof fn law_ipv4_socket_addresses_are_read(host: Seq<char>, zeros: nat, port: nat)
    requires
        ipv6::quad_groups(host) is Some,
        port <= 65535,
    ensures
        socket_address(
            host + seq![':'] + Seq::new(zeros, |i: int| '0') + text::decimal(port),
        ) == Some(host + seq![':'] + text::decimal(port)),
{
    let lead = Seq::new(zeros, |i: int| '0');
    let digits = lead + text::decimal(port);
    let s = host + seq![':'] + lead + text::decimal(port);
    let n = host.len() as int;
    lemma_quad_has_digits(host);
    assert(s[0] == host[0]);
    assert(seq![':'][0] == ':');
    assert forall|j: int| 0 <= j < n implies !seq![':'].contains(#[trigger] s[j]) by {
        assert(s[j] == host[j]);
    }
    assert(s[n] == ':');
    text::lemma_span(s, seq![':'], n);
    assert(s.take(n) =~= host);
    assert(s.skip(n + 1) =~= digits);
    lemma_leading_zeros(zeros, port, 65535);
    assert(host.push(':') + text::decimal(port) =~= host + seq![':'] + text::decimal(port));
}

proof fn lemma_quad_has_digits(s: Seq<char>)
    requires
        ipv6::quad_groups(s) is Some,
    ensures
        s.len() > 0,
        forall|i: int| 0 <= i < s.len() ==> text::is_digit(#[trigger] s[i]) || s[i] == '.',
{
    ipv6::lemma_quad_characters(s);
    if s.len() == 0 {
        text::lemma_span_bounds(s, seq!['.']);
        assert(text::split(s, '.') =~= seq![s]);
    }
}

proof fn lemma_leading_zeros(zeros: nat, n: nat, max: int)
    requires
        n <= max,
    ensures
        bounded_number(Seq::new(zeros, |i: int| '0') + text::decimal(n), max) == Some(n as int),
{
    let lead = Seq::new(zeros, |i: int| '0');
    let d = text::decimal(n);
    let s = lead + d;
    lemma_decimal(n, max);
    assert forall|i: int| 0 <= i < s.len() implies text::is_digit(#[trigger] s[i]) by {
        if i >= zeros {
            assert(s[i] == d[i - zeros]);
        }
    }
    lemma_zeros_count_nothing(lead, d);
}

proof fn lemma_zeros_count_nothing(lead: Seq<char>, d: Seq<char>)
    requires
        forall|i: int| 0 <= i < lead.len() ==> #[trigger] lead[i] == '0',
    ensures
        ipv6::decimal_number(lead + d) == ipv6::decimal_number(d),
    decreases lead.len() + d.len(),
{
    let s = lead + d;
    if d.len() > 0 {
        lemma_zeros_count_nothing(lead, d.drop_last());
        assert(s.drop_last() =~= lead + d.drop_last());
        assert(s.last() == d.last());
    } else if lead.len() > 0 {
        assert(s =~= lead);
        let front = lead.drop_last();
        assert forall|i: int| 0 <= i < front.len() implies #[trigger] front[i] == '0' by {
            assert(front[i] == lead[i]);
        }
        lemma_zeros_count_nothing(front, d);
        assert(front + d =~= front);
        assert(s.drop_last() =~= front);
        assert(lead[lead.len() - 1] == '0');
    } else {
        assert(s =~= d);
    }
}

/// An IPv6 address in brackets, a colon and a port in decimal are a socket
/// address, with the number of a scope in it or without, and 0 is no scope.
pub proof fn law_ipv6_socket_addresses_are_read(host: Seq<char>, scope: nat, port: nat)
    requires
        ipv6::parse_ipv6(host) is Some,
        scope <= 4294967295,
        port <= 65535,
    ensures
        ({
            let canonical = ipv6::ipv6_text(ipv6::parse_ipv6(host)->0);
            let tail = seq![']', ':'] + text::decimal(port);
            &&& socket_address(seq!['['] + host + tail) == Some(seq!['['] + canonical + tail)
            &&& socket_address(seq!['['] + host + seq!['%'] + text::decimal(scope) + tail) == Some(
                seq!['['] + canonical + (if scope == 0 {
                    seq![]
                } else {
                    seq!['%'] + text::decimal(scope)
                }) + tail,
            )
        }),
{
    ipv6::law_an_address_is_made_of_digits_and_colons(host);
    let canonical = ipv6::ipv6_text(ipv6::parse_ipv6(host)->0);
    let tail = seq![']', ':'] + text::decimal(port);
    let n = host.len() as int;
    let none = Seq::<char>::empty();
    let d = text::decimal(scope);
    lemma_decimal(scope, 4294967295);
    lemma_decimal(port, 65535);
    assert(seq!['%'][0] == '%');
    assert forall|j: int| 0 <= j < n implies #[trigger] host[j] != '%' && host[j] != ']' by {
        assert(text::hex_value(host[j]) is Some || host[j] == ':' || host[j] == '.');
    }
    let scoped = host + seq!['%'] + d;
    assert forall|j: int| 0 <= j < n implies !seq!['%'].contains(#[trigger] host[j]) by {}
    text::lemma_span(host, seq!['%'], n);
    assert(host.take(n) =~= host);
    assert(host.skip(n) =~= none);
    assert forall|j: int| 0 <= j < n implies !seq!['%'].contains(#[trigger] scoped[j]) by {
        assert(scoped[j] == host[j]);
    }
    assert(scoped[n] == '%');
    text::lemma_span(scoped, seq!['%'], n);
    assert(scoped.take(n) =~= host);
    assert(scoped.skip(n).skip(1) =~= d);
    assert(canonical + none =~= canonical);
    assert forall|j: int| 0 <= j < scoped.len() implies #[trigger] scoped[j] != ']' by {
        if j < n {
            assert(scoped[j] == host[j]);
        } else if j > n {
            assert(scoped[j] == d[j - n - 1]);
            assert(text::is_digit(d[j - n - 1]));
        }
    }
    lemma_in_brackets(host, port);
    lemma_in_brackets(scoped, port);
    assert(seq!['['] + host + seq!['%'] + d + tail =~= seq!['['] + scoped + tail);
    assert(seq!['['] + canonical + seq![']', ':'] + text::decimal(port) =~= seq!['['] + canonical
        + tail);
    let shown = canonical + scope_text(scope as int);
    assert(seq!['['] + shown + seq![']', ':'] + text::decimal(port) =~= seq!['['] + canonical + (
    if scope == 0 {
        seq![]
    } else {
        seq!['%'] + text::decimal(scope)
    }) + tail);
}

proof fn lemma_in_brackets(inner: Seq<char>, port: nat)
    requires
        port <= 65535,
        forall|j: int| 0 <= j < inner.len() ==> #[trigger] inner[j] != ']',
    ensures
        socket_address(seq!['['] + inner + (seq![']', ':'] + text::decimal(port))) == match bracketed(
            inner,
        ) {
            Some(a) => Some(seq!['['] + a + seq![']', ':'] + text::decimal(port)),
            None => None,
        },
{
    let s = seq!['['] + inner + (seq![']', ':'] + text::decimal(port));
    let u = s.skip(1);
    let n = inner.len() as int;
    lemma_decimal(port, 65535);
    assert(seq![']'][0] == ']');
    assert forall|j: int| 0 <= j < n implies !seq![']'].contains(#[trigger] u[j]) by {
        assert(u[j] == inner[j]);
    }
    assert(u[n] == ']');
    assert(u[n + 1] == ':');
    text::lemma_span(u, seq![']'], n);
    assert(u.take(n) =~= inner);
    assert(u.skip(n + 2) =~= text::decimal(port));
}

/// A text without a colon is no socket address, nor is one with a port above
/// 65535 or a port that is no number.
pub proof fn law_what_is_no_socket_address(s: Seq<char>, host: Seq<char>, port: Seq<char>)
    ensures
        !s.contains(':') ==> socket_address(s) is None,
        host.len() > 0 && host[0] != '[' && !host.contains(':') && (port.len() == 0 || exists|
            i: int,
        |
            0 <= i < port.len() && !text::is_digit(#[trigger] port[i])) ==> socket_address(
            host + seq![':'] + port,
        ) is None,
        host.len() > 0 && host[0] != '[' && !host.contains(':') && ipv6::decimal_number(port)
            > 65535 ==> socket_address(host + seq![':'] + port) is None,
        host.len() > 0 && host[0] != '[' && !host.contains(':') && ipv6::quad_groups(host) is None
            ==> socket_address(host + seq![':'] + port) is None,
{
    let stops = seq![':'];
    assert(stops[0] == ':');
    if !s.contains(':') {
        if s.len() > 0 && s[0] == '[' {
            let u = s.skip(1);
            let i = text::span(u, seq![']']);
            text::lemma_span_bounds(u, seq![']']);
            if i + 1 < u.len() && u[i + 1] == ':' {
                assert(s[i + 2] == ':');
            }
        } else {
            text::lemma_span_bounds(s, stops);
            let i = text::span(s, stops);
            if i < s.len() {
                assert(stops.contains(s[i]));
                assert(s[i] == ':');
            }
        }
    }
    if host.len() > 0 && host[0] != '[' && !host.contains(':') {
        let t = host + seq![':'] + port;
        let n = host.len() as int;
        assert(t[0] == host[0]);
        assert forall|j: int| 0 <= j < n implies !stops.contains(#[trigger] t[j]) by {
            assert(t[j] == host[j]);
            assert(host.contains(host[j]));
        }
        assert(t[n] == ':');
        text::lemma_span(t, stops, n);
        assert(t.take(n) =~= host);
        assert(t.skip(n + 1) =~= port);
    }
}

} // verus!
