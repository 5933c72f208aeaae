//! Network hosts: DNS names and IP addresses.

use vstd::prelude::*;
use vstd::string::*;
use crate::ipv6;
use crate::text;

verus! {

/// The host without a trailing dot and without brackets round it.
pub open spec fn bare_host(host: Seq<char>) -> Seq<char> {
    let h = if host.len() > 0 && host.last() == '.' {
        host.drop_last()
    } else {
        host
    };
    if h.len() >= 2 && h[0] == '[' && h.last() == ']' {
        h.subrange(1, h.len() - 1)
    } else {
        h
    }
}

/// A label of a DNS name: up to 63 letters, digits and inner hyphens.
pub open spec fn is_dns_label(s: Seq<char>) -> bool {
    &&& 1 <= s.len() <= 63
    &&& forall|i: int| 0 <= i < s.len() ==> text::is_alnum(#[trigger] s[i]) || s[i] == '-'
    &&& text::is_alnum(s[0])
    &&& text::is_alnum(s.last())
}

/// Labels with dots between them.
pub open spec fn is_dns_name(s: Seq<char>) -> bool {
    forall|i: int| 0 <= i < text::split(s, '.').len() ==> is_dns_label(#[trigger] text::split(s, '.')[i])
}

pub open spec fn is_ascii_text(s: Seq<char>) -> bool {
    forall|i: int| 0 <= i < s.len() ==> #[trigger] s[i] <= '\x7f'
}

/// The canonical spelling of a host, or why it is none. An IPv4 address in
/// dotted decimal is its own canonical spelling.
pub open spec fn canonical_host(host: Seq<char>) -> Result<Seq<char>, Seq<char>> {
    let h = bare_host(host);
    if h.len() == 0 {
        Err("network endpoint host must not be empty"@)
    } else if ipv6::quad_groups(h) is Some {
        Ok(h)
    } else if ipv6::parse_ipv6(h) is Some {
        Ok(ipv6::ipv6_text(ipv6::parse_ipv6(h)->0))
    } else if !is_ascii_text(h) || h.len() > 253 {
        Err("network endpoint host must be an ASCII DNS name of at most 253 bytes"@)
    } else if !is_dns_name(h) {
        Err("network endpoint host is not a valid DNS name"@)
    } else {
        Ok(text::lower_all(h))
    }
}

fn bare(v: &Vec<char>) -> (h: Vec<char>)
    ensures
        h@ == bare_host(v@),
{
    let mut end: usize = v.len();
    if end > 0 && v[end - 1] == '.' {
        end -= 1;
    }
    assert(v@.subrange(0, end as int) =~= if v@.len() > 0 && v@.last() == '.' {
        v@.drop_last()
    } else {
        v@
    });
    if end >= 2 && v[0] == '[' && v[end - 1] == ']' {
        let h = text::slice(v, 1, end - 1);
        assert(h@ =~= v@.subrange(0, end as int).subrange(1, end - 1));
        h
    } else {
        text::slice(v, 0, end)
    }
}

fn ascii(v: &Vec<char>) -> (r: bool)
    ensures
        r == is_ascii_text(v@),
{
    for i in 0..v.len()
        invariant
            forall|j: int| 0 <= j < i ==> #[trigger] v@[j] <= '\x7f',
    {
        if v[i] > '\x7f' {
            assert(v@[i as int] > '\x7f');
            return false;
        }
    }
    true
}

fn dns_label(p: &Vec<char>) -> (r: bool)
    ensures
        r == is_dns_label(p@),
{
    if p.len() < 1 || p.len() > 63 {
        return false;
    }
    for i in 0..p.len()
        invariant
            forall|j: int| 0 <= j < i ==> text::is_alnum(#[trigger] p@[j]) || p@[j] == '-',
    {
        if !text::alnum(p[i]) && p[i] != '-' {
            assert(!text::is_alnum(p@[i as int]) && p@[i as int] != '-');
            return false;
        }
    }
    text::alnum(p[0]) && text::alnum(p[p.len() - 1])
}

fn dns_name(v: &Vec<char>) -> (r: bool)
    ensures
        r == is_dns_name(v@),
{
    let parts = text::split_text(v, '.');
    let ghost pieces = text::split(v@, '.');
    for i in 0..parts.len()
        invariant
            pieces == text::split(v@, '.'),
            pieces == parts@.map_values(|p: Vec<char>| p@),
            forall|j: int| 0 <= j < i ==> is_dns_label(#[trigger] pieces[j]),
    {
        assert(pieces[i as int] == parts@[i as int]@);
        if !dns_label(&parts[i]) {
            assert(!is_dns_label(text::split(v@, '.')[i as int]));
            return false;
        }
    }
    true
}

/// Canonicalize a network host: IP addresses are respelled, DNS names are
/// brought into small letters.
pub fn canonicalize_network_host(host: &str) -> (r: Result<String, &'static str>)
    ensures
        crate::credential_path::text_result(r) == canonical_host(host@),
{
    let h = bare(&text::to_chars(host));
    if h.len() == 0 {
        return Err("network endpoint host must not be empty");
    }
    if ipv6::quad(&h).is_some() {
        return Ok(text::from_chars(&h));
    }
    match ipv6::parse(&h) {
        Some(g) => {
            return Ok(ipv6::format_address(&g));
        },
        None => {},
    }
    if !ascii(&h) || h.len() > 253 {
        return Err("network endpoint host must be an ASCII DNS name of at most 253 bytes");
    }
    if !dns_name(&h) {
        return Err("network endpoint host is not a valid DNS name");
    }
    Ok(text::from_chars(&text::lowercase_all(&h)))
}

/// A text that is no IP address has a canonical spelling exactly when it is a
/// name of letters, digits, inner hyphens and single dots, at most 253 long and
/// with at most 63 between two dots; and that spelling is the name in small
/// letters.
pub proof fn law_dns_names_have_a_canonical_spelling(h: Seq<char>)
    requires
        h.len() > 0,
        h.last() != '.',
        !(h[0] == '[' && h.last() == ']'),
        ipv6::quad_groups(h) is None,
        ipv6::parse_ipv6(h) is None,
    ensures
        canonical_host(h) is Ok <==> {
            &&& h.len() <= 253
            &&& forall|i: int|
                0 <= i < h.len() ==> 'a' <= #[trigger] h[i] <= 'z' || 'A' <= h[i] <= 'Z' || '0'
                    <= h[i] <= '9' || h[i] == '-' || h[i] == '.'
            &&& h[0] != '.' && h[0] != '-' && h.last() != '-'
            &&& forall|i: int|
                0 < i < h.len() && #[trigger] h[i] == '.' ==> h[i - 1] != '.' && h[i - 1] != '-'
                    && h[i + 1] != '-'
            &&& forall|i: int, j: int|
                0 <= i <= j <= h.len() && !(#[trigger] h.subrange(i, j)).contains('.') ==> j - i
                    <= 63
        },
        canonical_host(h) matches Ok(c) ==> c.len() == h.len() && forall|i: int|
            0 <= i < h.len() ==> #[trigger] c[i] == if 'A' <= h[i] <= 'Z' {
                (h[i] as int + 32) as char
            } else {
                h[i]
            },
{
    assert(bare_host(h) == h);
    lemma_dns_name_by_characters(h);
    if is_spelled_like_a_name(h) {
        assert forall|i: int| 0 <= i < h.len() implies #[trigger] h[i] <= '\x7f' by {}
    }
}

/// The characters of a DNS name, as they stand in its text.
spec fn is_spelled_like_a_name(h: Seq<char>) -> bool {
    &&& h.len() > 0
    &&& h.last() != '.'
    &&& forall|i: int|
        0 <= i < h.len() ==> 'a' <= #[trigger] h[i] <= 'z' || 'A' <= h[i] <= 'Z' || '0' <= h[i]
            <= '9' || h[i] == '-' || h[i] == '.'
    &&& h[0] != '.' && h[0] != '-' && h.last() != '-'
    &&& forall|i: int|
        0 < i < h.len() && #[trigger] h[i] == '.' ==> h[i - 1] != '.' && h[i - 1] != '-' && h[i + 1]
            != '-'
    &&& forall|i: int, j: int|
        0 <= i <= j <= h.len() && !(#[trigger] h.subrange(i, j)).contains('.') ==> j - i <= 63
}

proof fn lemma_dns_name_by_characters(h: Seq<char>)
    ensures
        is_dns_name(h) <==> is_spelled_like_a_name(h),
    decreases h.len(),
{
    let stops = seq!['.'];
    let n = text::span(h, stops);
    text::lemma_span_bounds(h, stops);
    assert(stops[0] == '.');
    let all = text::split(h, '.');
    assert forall|i: int| 0 <= i < n implies #[trigger] h[i] != '.' by {
        assert(!stops.contains(h[i]));
    }
    if n >= h.len() {
        assert(all =~= seq![h]);
        assert(is_dns_name(h) <==> is_dns_label(h)) by {
            if is_dns_label(h) {
                assert forall|i: int| 0 <= i < all.len() implies is_dns_label(
                    #[trigger] text::split(h, '.')[i],
                ) by {}
            } else {
                assert(!is_dns_label(text::split(h, '.')[0]));
            }
        }
        if is_dns_label(h) {
            assert forall|i: int, j: int|
                0 <= i <= j <= h.len() && !(#[trigger] h.subrange(i, j)).contains('.') implies j - i
                <= 63 by {}
        }
        if is_spelled_like_a_name(h) {
            let whole = h.subrange(0, h.len() as int);
            assert(whole =~= h);
            assert(!whole.contains('.'));
            assert forall|i: int| 0 <= i < h.len() implies text::is_alnum(#[trigger] h[i]) || h[i]
                == '-' by {}
        }
    } else {
        let label = h.take(n);
        let rest = h.skip(n + 1);
        let others = text::split(rest, '.');
        assert(all == seq![label] + others);
        assert(h[n] == '.');
        lemma_dns_name_by_characters(rest);
        text::lemma_join_split(rest, '.');
        assert(is_dns_name(h) <==> is_dns_label(label) && is_dns_name(rest)) by {
            if is_dns_name(h) {
                assert(is_dns_label(text::split(h, '.')[0]));
                assert forall|i: int| 0 <= i < others.len() implies is_dns_label(
                    #[trigger] text::split(rest, '.')[i],
                ) by {
                    assert(is_dns_label(text::split(h, '.')[i + 1]));
                }
            }
            if is_dns_label(label) && is_dns_name(rest) {
                assert forall|i: int| 0 <= i < all.len() implies is_dns_label(
                    #[trigger] text::split(h, '.')[i],
                ) by {
                    if i > 0 {
                        assert(text::split(h, '.')[i] == text::split(rest, '.')[i - 1]);
                    }
                }
            }
        }
        if is_dns_label(label) && is_spelled_like_a_name(rest) {
            lemma_label_before_name(h, n);
        }
        if is_spelled_like_a_name(h) {
            lemma_name_without_label(h, n);
        }
    }
}

/// A label, a dot and a name make up a name.
proof fn lemma_label_before_name(h: Seq<char>, n: int)
    requires
        0 <= n < h.len(),
        h[n] == '.',
        forall|i: int| 0 <= i < n ==> #[trigger] h[i] != '.',
        is_dns_label(h.take(n)),
        is_spelled_like_a_name(h.skip(n + 1)),
    ensures
        is_spelled_like_a_name(h),
{
    let label = h.take(n);
    let rest = h.skip(n + 1);
    assert(h.last() == rest.last());
    assert(h[0] == label[0]);
    assert(label.last() == h[n - 1]);
    assert(rest[0] == h[n + 1]);
    assert forall|i: int| 0 <= i < h.len() implies 'a' <= #[trigger] h[i] <= 'z' || 'A' <= h[i]
        <= 'Z' || '0' <= h[i] <= '9' || h[i] == '-' || h[i] == '.' by {
        if i < n {
            assert(text::is_alnum(label[i]) || label[i] == '-');
        } else if i > n {
            assert(rest[i - n - 1] == h[i]);
        }
    }
    assert forall|i: int| 0 < i < h.len() && #[trigger] h[i] == '.' implies h[i - 1] != '.' && h[i
        - 1] != '-' && h[i + 1] != '-' by {
        if i > n {
            assert(rest[i - n - 1] == '.');
            assert(i > n + 1);
            assert(rest[i - n - 2] == h[i - 1]);
            assert(i + 1 < h.len());
            assert(rest[i - n] == h[i + 1]);
        }
    }
    assert forall|i: int, j: int|
        0 <= i <= j <= h.len() && !(#[trigger] h.subrange(i, j)).contains('.') implies j - i
        <= 63 by {
        let s = h.subrange(i, j);
        if i <= n < j {
            assert(s[n - i] == '.');
        }
        if i > n {
            let r = rest.subrange(i - n - 1, j - n - 1);
            assert(r =~= s);
        }
    }
}

/// A name without its first label is a name again, and that label is one.
proof fn lemma_name_without_label(h: Seq<char>, n: int)
    requires
        0 <= n < h.len(),
        h[n] == '.',
        forall|i: int| 0 <= i < n ==> #[trigger] h[i] != '.',
        is_spelled_like_a_name(h),
    ensures
        is_dns_label(h.take(n)),
        is_spelled_like_a_name(h.skip(n + 1)),
{
    let label = h.take(n);
    let rest = h.skip(n + 1);
    assert(n > 0);
    assert(h[n] == '.');
    assert(n + 1 < h.len());
    assert(rest.last() == h.last());
    assert(rest[0] == h[n + 1]);
    assert(h[n + 1] != '.') by {
        if h[n + 1] == '.' {
            assert(h[n + 1 - 1] != '.');
        }
    }
    assert(label =~= h.subrange(0, n));
    assert(!h.subrange(0, n).contains('.'));
    assert forall|i: int| 0 <= i < label.len() implies text::is_alnum(#[trigger] label[i])
        || label[i] == '-' by {
        assert(h[i] == label[i]);
    }
    assert(label[0] == h[0]);
    assert(label.last() == h[n - 1]);
    assert(h[n - 1] != '-' && h[n - 1] != '.');
    assert forall|i: int| 0 <= i < rest.len() implies 'a' <= #[trigger] rest[i] <= 'z' || 'A'
        <= rest[i] <= 'Z' || '0' <= rest[i] <= '9' || rest[i] == '-' || rest[i] == '.' by {
        assert(h[i + n + 1] == rest[i]);
    }
    assert forall|i: int| 0 < i < rest.len() && #[trigger] rest[i] == '.' implies rest[i - 1] != '.'
        && rest[i - 1] != '-' && rest[i + 1] != '-' by {
        let k = i + n + 1;
        assert(h[k] == '.');
        assert(h[k - 1] == rest[i - 1]);
        assert(k + 1 < h.len());
        assert(h[k + 1] == rest[i + 1]);
    }
    assert forall|i: int, j: int|
        0 <= i <= j <= rest.len() && !(#[trigger] rest.subrange(i, j)).contains('.') implies j - i
        <= 63 by {
        assert(rest.subrange(i, j) =~= h.subrange(i + n + 1, j + n + 1));
    }
}

/// An IP address is its own host, or is respelled and stays the same address;
/// brackets round it change nothing.
pub proof fn law_ip_addresses_are_hosts(h: Seq<char>)
    requires
        h.len() > 0,
        h.last() != '.',
        h[0] != '[',
    ensures
        ipv6::quad_groups(h) is Some ==> canonical_host(h) == Ok::<_, Seq<char>>(h),
        ipv6::quad_groups(h) is None && ipv6::parse_ipv6(h) is Some ==> canonical_host(h) is Ok
            && ipv6::parse_ipv6(canonical_host(h)->Ok_0) == ipv6::parse_ipv6(h),
        canonical_host(seq!['['] + h + seq![']']) == canonical_host(h),
{
    let b = seq!['['] + h + seq![']'];
    assert(b.last() == ']');
    assert(bare_host(b) =~= h);
    assert(bare_host(h) == h);
    if ipv6::parse_ipv6(h) is Some {
        ipv6::lemma_parse_gives_address(h);
        ipv6::law_parse_undoes_format(ipv6::parse_ipv6(h)->0);
    }
}

/// An empty host is refused as empty, and a text that is no IP address and too
/// long or not ASCII as no name; what else is refused is refused as malformed.
pub proof fn law_refused_hosts_say_why(h: Seq<char>)
    requires
        h.len() == 0 || h.last() != '.' && h[0] != '[',
        ipv6::quad_groups(h) is None,
        ipv6::parse_ipv6(h) is None,
        canonical_host(h) is Err,
    ensures
        canonical_host(h)->Err_0 == if h.len() == 0 {
            "network endpoint host must not be empty"@
        } else if h.len() > 253 || exists|i: int| 0 <= i < h.len() && #[trigger] h[i] > '\x7f' {
            "network endpoint host must be an ASCII DNS name of at most 253 bytes"@
        } else {
            "network endpoint host is not a valid DNS name"@
        },
{
    assert(bare_host(h) == h);
}

/// A canonical host is its own canonical form.
pub proof fn law_canonical_host_is_a_fixed_point(host: Seq<char>)
    requires
        canonical_host(host) is Ok,
    ensures
        canonical_host(canonical_host(host)->Ok_0) == canonical_host(host),
{
    let h = bare_host(host);
    let t = canonical_host(host)->Ok_0;
    if ipv6::quad_groups(h) is Some {
        let p = text::split(h, '.');
        text::lemma_join_split(h, '.');
        text::lemma_join_ends(p, '.');
        assert(text::is_digit(p[0][0]));
        assert(text::is_digit(p[3][p[3].len() - 1]));
        assert(bare_host(t) == t);
    } else if ipv6::parse_ipv6(h) is Some {
        let g = ipv6::parse_ipv6(h)->0;
        ipv6::lemma_parse_gives_address(h);
        ipv6::law_parse_undoes_format(g);
        ipv6::lemma_text_ends(g);
        assert(bare_host(t) == t);
    } else {
        lemma_dns_fixed(h);
    }
}

/// One dot at the end of a host makes no difference.
pub proof fn law_trailing_dot_does_not_matter(host: Seq<char>)
    requires
        host.len() > 0,
        host.last() != '.',
    ensures
        canonical_host(host.push('.')) == canonical_host(host),
{
    assert(host.push('.').drop_last() =~= host);
}

/// Capital and small letters make no difference to a host.
pub proof fn law_host_case_does_not_matter(host: Seq<char>)
    ensures
        canonical_host(text::lower_all(host)) == canonical_host(host),
{
    let t = text::lower_all(host);
    let h = bare_host(host);
    let k = bare_host(t);
    assert(k =~= text::lower_all(h)) by {
        if host.len() > 0 {
            assert(t.last() == text::lower(host.last()));
            let d = if host.last() == '.' {
                host.drop_last()
            } else {
                host
            };
            let e = if t.last() == '.' {
                t.drop_last()
            } else {
                t
            };
            assert(e =~= text::lower_all(d));
            if d.len() >= 2 {
                assert(e[0] == text::lower(d[0]));
                assert(e.last() == text::lower(d.last()));
                assert(e.subrange(1, e.len() - 1) =~= text::lower_all(d.subrange(1, d.len() - 1)));
            }
        }
    }
    ipv6::law_parse_ignores_case(h);
    assert forall|i: int| 0 <= i < h.len() implies (#[trigger] h[i] <= '\x7f' <==> k[i] <= '\x7f') by {
        assert(k[i] == text::lower(h[i]));
    }
    assert(is_ascii_text(h) == is_ascii_text(k)) by {
        if !is_ascii_text(h) {
            let i = choose|i: int| 0 <= i < h.len() && !(#[trigger] h[i] <= '\x7f');
            assert(!(k[i] <= '\x7f'));
        }
    }
    text::lemma_split_lower(h, '.');
    let p = text::split(h, '.');
    let q = text::split(k, '.');
    assert forall|i: int| 0 <= i < p.len() implies is_dns_label(#[trigger] q[i]) == is_dns_label(
        p[i],
    ) by {
        assert(q[i] == text::lower_all(p[i]));
        lemma_label_lower(p[i]);
    }
    assert(is_dns_name(h) == is_dns_name(k)) by {
        if !is_dns_name(h) {
            let i = choose|i: int| 0 <= i < p.len() && !is_dns_label(#[trigger] p[i]);
            assert(!is_dns_label(q[i]));
        } else {
            assert forall|i: int| 0 <= i < q.len() implies is_dns_label(#[trigger] q[i]) by {
                assert(is_dns_label(p[i]));
            }
        }
    }
    assert(text::lower_all(k) =~= text::lower_all(h)) by {
        assert forall|i: int| 0 <= i < h.len() implies text::lower_all(k)[i] == text::lower_all(
            h,
        )[i] by {
            assert(k[i] == text::lower(h[i]));
        }
    }
    if ipv6::quad_groups(h) is Some {
        lemma_quad_has_no_case(h);
    }
}

proof fn lemma_label_lower(s: Seq<char>)
    ensures
        is_dns_label(text::lower_all(s)) == is_dns_label(s),
{
    let t = text::lower_all(s);
    assert forall|i: int| 0 <= i < s.len() implies text::is_alnum(#[trigger] t[i])
        == text::is_alnum(s[i]) && (t[i] == '-' <==> s[i] == '-') by {
        assert(t[i] == text::lower(s[i]));
    }
    if s.len() > 0 {
        assert(t[s.len() - 1] == t.last());
    }
    if is_dns_label(s) {
        assert forall|i: int| 0 <= i < t.len() implies text::is_alnum(#[trigger] t[i]) || t[i]
            == '-' by {
            assert(text::is_alnum(s[i]) || s[i] == '-');
        }
    }
    if is_dns_label(t) {
        assert forall|i: int| 0 <= i < s.len() implies text::is_alnum(#[trigger] s[i]) || s[i]
            == '-' by {
            assert(text::is_alnum(t[i]) || t[i] == '-');
        }
    }
}

proof fn lemma_quad_has_no_case(h: Seq<char>)
    requires
        ipv6::quad_groups(h) is Some,
    ensures
        text::lower_all(h) == h,
{
    let p = text::split(h, '.');
    text::lemma_split_lower(h, '.');
    text::lemma_join_split(h, '.');
    text::lemma_join_split(text::lower_all(h), '.');
    let q = text::split(text::lower_all(h), '.');
    assert forall|i: int| 0 <= i < 4 implies q[i] == #[trigger] p[i] by {
        assert(q[i] == text::lower_all(p[i]));
        assert(ipv6::octet_value(p[i]) is Some);
        assert forall|j: int| 0 <= j < p[i].len() implies q[i][j] == p[i][j] by {
            assert(text::is_digit(p[i][j]));
        }
        assert(q[i] =~= p[i]);
    }
    assert(q =~= p);
}

proof fn lemma_dns_fixed(h: Seq<char>)
    requires
        h.len() > 0,
        h.len() <= 253,
        is_dns_name(h),
        is_ascii_text(h),
    ensures
        canonical_host(text::lower_all(h)) == Ok::<Seq<char>, Seq<char>>(text::lower_all(h)),
{
    let t = text::lower_all(h);
    let p = text::split(h, '.');
    let q = text::split(t, '.');
    text::lemma_split_lower(h, '.');
    text::lemma_join_split(h, '.');
    text::lemma_join_split(t, '.');
    assert forall|i: int| 0 <= i < q.len() implies is_dns_label(#[trigger] q[i]) by {
        assert(q[i] == text::lower_all(p[i]));
        assert(is_dns_label(p[i]));
        assert forall|j: int| 0 <= j < q[i].len() implies text::is_alnum(#[trigger] q[i][j]) || q[i][j]
            == '-' by {
            assert(q[i][j] == text::lower(p[i][j]));
            assert(text::is_alnum(p[i][j]) || p[i][j] == '-');
        }
    }
    assert(is_dns_label(q[0]) && is_dns_label(q[q.len() - 1]));
    text::lemma_join_ends(q, '.');
    assert(bare_host(t) == t);
    assert forall|j: int| 0 <= j < t.len() implies #[trigger] t[j] <= '\x7f' by {
        assert(t[j] == text::lower(h[j]));
    }
    assert(text::lower_all(t) =~= t) by {
        assert forall|j: int| 0 <= j < t.len() implies #[trigger] text::lower_all(t)[j] == t[j] by {
            assert(t[j] == text::lower(h[j]));
        }
    }
    assert(!t.contains(':')) by {
        assert forall|j: int| 0 <= j < t.len() implies #[trigger] t[j] != ':' by {
            if t[j] == ':' {
                lemma_dns_chars(q, j);
            }
        }
    }
    lemma_no_colon_is_no_ipv6(t);
}

/// A character of joined DNS labels is a letter, a digit, a hyphen or the dot.
proof fn lemma_dns_chars(parts: Seq<Seq<char>>, j: int)
    requires
        parts.len() >= 1,
        forall|i: int| 0 <= i < parts.len() ==> is_dns_label(#[trigger] parts[i]),
        0 <= j < text::join(parts, '.').len(),
    ensures
        ({
            let c = text::join(parts, '.')[j];
            text::is_alnum(c) || c == '-' || c == '.'
        }),
    decreases parts.len(),
{
    let s = text::join(parts, '.');
    assert(is_dns_label(parts[0]));
    if parts.len() == 1 {
        assert(s[j] == parts[0][j]);
    } else {
        let rest = parts.skip(1);
        let n = parts[0].len() as int;
        assert(s == parts[0] + seq!['.'] + text::join(rest, '.'));
        if j < n {
            assert(s[j] == parts[0][j]);
        } else if j > n {
            assert forall|i: int| 0 <= i < rest.len() implies is_dns_label(#[trigger] rest[i]) by {
                assert(rest[i] == parts[i + 1]);
            }
            lemma_dns_chars(rest, j - n - 1);
            assert(s[j] == text::join(rest, '.')[j - n - 1]);
        }
    }
}

proof fn lemma_no_colon_is_no_ipv6(t: Seq<char>)
    requires
        !t.contains(':'),
    ensures
        ipv6::parse_ipv6(t) is None,
{
    let colons = seq![':', ':'];
    text::lemma_find_text(t, colons, 0);
    if let Some(i) = text::find_text(t, colons, 0) {
        assert(t[i] == t.subrange(i, i + 2)[0]);
    }
    if t.len() > 0 {
        let parts = seq![t];
        let stops = seq![':'];
        assert forall|j: int| 0 <= j < t.len() implies !stops.contains(#[trigger] t[j]) by {
            assert(t.contains(t[j]));
        }
        text::lemma_span(t, stops, t.len() as int);
        assert(text::split(t, ':') == parts);
        assert(parts.drop_last() =~= Seq::<Seq<char>>::empty());
        reveal_with_fuel(ipv6::piece_groups, 2);
    }
}

/// Only one dot at the end is taken away: a name with two is none.
pub proof fn law_only_one_trailing_dot_is_taken_away(h: Seq<char>)
    requires
        !h.contains(':'),
    ensures
        canonical_host(h.push('.').push('.')) is Err,
{
    let t = h.push('.').push('.');
    let b = h.push('.');
    assert(t.drop_last() =~= b);
    assert(b.last() == '.');
    assert(bare_host(t) == b);
    assert(!b.contains(':')) by {
        assert forall|i: int| 0 <= i < b.len() implies #[trigger] b[i] != ':' by {
            if i < h.len() {
                assert(h.contains(h[i]));
            }
        }
    }
    lemma_no_colon_is_no_ipv6(b);
    let pieces = text::split(h, '.');
    text::lemma_join_split(h, '.');
    let none = Seq::<char>::empty();
    let all = pieces.push(none);
    text::lemma_join_push(pieces, none, '.');
    assert(b =~= text::join(all, '.'));
    text::lemma_split_join(all, '.');
    let n = pieces.len() as int;
    assert(text::split(b, '.')[n] == none);
    assert(!is_dns_label(text::split(b, '.')[n]));
    assert(ipv6::quad_groups(b) is None) by {
        if ipv6::quad_groups(b) is Some {
            assert(n == 3);
            assert(ipv6::octet_value(text::split(b, '.')[3]) is Some);
        }
    }
}

} // verus!
