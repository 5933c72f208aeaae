//! IPv6 addresses in text form.
//!
//! An address is eight groups of sixteen bits. The text form is that of
//! RFC 4291 and its canonical spelling that of RFC 5952: the longest run of
//! zero groups is written `::`, digits are small letters without leading
//! zeros, and an IPv4-mapped address ends in dotted decimal.

use vstd::prelude::*;
use vstd::string::*;
use crate::text;

verus! {

/// The number written in hexadecimal digits.
pub open spec fn hex_number(s: Seq<char>) -> int
    decreases s.len(),
{
    if s.len() == 0 {
        0
    } else {
        hex_number(s.drop_last()) * 16 + text::hex_value(s.last())->0
    }
}

/// The number written in decimal digits.
pub open spec fn decimal_number(s: Seq<char>) -> int
    decreases s.len(),
{
    if s.len() == 0 {
        0
    } else {
        decimal_number(s.drop_last()) * 10 + (s.last() as int - '0' as int)
    }
}

/// The value of a group: one to four hexadecimal digits.
pub open spec fn group_value(s: Seq<char>) -> Option<int> {
    if 1 <= s.len() <= 4 && (forall|i: int|
        0 <= i < s.len() ==> text::hex_value(#[trigger] s[i]) is Some) {
        Some(hex_number(s))
    } else {
        None
    }
}

/// The value of a part of a dotted quad: a decimal number up to 255 without
/// leading zeros.
pub open spec fn octet_value(s: Seq<char>) -> Option<int> {
    if 1 <= s.len() <= 3 && (forall|i: int| 0 <= i < s.len() ==> text::is_digit(#[trigger] s[i]))
        && (s.len() == 1 || s[0] != '0') && decimal_number(s) <= 255 {
        Some(decimal_number(s))
    } else {
        None
    }
}

/// The two groups that a dotted quad stands for.
pub open spec fn quad_groups(s: Seq<char>) -> Option<Seq<int>> {
    let p = text::split(s, '.');
    if p.len() == 4 && octet_value(p[0]) is Some && octet_value(p[1]) is Some && octet_value(
        p[2],
    ) is Some && octet_value(p[3]) is Some {
        Some(
            seq![
                octet_value(p[0])->0 * 256 + octet_value(p[1])->0,
                octet_value(p[2])->0 * 256 + octet_value(p[3])->0,
            ],
        )
    } else {
        None
    }
}

/// The groups written by a list of pieces. Where `quad` is set the last piece
/// may be a dotted quad.
pub open spec fn piece_groups(parts: Seq<Seq<char>>, quad: bool) -> Option<Seq<int>>
    decreases parts.len(),
{
    if parts.len() == 0 {
        Some(Seq::empty())
    } else {
        match piece_groups(parts.drop_last(), false) {
            None => None,
            Some(g) => match group_value(parts.last()) {
                Some(v) => Some(g.push(v)),
                None => match quad_groups(parts.last()) {
                    Some(q) => if quad {
                        Some(g + q)
                    } else {
                        None
                    },
                    None => None,
                },
            },
        }
    }
}

/// The groups of a possibly empty side of a `::`.
pub open spec fn side_groups(s: Seq<char>, quad: bool) -> Option<Seq<int>> {
    if s.len() == 0 {
        Some(Seq::empty())
    } else {
        piece_groups(text::split(s, ':'), quad)
    }
}

/// `n` zero groups.
pub open spec fn zeros(n: int) -> Seq<int> {
    Seq::new(n as nat, |i: int| 0)
}

/// The eight groups that a text stands for, where it is an IPv6 address. A
/// `::` stands for at least one zero group.
pub open spec fn parse_ipv6(s: Seq<char>) -> Option<Seq<int>> {
    match text::find_text(s, seq![':', ':'], 0) {
        None => match side_groups(s, true) {
            Some(g) => if g.len() == 8 {
                Some(g)
            } else {
                None
            },
            None => None,
        },
        Some(i) => match (side_groups(s.take(i), false), side_groups(s.skip(i + 2), true)) {
            (Some(head), Some(tail)) => if head.len() + tail.len() <= 7 {
                Some(head + zeros(8 - head.len() - tail.len()) + tail)
            } else {
                None
            },
            _ => None,
        },
    }
}

/// The groups as numbers.
pub open spec fn group_ints(v: Seq<u16>) -> Seq<int> {
    v.map_values(|g: u16| g as int)
}

/// Optional groups as numbers.
pub open spec fn option_ints(v: Option<Vec<u16>>) -> Option<Seq<int>> {
    match v {
        Some(g) => Some(group_ints(g@)),
        None => None,
    }
}

fn group(p: &Vec<char>) -> (r: Option<u16>)
    ensures
        r is Some <==> group_value(p@) is Some,
        r matches Some(v) ==> v as int == group_value(p@)->0,
{
    if p.len() < 1 || p.len() > 4 {
        return None;
    }
    let mut acc: u16 = 0;
    for i in 0..p.len()
        invariant
            1 <= p@.len() <= 4,
            forall|j: int| 0 <= j < i ==> text::hex_value(#[trigger] p@[j]) is Some,
            acc as int == hex_number(p@.take(i as int)),
            i == 0 ==> acc == 0,
            i == 1 ==> acc < 16,
            i == 2 ==> acc < 256,
            i == 3 ==> acc < 4096,
    {
        match text::hex_digit(p[i]) {
            None => {
                assert(text::hex_value(p@[i as int]) is None);
                return None;
            },
            Some(d) => {
                assert(p@.take(i + 1).drop_last() == p@.take(i as int));
                acc = acc * 16 + d as u16;
            },
        }
    }
    assert(p@.take(p@.len() as int) == p@);
    Some(acc)
}

fn octet(p: &Vec<char>) -> (r: Option<u16>)
    ensures
        r is Some <==> octet_value(p@) is Some,
        r matches Some(v) ==> v as int == octet_value(p@)->0 && v <= 255,
{
    if p.len() < 1 || p.len() > 3 || (p.len() > 1 && p[0] == '0') {
        return None;
    }
    let mut acc: u16 = 0;
    for i in 0..p.len()
        invariant
            1 <= p@.len() <= 3,
            forall|j: int| 0 <= j < i ==> text::is_digit(#[trigger] p@[j]),
            acc as int == decimal_number(p@.take(i as int)),
            i == 0 ==> acc == 0,
            i == 1 ==> acc < 10,
            i == 2 ==> acc < 100,
            i == 3 ==> acc < 1000,
    {
        if !text::digit(p[i]) {
            assert(!text::is_digit(p@[i as int]));
            return None;
        }
        assert(p@.take(i + 1).drop_last() == p@.take(i as int));
        acc = acc * 10 + (p[i] as u16 - '0' as u16);
    }
    assert(p@.take(p@.len() as int) == p@);
    if acc > 255 {
        None
    } else {
        Some(acc)
    }
}

pub fn quad(p: &Vec<char>) -> (r: Option<(u16, u16)>)
    ensures
        r is Some <==> quad_groups(p@) is Some,
        r matches Some(v) ==> quad_groups(p@)->0 == seq![v.0 as int, v.1 as int],
{
    let parts = text::split_text(p, '.');
    let ghost pieces = text::split(p@, '.');
    assert(pieces == parts@.map_values(|x: Vec<char>| x@));
    if parts.len() != 4 {
        return None;
    }
    assert(forall|i: int| 0 <= i < 4 ==> pieces[i] == #[trigger] parts@[i]@);
    match (octet(&parts[0]), octet(&parts[1]), octet(&parts[2]), octet(&parts[3])) {
        (Some(a), Some(b), Some(c), Some(d)) => Some((a * 256 + b, c * 256 + d)),
        _ => None,
    }
}

fn groups_of(parts: &Vec<Vec<char>>, allow_quad: bool) -> (r: Option<Vec<u16>>)
    ensures
        option_ints(r) == piece_groups(parts@.map_values(|x: Vec<char>| x@), allow_quad),
{
    let ghost pieces = parts@.map_values(|x: Vec<char>| x@);
    let mut out: Vec<u16> = Vec::new();
    assert(group_ints(out@) =~= Seq::<int>::empty());
    for i in 0..parts.len()
        invariant
            pieces == parts@.map_values(|x: Vec<char>| x@),
            piece_groups(pieces.take(i as int), false) == Some(group_ints(out@)),
    {
        let ghost before = out@;
        let ghost sofar = pieces.take(i + 1);
        assert(sofar.drop_last() == pieces.take(i as int));
        assert(sofar.last() == parts@[i as int]@);
        let last = i + 1 == parts.len();
        match group(&parts[i]) {
            Some(v) => {
                out.push(v);
                assert(group_ints(out@) =~= group_ints(before).push(v as int));
            },
            None => {
                proof {
                    if last {
                        assert(sofar == pieces);
                    } else {
                        lemma_no_groups(pieces, i + 1, allow_quad);
                    }
                }
                match quad(&parts[i]) {
                    Some(q) => {
                        if last && allow_quad {
                            out.push(q.0);
                            out.push(q.1);
                            assert(group_ints(out@) =~= group_ints(before) + seq![
                                q.0 as int,
                                q.1 as int,
                            ]);
                            return Some(out);
                        }
                    },
                    None => {},
                }
                return None;
            },
        }
    }
    assert(pieces.take(pieces.len() as int) == pieces);
    proof {
        lemma_quad_unused(pieces);
    }
    Some(out)
}

/// A list whose front is not made of groups is not made of groups.
proof fn lemma_no_groups(pieces: Seq<Seq<char>>, n: int, quad: bool)
    requires
        0 < n < pieces.len(),
        piece_groups(pieces.take(n), false) is None,
    ensures
        piece_groups(pieces, quad) is None,
    decreases pieces.len(),
{
    let front = pieces.drop_last();
    if n < front.len() {
        assert(front.take(n) == pieces.take(n));
        lemma_no_groups(front, n, false);
    } else {
        assert(front == pieces.take(n));
    }
}

/// Where all pieces are groups it makes no difference whether a quad may follow.
proof fn lemma_quad_unused(pieces: Seq<Seq<char>>)
    requires
        piece_groups(pieces, false) is Some,
    ensures
        piece_groups(pieces, true) == piece_groups(pieces, false),
{
}

fn side(v: &Vec<char>, from: usize, to: usize, allow_quad: bool) -> (r: Option<Vec<u16>>)
    requires
        from <= to <= v@.len(),
    ensures
        option_ints(r) == side_groups(v@.subrange(from as int, to as int), allow_quad),
{
    if from == to {
        let r: Vec<u16> = Vec::new();
        assert(group_ints(r@) =~= Seq::<int>::empty());
        return Some(r);
    }
    groups_of(&text::split_text(&text::slice(v, from, to), ':'), allow_quad)
}

/// The eight groups of an IPv6 address in text form.
pub fn parse(v: &Vec<char>) -> (r: Option<Vec<u16>>)
    ensures
        option_ints(r) == parse_ipv6(v@),
        r matches Some(g) ==> g@.len() == 8,
{
    let colons: Vec<char> = vec![':', ':'];
    assert(colons@ =~= seq![':', ':']);
    match text::find(v, &colons, 0) {
        None => {
            assert(v@.subrange(0, v@.len() as int) == v@);
            match side(v, 0, v.len(), true) {
                Some(g) => if g.len() == 8 {
                    Some(g)
                } else {
                    None
                },
                None => None,
            }
        },
        Some(i) => {
            assert(v@.subrange(0, i as int) == v@.take(i as int));
            assert(v@.subrange(i + 2, v@.len() as int) == v@.skip(i + 2));
            assert(i + 2 <= v.len());
            let head = side(v, 0, i, false);
            let tail = side(v, i + 2, v.len(), true);
            match (head, tail) {
                (Some(h), Some(t)) => {
                    if h.len() > 7 || t.len() > 7 - h.len() {
                        return None;
                    }
                    let ghost h0 = h@;
                    let ghost t0 = t@;
                    let fill: usize = 8 - h.len() - t.len();
                    let mut out = h;
                    for k in 0..fill
                        invariant
                            group_ints(out@) == group_ints(h0) + zeros(k as int),
                            out@.len() == h0.len() + k,
                    {
                        let ghost before = out@;
                        out.push(0);
                        assert(group_ints(out@) =~= group_ints(before).push(0));
                        assert(zeros(k + 1) =~= zeros(k as int).push(0));
                        assert(group_ints(h0) + zeros(k + 1) =~= (group_ints(h0) + zeros(
                            k as int,
                        )).push(0));
                    }
                    let ghost mid = out@;
                    for k in 0..t.len()
                        invariant
                            t@ == t0,
                            out@ == mid + t0.take(k as int),
                    {
                        out.push(t[k]);
                        assert(mid + t0.take(k + 1) =~= (mid + t0.take(k as int)).push(t0[k as int]));
                    }
                    assert(out@ =~= mid + t0);
                    assert(group_ints(out@) =~= group_ints(mid) + group_ints(t0));
                    Some(out)
                },
                _ => None,
            }
        },
    }
}

/// The small hexadecimal digit of a value below sixteen.
pub open spec fn hex_lower(v: int) -> char {
    if v < 10 {
        ('0' as int + v) as char
    } else {
        ('a' as int + v - 10) as char
    }
}

/// A number in hexadecimal without leading zeros.
pub open spec fn hex(n: nat) -> Seq<char>
    decreases n,
{
    if n < 16 {
        seq![hex_lower(n as int)]
    } else {
        hex(n / 16).push(hex_lower((n % 16) as int))
    }
}

/// Groups in hexadecimal with colons between them.
pub open spec fn hex_list(g: Seq<int>) -> Seq<char> {
    text::join(g.map_values(|v: int| hex(v as nat)), ':')
}

/// A dotted quad for two groups.
pub open spec fn dotted(high: int, low: int) -> Seq<char> {
    text::join(
        seq![
            text::decimal((high / 256) as nat),
            text::decimal((high % 256) as nat),
            text::decimal((low / 256) as nat),
            text::decimal((low % 256) as nat),
        ],
        '.',
    )
}

/// How many zero groups follow each other from position `i` on.
pub open spec fn zero_run(g: Seq<int>, i: int) -> int
    decreases g.len() - i,
{
    if i < 0 || i >= g.len() || g[i] != 0 {
        0
    } else {
        1 + zero_run(g, i + 1)
    }
}

/// Among the first `n` positions the first one with the longest zero run.
pub open spec fn longest_run(g: Seq<int>, n: int) -> int
    decreases n,
{
    if n <= 0 {
        0
    } else if zero_run(g, n - 1) > zero_run(g, longest_run(g, n - 1)) {
        n - 1
    } else {
        longest_run(g, n - 1)
    }
}

/// Whether the address is an IPv4 address mapped into IPv6.
pub open spec fn is_mapped(g: Seq<int>) -> bool {
    g.take(5) == zeros(5) && g[5] == 0xffff
}

/// The canonical spelling of an address.
pub open spec fn ipv6_text(g: Seq<int>) -> Seq<char> {
    if is_mapped(g) {
        "::ffff:"@ + dotted(g[6], g[7])
    } else {
        let start = longest_run(g, 8);
        let len = zero_run(g, start);
        if len > 1 {
            hex_list(g.take(start)) + "::"@ + hex_list(g.skip(start + len))
        } else {
            hex_list(g)
        }
    }
}

fn hex_text(n: u16) -> (s: String)
    ensures
        s@ == hex(n as nat),
    decreases n,
{
    let d = (n % 16) as u8;
    let c = if d < 10 {
        (48 + d) as char
    } else {
        (87 + d) as char
    };
    let mut s = if n < 16 {
        String::new()
    } else {
        hex_text(n / 16)
    };
    s.push(c);
    assert(Seq::<char>::empty().push(c) == seq![c]);
    s
}

fn write_groups(g: &Vec<u16>, from: usize, to: usize) -> (s: String)
    requires
        from <= to <= g@.len(),
    ensures
        s@ == hex_list(group_ints(g@.subrange(from as int, to as int))),
{
    let ghost parts = group_ints(g@.subrange(from as int, to as int)).map_values(
        |v: int| hex(v as nat),
    );
    let mut s = String::new();
    let mut i: usize = to;
    let mut first = true;
    assert(parts.skip(parts.len() as int) == Seq::<Seq<char>>::empty());
    // The groups are put in front of the text one by one, from the last.
    while i > from
        invariant
            from <= i <= to <= g@.len(),
            parts.len() == to - from,
            forall|k: int| 0 <= k < parts.len() ==> #[trigger] parts[k] == hex(g@[from + k] as nat),
            first == (i == to),
            s@ == text::join(parts.skip(i - from), ':'),
        decreases i - from,
    {
        i -= 1;
        let mut t = hex_text(g[i]);
        assert(parts[i - from] == t@);
        let ghost rest = parts.skip(i - from);
        assert(rest.skip(1) == parts.skip(i - from + 1));
        if !first {
            t.push(':');
            t = t.concat(s.as_str());
            assert(parts[i - from].push(':') =~= parts[i - from] + seq![':']);
        }
        first = false;
        s = t;
    }
    assert(parts.skip(0) == parts);
    s
}

fn write_dotted(high: u16, low: u16) -> (s: String)
    ensures
        s@ == dotted(high as int, low as int),
{
    let mut s = text::decimal_text((high / 256) as u64);
    let ghost a = s@;
    s.push('.');
    let b = text::decimal_text((high % 256) as u64);
    let mut s = s.concat(b.as_str());
    s.push('.');
    let c = text::decimal_text((low / 256) as u64);
    let mut s = s.concat(c.as_str());
    s.push('.');
    let d = text::decimal_text((low % 256) as u64);
    let s = s.concat(d.as_str());
    proof {
        let parts = seq![a, b@, c@, d@];
        reveal_with_fuel(text::join, 4);
        assert(parts.skip(1) =~= seq![b@, c@, d@]);
        assert(parts.skip(1).skip(1) =~= seq![c@, d@]);
        assert(parts.skip(1).skip(1).skip(1) =~= seq![d@]);
        assert(s@ =~= text::join(parts, '.'));
    }
    s
}

fn run_from(g: &Vec<u16>, i: usize) -> (n: usize)
    ensures
        n == zero_run(group_ints(g@), i as int),
        i + n <= g@.len() || n == 0,
    decreases g@.len() - i,
{
    if i >= g.len() || g[i] != 0 {
        0
    } else {
        1 + run_from(g, i + 1)
    }
}

/// The canonical text of an address.
pub fn format_address(g: &Vec<u16>) -> (s: String)
    requires
        g@.len() == 8,
    ensures
        s@ == ipv6_text(group_ints(g@)),
{
    let ghost gi = group_ints(g@);
    if g[0] == 0 && g[1] == 0 && g[2] == 0 && g[3] == 0 && g[4] == 0 && g[5] == 0xffff {
        assert(gi.take(5) =~= zeros(5));
        return "::ffff:".to_owned().concat(write_dotted(g[6], g[7]).as_str());
    }
    assert(!is_mapped(gi)) by {
        if is_mapped(gi) {
            assert forall|k: int| 0 <= k < 5 implies #[trigger] gi[k] == 0 by {
                assert(gi.take(5)[k] == zeros(5)[k]);
            }
            assert(gi[0] == 0 && gi[1] == 0 && gi[2] == 0 && gi[3] == 0 && gi[4] == 0);
        }
    }
    let mut best: usize = 0;
    let mut best_len: usize = run_from(g, 0);
    for i in 0..8
        invariant
            g@.len() == 8,
            gi == group_ints(g@),
            best == longest_run(gi, i as int),
            best < 8,
            best_len == zero_run(gi, best as int),
            best + best_len <= 8,
    {
        let n = run_from(g, i);
        if n > best_len {
            best = i;
            best_len = n;
        }
    }
    if best_len > 1 {
        assert(group_ints(g@.subrange(0, best as int)) =~= gi.take(best as int));
        assert(group_ints(g@.subrange(best + best_len, 8)) =~= gi.skip(best + best_len));
        write_groups(g, 0, best).concat("::").concat(write_groups(g, best + best_len, 8).as_str())
    } else {
        assert(g@.subrange(0, 8) =~= g@);
        write_groups(g, 0, 8)
    }
}

/// Eight groups of sixteen bits.
pub open spec fn is_address(g: Seq<int>) -> bool {
    g.len() == 8 && forall|i: int| 0 <= i < 8 ==> 0 <= #[trigger] g[i] < 65536
}

/// Reading the canonical spelling of an address gives that address.
pub proof fn law_parse_undoes_format(g: Seq<int>)
    requires
        is_address(g),
    ensures
        parse_ipv6(ipv6_text(g)) == Some(g),
{
    let s = ipv6_text(g);
    if is_mapped(g) {
        lemma_mapped(g);
    } else {
        let start = longest_run(g, 8);
        lemma_longest_run(g, 8);
        lemma_zero_run(g, start);
        let len = zero_run(g, start);
        reveal_strlit("::");
        let colons = seq![':', ':'];
        assert("::"@ =~= colons);
        if len > 1 {
            let head = g.take(start);
            let tail = g.skip(start + len);
            lemma_hex_list(head);
            lemma_hex_list(tail);
            let h = hex_list(head);
            let n = h.len() as int;
            assert(s.subrange(n, n + 2) =~= colons);
            assert(text::occurs_at(s, colons, n));
            assert forall|j: int| 0 <= j < n implies !#[trigger] text::occurs_at(s, colons, j) by {
                if text::occurs_at(s, colons, j) {
                    assert(s[j] == s.subrange(j, j + 2)[0]);
                    assert(s[j + 1] == s.subrange(j, j + 2)[1]);
                    assert(h[j] == ':');
                    assert(h[j + 1] == s[j + 1]);
                }
            }
            text::lemma_find_text(s, colons, 0);
            let i = text::find_text(s, colons, 0)->0;
            assert(i == n);
            assert(s.take(n) =~= h);
            assert(s.skip(n + 2) =~= hex_list(tail));
            assert(head + zeros(len) + tail =~= g);
        } else {
            lemma_hex_list(g);
            text::lemma_find_text(s, colons, 0);
            assert forall|j: int| 0 <= j implies !#[trigger] text::occurs_at(s, colons, j) by {
                if text::occurs_at(s, colons, j) {
                    assert(s[j] == s.subrange(j, j + 2)[0]);
                    assert(s[j + 1] == s.subrange(j, j + 2)[1]);
                }
            }
        }
    }
}

/// Four numbers up to 255 in decimal, with dots between them, are an IPv4
/// address.
pub proof fn law_four_numbers_make_a_quad(a: int, b: int, c: int, d: int)
    requires
        0 <= a <= 255,
        0 <= b <= 255,
        0 <= c <= 255,
        0 <= d <= 255,
    ensures
        quad_groups(
            text::decimal(a as nat) + seq!['.'] + text::decimal(b as nat) + seq!['.']
                + text::decimal(c as nat) + seq!['.'] + text::decimal(d as nat),
        ) == Some(seq![a * 256 + b, c * 256 + d]),
{
    let p = text::decimal(a as nat);
    let q = text::decimal(b as nat);
    let r = text::decimal(c as nat);
    let s = text::decimal(d as nat);
    lemma_decimal(a as nat);
    lemma_decimal(b as nat);
    lemma_decimal(c as nat);
    lemma_decimal(d as nat);
    let parts = seq![p, q, r, s];
    assert forall|i: int| 0 <= i < 4 implies !#[trigger] parts[i].contains('.') by {
        assert(parts[i] == p || parts[i] == q || parts[i] == r || parts[i] == s);
    }
    text::lemma_split_join(parts, '.');
    reveal_with_fuel(text::join, 4);
    assert(parts.skip(1) =~= seq![q, r, s]);
    assert(parts.skip(1).skip(1) =~= seq![r, s]);
    assert(parts.skip(1).skip(1).skip(1) =~= seq![s]);
    assert(text::join(parts, '.') =~= p + seq!['.'] + q + seq!['.'] + r + seq!['.'] + s);
}

/// A text that is taken for an IPv4 address is four numbers up to 255 in
/// decimal, with dots between them, and nothing else.
pub proof fn law_a_quad_is_four_numbers(s: Seq<char>)
    requires
        quad_groups(s) is Some,
    ensures
        exists|a: nat, b: nat, c: nat, d: nat|
            a <= 255 && b <= 255 && c <= 255 && d <= 255 && s == #[trigger] text::decimal(a)
                + seq!['.'] + #[trigger] text::decimal(b) + seq!['.'] + #[trigger] text::decimal(c)
                + seq!['.'] + #[trigger] text::decimal(d),
{
    let p = text::split(s, '.');
    text::lemma_join_split(s, '.');
    reveal_with_fuel(text::join, 4);
    assert(p.skip(1) =~= seq![p[1], p[2], p[3]]);
    assert(p.skip(1).skip(1) =~= seq![p[2], p[3]]);
    assert(p.skip(1).skip(1).skip(1) =~= seq![p[3]]);
    assert(text::join(p, '.') =~= p[0] + seq!['.'] + p[1] + seq!['.'] + p[2] + seq!['.'] + p[3]);
    lemma_octet_spelling(p[0]);
    lemma_octet_spelling(p[1]);
    lemma_octet_spelling(p[2]);
    lemma_octet_spelling(p[3]);
    let a = octet_value(p[0])->0 as nat;
    let b = octet_value(p[1])->0 as nat;
    let c = octet_value(p[2])->0 as nat;
    let d = octet_value(p[3])->0 as nat;
    assert(s =~= text::decimal(a) + seq!['.'] + text::decimal(b) + seq!['.'] + text::decimal(c)
        + seq!['.'] + text::decimal(d));
}

proof fn lemma_octet_spelling(s: Seq<char>)
    requires
        octet_value(s) is Some,
    ensures
        0 <= octet_value(s)->0 <= 255,
        s == text::decimal(octet_value(s)->0 as nat),
{
    lemma_octet_bound(s);
    let v = octet_value(s)->0;
    reveal_with_fuel(decimal_number, 4);
    reveal_with_fuel(text::decimal, 4);
    assert(text::is_digit(s[0]));
    if s.len() == 1 {
        assert(s =~= text::decimal(v as nat));
    } else if s.len() == 2 {
        assert(text::is_digit(s[1]));
        assert(s.drop_last().last() == s[0]);
        assert(v == (s[0] as int - '0' as int) * 10 + (s[1] as int - '0' as int));
        assert(s =~= text::decimal(v as nat));
    } else {
        assert(text::is_digit(s[1]));
        assert(text::is_digit(s[2]));
        assert(s.drop_last().last() == s[1]);
        assert(s.drop_last().drop_last().last() == s[0]);
        assert(v == ((s[0] as int - '0' as int) * 10 + (s[1] as int - '0' as int)) * 10 + (
        s[2] as int - '0' as int));
        let w = (v / 10) as nat;
        assert(w == (s[0] as int - '0' as int) * 10 + (s[1] as int - '0' as int));
        assert(text::decimal(w) =~= s.drop_last());
        assert(s =~= text::decimal(v as nat));
    }
}

/// The number that a list of hexadecimal groups stands for, group by group.
pub open spec fn hex_numbers(parts: Seq<Seq<char>>) -> Seq<int> {
    parts.map_values(|p: Seq<char>| hex_number(p))
}

/// Up to four hexadecimal digits each, with colons between them: eight such
/// groups are an IPv6 address, and so are up to seven with `::` anywhere among
/// them, which stands for as many zero groups as are wanting.
pub proof fn law_groups_make_an_address(head: Seq<Seq<char>>, tail: Seq<Seq<char>>)
    requires
        forall|i: int|
            0 <= i < head.len() ==> 1 <= (#[trigger] head[i]).len() <= 4 && forall|j: int|
                0 <= j < head[i].len() ==> text::hex_value(#[trigger] head[i][j]) is Some,
        forall|i: int|
            0 <= i < tail.len() ==> 1 <= (#[trigger] tail[i]).len() <= 4 && forall|j: int|
                0 <= j < tail[i].len() ==> text::hex_value(#[trigger] tail[i][j]) is Some,
    ensures
        head.len() == 8 ==> parse_ipv6(text::join(head, ':')) == Some(hex_numbers(head)),
        head.len() + tail.len() <= 7 ==> parse_ipv6(
            text::join(head, ':') + seq![':', ':'] + text::join(tail, ':'),
        ) == Some(
            hex_numbers(head) + Seq::new((8 - head.len() - tail.len()) as nat, |i: int| 0)
                + hex_numbers(tail),
        ),
{
    lemma_hex_pieces(head);
    lemma_hex_pieces(tail);
    let colons = seq![':', ':'];
    let h = text::join(head, ':');
    if head.len() == 8 {
        text::lemma_find_text(h, colons, 0);
    }
    if head.len() + tail.len() <= 7 {
        lemma_gap(h, text::join(tail, ':'), hex_numbers(head), hex_numbers(tail));
        assert(zeros(8 - head.len() - tail.len()) =~= Seq::new(
            (8 - head.len() - tail.len()) as nat,
            |i: int| 0,
        ));
    }
}

proof fn lemma_gap(h: Seq<char>, t: Seq<char>, a: Seq<int>, b: Seq<int>)
    requires
        side_groups(h, false) == Some(a),
        side_groups(t, true) == Some(b),
        a.len() + b.len() <= 7,
        !text::contains_text(h, seq![':', ':']),
        h.len() > 0 ==> h.last() != ':',
    ensures
        parse_ipv6(h + seq![':', ':'] + t) == Some(a + zeros(8 - a.len() - b.len()) + b),
{
    let colons = seq![':', ':'];
    let n = h.len() as int;
    let s = h + colons + t;
    assert(s.subrange(n, n + 2) =~= colons);
    assert(text::occurs_at(s, colons, n));
    assert forall|j: int| 0 <= j < n implies !#[trigger] text::occurs_at(s, colons, j) by {
        if text::occurs_at(s, colons, j) {
            assert(s[j] == s.subrange(j, j + 2)[0]);
            if j + 1 < n {
                assert(h.subrange(j, j + 2) =~= s.subrange(j, j + 2));
                assert(text::occurs_at(h, colons, j));
            } else {
                assert(h.last() == s[j]);
            }
        }
    }
    text::lemma_find_text(s, colons, 0);
    assert(text::find_text(s, colons, 0) == Some(n));
    assert(s.take(n) =~= h);
    assert(s.skip(n + 2) =~= t);
}

proof fn lemma_hex_pieces(parts: Seq<Seq<char>>)
    requires
        forall|i: int|
            0 <= i < parts.len() ==> 1 <= (#[trigger] parts[i]).len() <= 4 && forall|j: int|
                0 <= j < parts[i].len() ==> text::hex_value(#[trigger] parts[i][j]) is Some,
    ensures
        side_groups(text::join(parts, ':'), false) == Some(hex_numbers(parts)),
        side_groups(text::join(parts, ':'), true) == Some(hex_numbers(parts)),
        !text::contains_text(text::join(parts, ':'), seq![':', ':']),
        text::join(parts, ':').len() > 0 ==> text::join(parts, ':').last() != ':',
{
    assert forall|i: int| 0 <= i < parts.len() implies !#[trigger] parts[i].contains(':')
        && parts[i].len() > 0 by {
        if parts[i].contains(':') {
            let j = parts[i].index_of(':');
            assert(text::hex_value(parts[i][j]) is Some);
        }
    }
    lemma_join_separators(parts, ':');
    let s = text::join(parts, ':');
    let colons = seq![':', ':'];
    assert forall|j: int| !#[trigger] text::occurs_at(s, colons, j) by {
        if text::occurs_at(s, colons, j) {
            assert(s[j] == s.subrange(j, j + 2)[0]);
            assert(s[j + 1] == s.subrange(j, j + 2)[1]);
        }
    }
    if s.len() > 0 {
        assert(s[s.len() - 1] == s.last());
    }
    lemma_piece_numbers(parts, true);
    lemma_piece_numbers(parts, false);
    if parts.len() > 0 {
        text::lemma_split_join(parts, ':');
    } else {
        assert(hex_numbers(parts) =~= Seq::<int>::empty());
    }
}

proof fn lemma_piece_numbers(parts: Seq<Seq<char>>, quad: bool)
    requires
        forall|i: int|
            0 <= i < parts.len() ==> 1 <= (#[trigger] parts[i]).len() <= 4 && forall|j: int|
                0 <= j < parts[i].len() ==> text::hex_value(#[trigger] parts[i][j]) is Some,
    ensures
        piece_groups(parts, quad) == Some(hex_numbers(parts)),
    decreases parts.len(),
{
    if parts.len() > 0 {
        let front = parts.drop_last();
        assert forall|i: int| 0 <= i < front.len() implies 1 <= (#[trigger] front[i]).len() <= 4
            && forall|j: int|
            0 <= j < front[i].len() ==> text::hex_value(#[trigger] front[i][j]) is Some by {
            assert(front[i] == parts[i]);
        }
        lemma_piece_numbers(front, false);
        assert(parts[parts.len() - 1] == parts.last());
        assert(group_value(parts.last()) == Some(hex_number(parts.last())));
        assert(hex_numbers(parts) =~= hex_numbers(front).push(hex_number(parts.last())));
    } else {
        assert(hex_numbers(parts) =~= Seq::<int>::empty());
    }
}

/// A text that is taken for an IPv6 address holds hexadecimal digits, colons and
/// dots only, and at least one colon.
pub proof fn law_an_address_is_made_of_digits_and_colons(s: Seq<char>)
    requires
        parse_ipv6(s) is Some,
    ensures
        s.contains(':'),
        forall|i: int|
            0 <= i < s.len() ==> text::hex_value(#[trigger] s[i]) is Some || s[i] == ':' || s[i]
                == '.',
{
    let colons = seq![':', ':'];
    text::lemma_find_text(s, colons, 0);
    match text::find_text(s, colons, 0) {
        None => {
            lemma_side_characters(s, true);
            if !s.contains(':') {
                text::lemma_join_split(s, ':');
                let stops = seq![':'];
                assert forall|j: int| 0 <= j < s.len() implies !stops.contains(
                    #[trigger] s[j],
                ) by {
                    assert(s.contains(s[j]));
                }
                text::lemma_span(s, stops, s.len() as int);
                assert(text::split(s, ':') =~= seq![s]);
                assert(seq![s].drop_last() =~= Seq::<Seq<char>>::empty());
                reveal_with_fuel(piece_groups, 2);
            }
        },
        Some(i) => {
            assert(s.subrange(i, i + 2)[0] == s[i]);
            assert(s.subrange(i, i + 2)[1] == s[i + 1]);
            lemma_side_characters(s.take(i), false);
            lemma_side_characters(s.skip(i + 2), true);
            assert forall|k: int| 0 <= k < s.len() implies text::hex_value(#[trigger] s[k]) is Some
                || s[k] == ':' || s[k] == '.' by {
                if k < i {
                    assert(s.take(i)[k] == s[k]);
                } else if k >= i + 2 {
                    assert(s.skip(i + 2)[k - i - 2] == s[k]);
                }
            }
        },
    }
}

proof fn lemma_side_characters(s: Seq<char>, quad: bool)
    requires
        side_groups(s, quad) is Some,
    ensures
        forall|i: int|
            0 <= i < s.len() ==> text::hex_value(#[trigger] s[i]) is Some || s[i] == ':' || s[i]
                == '.',
{
    if s.len() > 0 {
        let parts = text::split(s, ':');
        text::lemma_join_split(s, ':');
        lemma_piece_characters(parts, quad);
        lemma_join_characters(parts);
    }
}

proof fn lemma_join_characters(parts: Seq<Seq<char>>)
    requires
        forall|i: int, j: int|
            0 <= i < parts.len() && 0 <= j < parts[i].len() ==> text::hex_value(
                #[trigger] parts[i][j],
            ) is Some || parts[i][j] == '.',
    ensures
        forall|i: int|
            0 <= i < text::join(parts, ':').len() ==> text::hex_value(
                #[trigger] text::join(parts, ':')[i],
            ) is Some || text::join(parts, ':')[i] == ':' || text::join(parts, ':')[i] == '.',
    decreases parts.len(),
{
    let s = text::join(parts, ':');
    if parts.len() == 1 {
        assert forall|i: int| 0 <= i < s.len() implies text::hex_value(#[trigger] s[i]) is Some
            || s[i] == ':' || s[i] == '.' by {
            assert(parts[0][i] == s[i]);
        }
    } else if parts.len() > 1 {
        let rest = parts.skip(1);
        assert forall|i: int, j: int| 0 <= i < rest.len() && 0 <= j < rest[i].len() implies
            text::hex_value(#[trigger] rest[i][j]) is Some || rest[i][j] == '.' by {
            assert(rest[i][j] == parts[i + 1][j]);
        }
        lemma_join_characters(rest);
        let n = parts[0].len() as int;
        let t = text::join(rest, ':');
        assert forall|i: int| 0 <= i < s.len() implies text::hex_value(#[trigger] s[i]) is Some
            || s[i] == ':' || s[i] == '.' by {
            if i < n {
                assert(parts[0][i] == s[i]);
            } else if i > n {
                assert(t[i - n - 1] == s[i]);
            }
        }
    }
}

proof fn lemma_piece_characters(parts: Seq<Seq<char>>, quad: bool)
    requires
        piece_groups(parts, quad) is Some,
    ensures
        forall|i: int, j: int|
            0 <= i < parts.len() && 0 <= j < parts[i].len() ==> text::hex_value(
                #[trigger] parts[i][j],
            ) is Some || parts[i][j] == '.',
    decreases parts.len(),
{
    if parts.len() > 0 {
        let front = parts.drop_last();
        lemma_piece_characters(front, false);
        let last = parts.last();
        assert forall|i: int, j: int| 0 <= i < parts.len() && 0 <= j < parts[i].len() implies
            text::hex_value(#[trigger] parts[i][j]) is Some || parts[i][j] == '.' by {
            if i < front.len() {
                assert(front[i][j] == parts[i][j]);
            } else if group_value(last) is None {
                lemma_quad_characters(last);
                assert(last[j] == parts[i][j]);
            }
        }
    }
}

/// A dotted quad holds digits and dots only.
pub proof fn lemma_quad_characters(s: Seq<char>)
    requires
        quad_groups(s) is Some,
    ensures
        forall|i: int| 0 <= i < s.len() ==> text::is_digit(#[trigger] s[i]) || s[i] == '.',
{
    let p = text::split(s, '.');
    text::lemma_join_split(s, '.');
    reveal_with_fuel(text::join, 4);
    assert(p.skip(1) =~= seq![p[1], p[2], p[3]]);
    assert(p.skip(1).skip(1) =~= seq![p[2], p[3]]);
    assert(p.skip(1).skip(1).skip(1) =~= seq![p[3]]);
    let n1 = p[0].len() as int;
    let n2 = n1 + 1 + p[1].len();
    let n3 = n2 + 1 + p[2].len();
    assert(s =~= p[0] + seq!['.'] + (p[1] + seq!['.'] + (p[2] + seq!['.'] + p[3])));
    assert forall|i: int| 0 <= i < s.len() implies text::is_digit(#[trigger] s[i]) || s[i]
        == '.' by {
        if i < n1 {
            assert(s[i] == p[0][i]);
        } else if n1 < i < n2 {
            assert(s[i] == p[1][i - n1 - 1]);
        } else if n2 < i < n3 {
            assert(s[i] == p[2][i - n2 - 1]);
        } else if n3 < i {
            assert(s[i] == p[3][i - n3 - 1]);
        }
    }
}

/// What an address text stands for is an address.
pub proof fn lemma_parse_gives_address(s: Seq<char>)
    requires
        parse_ipv6(s) is Some,
    ensures
        is_address(parse_ipv6(s)->0),
{
    match text::find_text(s, seq![':', ':'], 0) {
        None => {
            lemma_side_bounds(s, true);
        },
        Some(i) => {
            lemma_side_bounds(s.take(i), false);
            lemma_side_bounds(s.skip(i + 2), true);
        },
    }
}

proof fn lemma_side_bounds(s: Seq<char>, quad: bool)
    ensures
        side_groups(s, quad) matches Some(g) ==> forall|i: int|
            0 <= i < g.len() ==> 0 <= #[trigger] g[i] < 65536,
{
    if s.len() > 0 {
        lemma_piece_bounds(text::split(s, ':'), quad);
    }
}

proof fn lemma_piece_bounds(parts: Seq<Seq<char>>, quad: bool)
    ensures
        piece_groups(parts, quad) matches Some(g) ==> forall|i: int|
            0 <= i < g.len() ==> 0 <= #[trigger] g[i] < 65536,
    decreases parts.len(),
{
    if parts.len() > 0 {
        lemma_piece_bounds(parts.drop_last(), false);
        lemma_group_bound(parts.last());
        let p = text::split(parts.last(), '.');
        lemma_octet_bound(p[0]);
        lemma_octet_bound(p[1]);
        lemma_octet_bound(p[2]);
        lemma_octet_bound(p[3]);
    }
}

proof fn lemma_group_bound(s: Seq<char>)
    ensures
        group_value(s) matches Some(v) ==> 0 <= v < 65536,
{
    if group_value(s) is Some {
        reveal_with_fuel(hex_number, 5);
        assert(s.drop_last().len() == s.len() - 1);
        assert(forall|i: int| 0 <= i < s.len() ==> 0 <= text::hex_value(#[trigger] s[i])->0 < 16);
        let a = s.drop_last();
        if a.len() > 0 {
            assert(a.last() == s[a.len() - 1]);
            let b = a.drop_last();
            if b.len() > 0 {
                assert(b.last() == s[b.len() - 1]);
                let c = b.drop_last();
                if c.len() > 0 {
                    assert(c.last() == s[0]);
                }
            }
        }
    }
}

proof fn lemma_octet_bound(s: Seq<char>)
    ensures
        octet_value(s) matches Some(v) ==> 0 <= v <= 255,
{
    if octet_value(s) is Some {
        lemma_decimal_number_nonnegative(s);
    }
}

proof fn lemma_decimal_number_nonnegative(s: Seq<char>)
    requires
        forall|i: int| 0 <= i < s.len() ==> text::is_digit(#[trigger] s[i]),
    ensures
        0 <= decimal_number(s),
    decreases s.len(),
{
    if s.len() > 0 {
        let t = s.drop_last();
        assert forall|i: int| 0 <= i < t.len() implies text::is_digit(#[trigger] t[i]) by {
            assert(t[i] == s[i]);
        }
        lemma_decimal_number_nonnegative(t);
        assert(text::is_digit(s[s.len() - 1]));
    }
}

/// A canonical address text begins with a digit, a small letter or a colon,
/// and ends with one of these.
pub proof fn lemma_text_ends(g: Seq<int>)
    requires
        is_address(g),
    ensures
        ipv6_text(g).len() > 0,
        ({
            let a = ipv6_text(g)[0];
            let b = ipv6_text(g).last();
            &&& a == ':' || text::is_digit(a) || 'a' <= a <= 'f'
            &&& b == ':' || text::is_digit(b) || 'a' <= b <= 'f'
        }),
{
    reveal_strlit("::ffff:");
    reveal_strlit("::");
    if is_mapped(g) {
        lemma_dotted(g[6], g[7]);
    } else {
        let start = longest_run(g, 8);
        lemma_longest_run(g, 8);
        lemma_zero_run(g, start);
        let len = zero_run(g, start);
        if len > 1 {
            lemma_hex_list_ends(g.take(start));
            lemma_hex_list_ends(g.skip(start + len));
        } else {
            lemma_hex_list_ends(g);
        }
    }
}

/// A canonical address text holds digits, small letters, colons and dots only.
pub proof fn lemma_text_holds_no(g: Seq<int>, c: char)
    requires
        is_address(g),
        !is_hex_lower(c),
        c != ':',
        c != '.',
    ensures
        !ipv6_text(g).contains(c),
{
    reveal_strlit("::ffff:");
    reveal_strlit("::");
    if is_mapped(g) {
        let parts = seq![
            text::decimal((g[6] / 256) as nat),
            text::decimal((g[6] % 256) as nat),
            text::decimal((g[7] / 256) as nat),
            text::decimal((g[7] % 256) as nat),
        ];
        lemma_decimal((g[6] / 256) as nat);
        lemma_decimal((g[6] % 256) as nat);
        lemma_decimal((g[7] / 256) as nat);
        lemma_decimal((g[7] % 256) as nat);
        assert forall|i: int| 0 <= i < parts.len() implies !#[trigger] parts[i].contains(c) by {
            if parts[i].contains(c) {
                let k = choose|k: int| 0 <= k < parts[i].len() && parts[i][k] == c;
                assert(text::is_digit(parts[i][k]));
            }
        }
        text::lemma_join_holds_no(parts, '.', c);
        let quad = dotted(g[6], g[7]);
        assert forall|j: int| 0 <= j < ipv6_text(g).len() implies #[trigger] ipv6_text(g)[j]
            != c by {
            if j >= 7 {
                assert(quad.contains(quad[j - 7]));
            }
        }
    } else {
        let start = longest_run(g, 8);
        lemma_longest_run(g, 8);
        lemma_zero_run(g, start);
        let len = zero_run(g, start);
        if len > 1 {
            let head = hex_list(g.take(start));
            let tail = hex_list(g.skip(start + len));
            lemma_hex_list_holds_no(g.take(start), c);
            lemma_hex_list_holds_no(g.skip(start + len), c);
            assert forall|j: int| 0 <= j < ipv6_text(g).len() implies #[trigger] ipv6_text(g)[j]
                != c by {
                if j < head.len() {
                    assert(head.contains(head[j]));
                } else if j >= head.len() + 2 {
                    assert(tail.contains(tail[j - head.len() - 2]));
                }
            }
        } else {
            lemma_hex_list_holds_no(g, c);
        }
    }
}

proof fn lemma_hex_list_holds_no(g: Seq<int>, c: char)
    requires
        forall|i: int| 0 <= i < g.len() ==> 0 <= #[trigger] g[i] < 65536,
        !is_hex_lower(c),
        c != ':',
    ensures
        !hex_list(g).contains(c),
{
    let parts = g.map_values(|v: int| hex(v as nat));
    assert forall|i: int| 0 <= i < parts.len() implies !#[trigger] parts[i].contains(c) by {
        lemma_hex(g[i] as nat);
        assert(parts[i] == hex(g[i] as nat));
    }
    text::lemma_join_holds_no(parts, ':', c);
}

proof fn lemma_hex_list_ends(g: Seq<int>)
    requires
        forall|i: int| 0 <= i < g.len() ==> 0 <= #[trigger] g[i] < 65536,
    ensures
        g.len() == 0 ==> hex_list(g).len() == 0,
        g.len() > 0 ==> hex_list(g).len() > 0 && is_hex_lower(hex_list(g)[0]) && is_hex_lower(
            hex_list(g).last(),
        ),
{
    if g.len() > 0 {
        let parts = g.map_values(|v: int| hex(v as nat));
        lemma_hex(g[0] as nat);
        lemma_hex(g[g.len() - 1] as nat);
        assert(parts[0] == hex(g[0] as nat));
        assert(parts.last() == hex(g[g.len() - 1] as nat));
        text::lemma_join_ends(parts, ':');
    }
}

proof fn lemma_zero_run(g: Seq<int>, i: int)
    requires
        0 <= i <= g.len(),
    ensures
        0 <= zero_run(g, i),
        i + zero_run(g, i) <= g.len(),
        forall|j: int| i <= j < i + zero_run(g, i) ==> #[trigger] g[j] == 0,
    decreases g.len() - i,
{
    if i < g.len() && g[i] == 0 {
        lemma_zero_run(g, i + 1);
    }
}

proof fn lemma_longest_run(g: Seq<int>, n: int)
    requires
        1 <= n,
    ensures
        0 <= longest_run(g, n) < n,
    decreases n,
{
    if n > 1 {
        lemma_longest_run(g, n - 1);
    } else {
        assert(longest_run(g, 0) == 0);
    }
}

/// A character of a canonical group.
pub open spec fn is_hex_lower(c: char) -> bool {
    text::is_digit(c) || 'a' <= c <= 'f'
}

proof fn lemma_hex(n: nat)
    requires
        n < 65536,
    ensures
        1 <= hex(n).len() <= 4,
        n < 4096 ==> hex(n).len() <= 3,
        n < 256 ==> hex(n).len() <= 2,
        n < 16 ==> hex(n).len() <= 1,
        forall|i: int| 0 <= i < hex(n).len() ==> is_hex_lower(#[trigger] hex(n)[i]),
        group_value(hex(n)) == Some(n as int),
    decreases n,
{
    let s = hex(n);
    if n >= 16 {
        lemma_hex(n / 16);
        assert(s.drop_last() == hex(n / 16));
        assert forall|i: int| 0 <= i < s.len() implies is_hex_lower(#[trigger] s[i]) by {
            if i < s.len() - 1 {
                assert(s[i] == hex(n / 16)[i]);
            }
        }
        assert(hex_number(s) == n);
    } else {
        assert(s.drop_last() == Seq::<char>::empty());
        assert(hex_number(s.drop_last()) == 0);
    }
}

proof fn lemma_decimal(n: nat)
    requires
        n < 1000,
    ensures
        1 <= text::decimal(n).len() <= 3,
        n < 100 ==> text::decimal(n).len() <= 2,
        n < 10 ==> text::decimal(n).len() <= 1,
        forall|i: int|
            0 <= i < text::decimal(n).len() ==> text::is_digit(#[trigger] text::decimal(n)[i]),
        n > 0 ==> text::decimal(n)[0] != '0',
        decimal_number(text::decimal(n)) == n,
    decreases n,
{
    let s = text::decimal(n);
    if n >= 10 {
        lemma_decimal(n / 10);
        assert(s.drop_last() == text::decimal(n / 10));
        assert forall|i: int| 0 <= i < s.len() implies text::is_digit(#[trigger] s[i]) by {
            if i < s.len() - 1 {
                assert(s[i] == text::decimal(n / 10)[i]);
            }
        }
    } else {
        assert(s.drop_last() == Seq::<char>::empty());
        assert(decimal_number(s.drop_last()) == 0);
    }
}

/// The pieces of a list of groups spell those groups, whatever may follow.
proof fn lemma_piece_groups(g: Seq<int>, quad: bool)
    requires
        forall|i: int| 0 <= i < g.len() ==> 0 <= #[trigger] g[i] < 65536,
    ensures
        piece_groups(g.map_values(|v: int| hex(v as nat)), quad) == Some(g),
    decreases g.len(),
{
    let parts = g.map_values(|v: int| hex(v as nat));
    if g.len() > 0 {
        lemma_piece_groups(g.drop_last(), false);
        assert(parts.drop_last() =~= g.drop_last().map_values(|v: int| hex(v as nat)));
        lemma_hex(g.last() as nat);
        assert(g.drop_last().push(g.last()) =~= g);
    } else {
        assert(g =~= Seq::<int>::empty());
    }
}

/// In joined pieces that are not empty and hold no separator, no separator
/// stands first, last or next to another.
proof fn lemma_join_separators(parts: Seq<Seq<char>>, sep: char)
    requires
        forall|i: int|
            0 <= i < parts.len() ==> !#[trigger] parts[i].contains(sep) && parts[i].len() > 0,
    ensures
        parts.len() > 0 ==> text::join(parts, sep).len() > 0,
        forall|j: int|
            0 <= j < text::join(parts, sep).len() && #[trigger] text::join(parts, sep)[j] == sep
                ==> 0 < j && j + 1 < text::join(parts, sep).len() && text::join(parts, sep)[j + 1]
                != sep,
    decreases parts.len(),
{
    let s = text::join(parts, sep);
    if parts.len() >= 1 {
        let first = parts[0];
        assert(!parts[0].contains(sep));
        assert(first.len() > 0);
        assert forall|j: int| 0 <= j < first.len() implies #[trigger] first[j] != sep by {
            assert(first.contains(first[j]));
        }
        if parts.len() > 1 {
            let rest = parts.skip(1);
            assert forall|i: int| 0 <= i < rest.len() implies !#[trigger] rest[i].contains(sep)
                && rest[i].len() > 0 by {
                assert(rest[i] == parts[i + 1]);
            }
            lemma_join_separators(rest, sep);
            let t = text::join(rest, sep);
            assert(s == first + seq![sep] + t);
            assert forall|j: int| 0 <= j < s.len() && #[trigger] s[j] == sep implies 0 < j && j + 1
                < s.len() && s[j + 1] != sep by {
                let n = first.len() as int;
                if j < n {
                    assert(s[j] == first[j]);
                } else if j == n {
                    assert(s[j + 1] == t[0]);
                } else {
                    assert(s[j] == t[j - n - 1]);
                    assert(s[j + 1] == t[j - n]);
                }
            }
        }
    }
}

proof fn lemma_hex_list(g: Seq<int>)
    requires
        forall|i: int| 0 <= i < g.len() ==> 0 <= #[trigger] g[i] < 65536,
    ensures
        side_groups(hex_list(g), false) == Some(g),
        side_groups(hex_list(g), true) == Some(g),
        forall|j: int|
            0 <= j < hex_list(g).len() && #[trigger] hex_list(g)[j] == ':' ==> 0 < j && j + 1
                < hex_list(g).len() && hex_list(g)[j + 1] != ':',
{
    let parts = g.map_values(|v: int| hex(v as nat));
    assert forall|i: int| 0 <= i < parts.len() implies !#[trigger] parts[i].contains(':')
        && parts[i].len() > 0 by {
        lemma_hex(g[i] as nat);
        assert(parts[i] == hex(g[i] as nat));
    }
    lemma_join_separators(parts, ':');
    lemma_piece_groups(g, true);
    lemma_piece_groups(g, false);
    if g.len() > 0 {
        text::lemma_split_join(parts, ':');
    } else {
        assert(g =~= Seq::<int>::empty());
    }
}

/// A dotted quad reads back as the two groups, and is neither a group nor
/// holds a colon.
proof fn lemma_dotted(high: int, low: int)
    requires
        0 <= high < 65536,
        0 <= low < 65536,
    ensures
        quad_groups(dotted(high, low)) == Some(seq![high, low]),
        group_value(dotted(high, low)) is None,
        !dotted(high, low).contains(':'),
        dotted(high, low).len() > 0,
        text::is_digit(dotted(high, low).last()),
{
    let a = text::decimal((high / 256) as nat);
    let b = text::decimal((high % 256) as nat);
    let c = text::decimal((low / 256) as nat);
    let d = text::decimal((low % 256) as nat);
    lemma_decimal((high / 256) as nat);
    lemma_decimal((high % 256) as nat);
    lemma_decimal((low / 256) as nat);
    lemma_decimal((low % 256) as nat);
    let parts = seq![a, b, c, d];
    assert forall|i: int| 0 <= i < 4 implies !#[trigger] parts[i].contains('.') by {
        assert(parts[i] == a || parts[i] == b || parts[i] == c || parts[i] == d);
    }
    text::lemma_split_join(parts, '.');
    let s = dotted(high, low);
    reveal_with_fuel(text::join, 4);
    assert(parts.skip(1) =~= seq![b, c, d]);
    assert(parts.skip(1).skip(1) =~= seq![c, d]);
    assert(parts.skip(1).skip(1).skip(1) =~= seq![d]);
    assert(s =~= a + seq!['.'] + (b + seq!['.'] + (c + seq!['.'] + d)));
    assert(s[a.len() as int] == '.');
    assert(text::hex_value('.') is None);
    assert(s.last() == d.last());
    let dot = seq!['.'];
    assert forall|j: int| 0 <= j < s.len() implies #[trigger] s[j] != ':' by {
        let n1 = a.len() as int;
        let n2 = n1 + 1 + b.len();
        let n3 = n2 + 1 + c.len();
        if j < n1 {
            assert(s[j] == a[j]);
        } else if n1 < j < n2 {
            assert(s[j] == b[j - n1 - 1]);
        } else if n2 < j < n3 {
            assert(s[j] == c[j - n2 - 1]);
        } else if n3 < j {
            assert(s[j] == d[j - n3 - 1]);
        } else {
            assert(s[j] == dot[0]);
        }
    }
}

proof fn lemma_mapped(g: Seq<int>)
    requires
        is_address(g),
        is_mapped(g),
    ensures
        parse_ipv6(ipv6_text(g)) == Some(g),
{
    let s = ipv6_text(g);
    let q = dotted(g[6], g[7]);
    let colons = seq![':', ':'];
    reveal_strlit("::ffff:");
    lemma_dotted(g[6], g[7]);
    assert(s.subrange(0, 2) =~= colons);
    assert(text::occurs_at(s, colons, 0));
    assert(text::find_text(s, colons, 0) == Some(0int));
    assert(s.take(0) =~= Seq::<char>::empty());
    let f = seq!['f', 'f', 'f', 'f'];
    let parts = seq![f, q];
    let tail = s.skip(2);
    assert(parts.skip(1) =~= seq![q]);
    reveal_with_fuel(text::join, 2);
    assert(tail =~= f + seq![':'] + q);
    assert(tail == text::join(parts, ':'));
    assert forall|i: int| 0 <= i < 2 implies !#[trigger] parts[i].contains(':') by {
        assert(parts[i] == f || parts[i] == q);
    }
    text::lemma_split_join(parts, ':');
    assert(group_value(f) == Some(0xffffint)) by {
        reveal_with_fuel(hex_number, 5);
        assert(f.drop_last() =~= seq!['f', 'f', 'f']);
        assert(f.drop_last().drop_last() =~= seq!['f', 'f']);
        assert(f.drop_last().drop_last().drop_last() =~= seq!['f']);
        assert(f.drop_last().drop_last().drop_last().drop_last() =~= Seq::<char>::empty());
    }
    assert(parts.drop_last() =~= seq![f]);
    assert(seq![f].drop_last() =~= Seq::<Seq<char>>::empty());
    reveal_with_fuel(piece_groups, 3);
    assert(piece_groups(seq![f], false) == Some(seq![0xffffint])) by {
        assert(Seq::<int>::empty().push(0xffff) =~= seq![0xffffint]);
    }
    let t = seq![0xffffint] + seq![g[6], g[7]];
    assert(side_groups(tail, true) == Some(t));
    assert(Seq::<int>::empty() + zeros(5) + t =~= g) by {
        assert forall|k: int| 0 <= k < 5 implies #[trigger] g[k] == 0 by {
            assert(g.take(5)[k] == zeros(5)[k]);
        }
    }
}

/// Capital and small hexadecimal digits mean the same.
pub proof fn law_parse_ignores_case(s: Seq<char>)
    ensures
        parse_ipv6(text::lower_all(s)) == parse_ipv6(s),
        quad_groups(text::lower_all(s)) == quad_groups(s),
{
    let t = text::lower_all(s);
    let colons = seq![':', ':'];
    lemma_quad_lower(s);
    assert forall|i: int| text::occurs_at(t, colons, i) == #[trigger] text::occurs_at(s, colons, i) by {
        if 0 <= i && i + 2 <= s.len() {
            assert(t[i] == text::lower(s[i]) && t[i + 1] == text::lower(s[i + 1]));
            let a = s.subrange(i, i + 2);
            let b = t.subrange(i, i + 2);
            assert(a == colons <==> s[i] == ':' && s[i + 1] == ':') by {
                if s[i] == ':' && s[i + 1] == ':' {
                    assert(a =~= colons);
                }
                if a == colons {
                    assert(a[0] == ':' && a[1] == ':');
                }
            }
            assert(b == colons <==> t[i] == ':' && t[i + 1] == ':') by {
                if t[i] == ':' && t[i + 1] == ':' {
                    assert(b =~= colons);
                }
                if b == colons {
                    assert(b[0] == ':' && b[1] == ':');
                }
            }
        }
    }
    lemma_find_same(s, t, colons, 0);
    match text::find_text(s, colons, 0) {
        None => {
            lemma_side_lower(s, true);
        },
        Some(i) => {
            text::lemma_find_text(s, colons, 0);
            assert(t.take(i) =~= text::lower_all(s.take(i)));
            assert(t.skip(i + 2) =~= text::lower_all(s.skip(i + 2)));
            lemma_side_lower(s.take(i), false);
            lemma_side_lower(s.skip(i + 2), true);
        },
    }
}

proof fn lemma_find_same(a: Seq<char>, b: Seq<char>, pat: Seq<char>, from: int)
    requires
        a.len() == b.len(),
        forall|i: int| text::occurs_at(b, pat, i) == #[trigger] text::occurs_at(a, pat, i),
    ensures
        text::find_text(b, pat, from) == text::find_text(a, pat, from),
    decreases a.len() + 1 - from,
{
    if from <= a.len() {
        assert(text::occurs_at(b, pat, from) == text::occurs_at(a, pat, from));
        lemma_find_same(a, b, pat, from + 1);
    }
}

proof fn lemma_side_lower(s: Seq<char>, quad: bool)
    ensures
        side_groups(text::lower_all(s), quad) == side_groups(s, quad),
{
    if s.len() > 0 {
        text::lemma_split_lower(s, ':');
        lemma_pieces_lower(
            text::split(s, ':'),
            text::split(text::lower_all(s), ':'),
            quad,
        );
    }
}

proof fn lemma_pieces_lower(a: Seq<Seq<char>>, b: Seq<Seq<char>>, quad: bool)
    requires
        a.len() == b.len(),
        forall|i: int| 0 <= i < a.len() ==> #[trigger] b[i] == text::lower_all(a[i]),
    ensures
        piece_groups(b, quad) == piece_groups(a, quad),
    decreases a.len(),
{
    if a.len() > 0 {
        assert forall|i: int| 0 <= i < a.len() - 1 implies #[trigger] b.drop_last()[i]
            == text::lower_all(a.drop_last()[i]) by {
            assert(b[i] == text::lower_all(a[i]));
        }
        lemma_pieces_lower(a.drop_last(), b.drop_last(), false);
        assert(b[a.len() - 1] == text::lower_all(a[a.len() - 1]));
        lemma_group_lower(a.last());
        lemma_quad_lower(a.last());
    }
}

proof fn lemma_group_lower(s: Seq<char>)
    ensures
        group_value(text::lower_all(s)) == group_value(s),
{
    let t = text::lower_all(s);
    assert forall|i: int| 0 <= i < s.len() implies text::hex_value(#[trigger] t[i])
        == text::hex_value(s[i]) by {
        assert(t[i] == text::lower(s[i]));
    }
    assert(forall|i: int| 0 <= i < s.len() ==> text::hex_value(#[trigger] s[i]) == text::hex_value(
        t[i],
    ));
    lemma_hex_number_lower(s);
}

proof fn lemma_hex_number_lower(s: Seq<char>)
    ensures
        hex_number(text::lower_all(s)) == hex_number(s),
    decreases s.len(),
{
    if s.len() > 0 {
        let t = text::lower_all(s);
        assert(t.drop_last() =~= text::lower_all(s.drop_last()));
        lemma_hex_number_lower(s.drop_last());
        assert(t.last() == text::lower(s.last()));
    }
}

proof fn lemma_quad_lower(s: Seq<char>)
    ensures
        quad_groups(text::lower_all(s)) == quad_groups(s),
{
    let t = text::lower_all(s);
    let p = text::split(s, '.');
    let q = text::split(t, '.');
    text::lemma_split_lower(s, '.');
    if p.len() == 4 {
        assert(q[0] == text::lower_all(p[0]));
        assert(q[1] == text::lower_all(p[1]));
        assert(q[2] == text::lower_all(p[2]));
        assert(q[3] == text::lower_all(p[3]));
        lemma_octet_lower(p[0]);
        lemma_octet_lower(p[1]);
        lemma_octet_lower(p[2]);
        lemma_octet_lower(p[3]);
    }
}

proof fn lemma_octet_lower(s: Seq<char>)
    ensures
        octet_value(text::lower_all(s)) == octet_value(s),
{
    let t = text::lower_all(s);
    assert forall|i: int| 0 <= i < s.len() implies text::is_digit(#[trigger] t[i])
        == text::is_digit(s[i]) && (text::is_digit(s[i]) ==> t[i] == s[i]) by {
        assert(t[i] == text::lower(s[i]));
    }
    if forall|i: int| 0 <= i < s.len() ==> text::is_digit(#[trigger] s[i]) {
        assert forall|i: int| 0 <= i < s.len() implies t[i] == s[i] by {
            assert(text::is_digit(s[i]));
        }
        assert(t =~= s);
    } else {
        let k = choose|k: int| 0 <= k < s.len() && !text::is_digit(#[trigger] s[k]);
        assert(!text::is_digit(t[k]));
    }
}

/// Whether `l` zero groups stand from position `i` on.
pub open spec fn is_zero_run(g: Seq<int>, i: int, l: int) -> bool {
    0 <= i && 0 < l && i + l <= g.len() && forall|j: int| i <= j < i + l ==> #[trigger] g[j] == 0
}

/// The canonical spelling of an address: an IPv4 address mapped into IPv6 ends in
/// dotted decimal; else the longest run of at least two zero groups, and the first
/// of those that are equally long, is written `::`, and the groups before and
/// behind it in hexadecimal with colons between them.
pub proof fn law_how_an_address_is_spelled(g: Seq<int>, start: int, len: int)
    requires
        is_address(g),
        0 <= start <= 8,
        0 <= len,
        len > 0 ==> is_zero_run(g, start, len),
        forall|i: int, l: int|
            #[trigger] is_zero_run(g, i, l) ==> l < len || l == len && start <= i,
    ensures
        ({
            let mapped = g[0] == 0 && g[1] == 0 && g[2] == 0 && g[3] == 0 && g[4] == 0 && g[5]
                == 65535;
            let spell = |v: int| hex(v as nat);
            &&& mapped ==> ipv6_text(g) == "::ffff:"@ + text::decimal((g[6] / 256) as nat) + seq![
                '.',
            ] + text::decimal((g[6] % 256) as nat) + seq!['.'] + text::decimal(
                (g[7] / 256) as nat,
            ) + seq!['.'] + text::decimal((g[7] % 256) as nat)
            &&& !mapped && len >= 2 ==> ipv6_text(g) == text::join(
                g.take(start).map_values(spell),
                ':',
            ) + seq![':', ':'] + text::join(g.skip(start + len).map_values(spell), ':')
            &&& !mapped && len < 2 ==> ipv6_text(g) == text::join(g.map_values(spell), ':')
        }),
{
    reveal_strlit("::");
    assert("::"@ =~= seq![':', ':']);
    let mapped = g[0] == 0 && g[1] == 0 && g[2] == 0 && g[3] == 0 && g[4] == 0 && g[5] == 65535;
    assert(mapped <==> is_mapped(g)) by {
        if mapped {
            assert(g.take(5) =~= zeros(5));
        }
        if is_mapped(g) {
            assert forall|k: int| 0 <= k < 5 implies #[trigger] g[k] == 0 by {
                assert(g.take(5)[k] == zeros(5)[k]);
            }
            assert(g[0] == 0 && g[1] == 0 && g[2] == 0 && g[3] == 0 && g[4] == 0);
        }
    }
    if mapped {
        let a = text::decimal((g[6] / 256) as nat);
        let b = text::decimal((g[6] % 256) as nat);
        let c = text::decimal((g[7] / 256) as nat);
        let d = text::decimal((g[7] % 256) as nat);
        let parts = seq![a, b, c, d];
        reveal_with_fuel(text::join, 4);
        assert(parts.skip(1) =~= seq![b, c, d]);
        assert(parts.skip(1).skip(1) =~= seq![c, d]);
        assert(parts.skip(1).skip(1).skip(1) =~= seq![d]);
        assert(ipv6_text(g) =~= "::ffff:"@ + a + seq!['.'] + b + seq!['.'] + c + seq!['.'] + d);
    } else {
        let best = longest_run(g, 8);
        lemma_longest_run(g, 8);
        lemma_longest_is_first(g, 8);
        lemma_zero_run(g, best);
        let found = zero_run(g, best);
        if found > 0 {
            assert(is_zero_run(g, best, found));
        }
        if len > 0 {
            assert(is_zero_run(g, start, len));
            lemma_zero_run_is_longest(g, start, len);
            lemma_zero_run(g, start);
            assert(is_zero_run(g, start, zero_run(g, start)));
            assert(found == len && best == start);
        }
    }
}

proof fn lemma_zero_run_is_longest(g: Seq<int>, i: int, l: int)
    requires
        is_zero_run(g, i, l),
    ensures
        zero_run(g, i) >= l,
    decreases l,
{
    assert(g[i] == 0);
    if l > 1 {
        assert(is_zero_run(g, i + 1, l - 1));
        lemma_zero_run_is_longest(g, i + 1, l - 1);
    } else {
        lemma_zero_run(g, i + 1);
    }
}

proof fn lemma_longest_is_first(g: Seq<int>, n: int)
    requires
        1 <= n <= g.len(),
    ensures
        forall|i: int|
            0 <= i < n ==> #[trigger] zero_run(g, i) <= zero_run(g, longest_run(g, n)),
        forall|i: int|
            0 <= i < longest_run(g, n) ==> #[trigger] zero_run(g, i) < zero_run(
                g,
                longest_run(g, n),
            ),
    decreases n,
{
    lemma_longest_run(g, n);
    if n > 1 {
        lemma_longest_is_first(g, n - 1);
        lemma_longest_run(g, n - 1);
    } else {
        assert(longest_run(g, 0) == 0);
    }
}

/// A group is spelled in small hexadecimal digits, without leading zeros, and
/// reads back as itself.
pub proof fn law_how_a_group_is_spelled(n: nat)
    requires
        n < 65536,
    ensures
        1 <= hex(n).len() <= 4,
        forall|i: int|
            0 <= i < hex(n).len() ==> '0' <= #[trigger] hex(n)[i] <= '9' || 'a' <= hex(n)[i]
                <= 'f',
        n > 0 ==> hex(n)[0] != '0',
        hex_number(hex(n)) == n,
{
    lemma_hex(n);
    lemma_no_leading_zero(n);
    assert forall|i: int| 0 <= i < hex(n).len() implies '0' <= #[trigger] hex(n)[i] <= '9' || 'a'
        <= hex(n)[i] <= 'f' by {
        assert(is_hex_lower(hex(n)[i]));
    }
}

proof fn lemma_no_leading_zero(n: nat)
    ensures
        hex(n).len() > 0,
        n > 0 ==> hex(n)[0] != '0',
    decreases n,
{
    if n >= 16 {
        lemma_no_leading_zero(n / 16);
        assert(hex(n)[0] == hex(n / 16)[0]);
    }
}

/// A number is spelled in decimal digits, without leading zeros, and reads back
/// as itself.
pub proof fn law_how_a_number_is_spelled(n: nat)
    ensures
        text::decimal(n).len() > 0,
        forall|i: int|
            0 <= i < text::decimal(n).len() ==> '0' <= #[trigger] text::decimal(n)[i] <= '9',
        n > 0 ==> text::decimal(n)[0] != '0',
        decimal_number(text::decimal(n)) == n,
    decreases n,
{
    let s = text::decimal(n);
    if n >= 10 {
        law_how_a_number_is_spelled(n / 10);
        assert(s.drop_last() == text::decimal(n / 10));
        assert(s[0] == text::decimal(n / 10)[0]);
        assert forall|i: int| 0 <= i < s.len() implies '0' <= #[trigger] s[i] <= '9' by {
            if i < s.len() - 1 {
                assert(s[i] == text::decimal(n / 10)[i]);
            }
        }
    } else {
        assert(s.drop_last() =~= Seq::<char>::empty());
        assert(decimal_number(s.drop_last()) == 0);
    }
}

/// Numbers are read digit by digit: ten times what stands before a digit, and the
/// digit; sixteen times for hexadecimal ones, in either case.
pub proof fn law_how_numbers_are_read(s: Seq<char>, c: char)
    ensures
        decimal_number(Seq::empty()) == 0,
        hex_number(Seq::empty()) == 0,
        decimal_number(s.push(c)) == decimal_number(s) * 10 + (c as int - 48),
        48 <= c as int <= 57 ==> hex_number(s.push(c)) == hex_number(s) * 16 + (c as int - 48),
        97 <= c as int <= 102 ==> hex_number(s.push(c)) == hex_number(s) * 16 + (c as int - 87),
        65 <= c as int <= 70 ==> hex_number(s.push(c)) == hex_number(s) * 16 + (c as int - 55),
{
    assert(s.push(c).drop_last() =~= s);
}

} // verus!
