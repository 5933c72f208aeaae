//! Percent encoding and the canonical form of credential paths.
//!
//! Credentials are injected by path: a route owns a path and everything below
//! it. Two routes may only coexist where neither owns what the other owns, so
//! paths are compared in a canonical form in which one resource has one
//! spelling.

use vstd::prelude::*;
use crate::text;

verus! {

/// Characters that mean the same whether or not they are percent-encoded.
pub open spec fn is_unreserved(c: char) -> bool {
    text::is_alnum(c) || c == '-' || c == '.' || c == '_' || c == '~'
}

/// The capital hexadecimal digit of a value below sixteen.
pub open spec fn hex_upper(v: int) -> char {
    if v < 10 {
        ('0' as int + v) as char
    } else {
        ('A' as int + v - 10) as char
    }
}

/// The value of the two hexadecimal digits behind the `%` at the start of `s`.
pub open spec fn triplet(s: Seq<char>) -> Option<int> {
    if s.len() < 3 || s[0] != '%' || text::hex_value(s[1]) is None || text::hex_value(s[2]) is None {
        None
    } else {
        Some(text::hex_value(s[1])->0 * 16 + text::hex_value(s[2])->0)
    }
}

/// How the canonical form spells an encoded byte: as itself where the encoding
/// changes nothing, else as a triplet with capital digits.
pub open spec fn canonical_byte(b: int) -> Seq<char> {
    if is_unreserved(b as char) {
        seq![b as char]
    } else {
        seq!['%', hex_upper(b / 16), hex_upper(b % 16)]
    }
}

/// `front` put before a result that is a text.
pub open spec fn prefixed(
    front: Seq<char>,
    rest: Result<Seq<char>, Seq<char>>,
) -> Result<Seq<char>, Seq<char>> {
    match rest {
        Ok(t) => Ok(front + t),
        Err(e) => Err(e),
    }
}

/// `s` with each triplet in its canonical spelling, or the fault of the first
/// triplet that may not stand in a credential path.
pub open spec fn respell(s: Seq<char>) -> Result<Seq<char>, Seq<char>>
    decreases s.len(),
{
    if s.len() == 0 {
        Ok(Seq::empty())
    } else if s[0] != '%' {
        prefixed(seq![s[0]], respell(s.skip(1)))
    } else {
        match triplet(s) {
            None => Err("credential path contains malformed percent encoding"@),
            Some(b) => if b < 32 || b == 127 {
                Err("credential path contains an encoded control byte"@)
            } else if b == '\\' as int || b == '%' as int {
                Err("credential path contains an encoded backslash or nested percent encoding"@)
            } else {
                prefixed(canonical_byte(b), respell(s.skip(3)))
            },
        }
    }
}

/// Whether a path segment of `s` is `.` or `..`.
pub open spec fn has_dot_segment(s: Seq<char>) -> bool {
    exists|i: int|
        0 <= i < text::split(s, '/').len() && (#[trigger] text::split(s, '/')[i] == seq!['.'] || text::split(
            s,
            '/',
        )[i] == seq!['.', '.'])
}

/// The canonical form of a credential path, or why it has none.
pub open spec fn canonical_path(path: Seq<char>) -> Result<Seq<char>, Seq<char>> {
    if path.len() == 0 || path[0] != '/' {
        Err("credential path must be absolute"@)
    } else if path.contains('\\') {
        Err("credential path contains a backslash"@)
    } else {
        match respell(path) {
            Err(e) => Err(e),
            Ok(s) => if has_dot_segment(s) {
                Err("credential path contains a dot segment"@)
            } else {
                Ok(s)
            },
        }
    }
}

/// A result whose texts are taken by their characters.
pub open spec fn text_result(r: Result<String, &'static str>) -> Result<Seq<char>, Seq<char>> {
    match r {
        Ok(s) => Ok(s@),
        Err(e) => Err(e@),
    }
}

fn hex_capital(v: u8) -> (c: char)
    requires
        v < 16,
    ensures
        c == hex_upper(v as int),
{
    if v < 10 {
        (48 + v) as char
    } else {
        (55 + v) as char
    }
}

fn dot_segments(v: &Vec<char>) -> (r: bool)
    ensures
        r == has_dot_segment(v@),
{
    let parts = text::split_text(v, '/');
    let ghost pieces = text::split(v@, '/');
    for i in 0..parts.len()
        invariant
            pieces == text::split(v@, '/'),
            pieces == parts@.map_values(|p: Vec<char>| p@),
            forall|j: int|
                0 <= j < i ==> #[trigger] pieces[j] != seq!['.'] && pieces[j] != seq!['.', '.'],
    {
        let p = &parts[i];
        assert(pieces[i as int] == p@);
        if p.len() == 1 && p[0] == '.' {
            assert(p@ =~= seq!['.']);
            return true;
        }
        if p.len() == 2 && p[0] == '.' && p[1] == '.' {
            assert(p@ =~= seq!['.', '.']);
            return true;
        }
    }
    false
}

/// Canonicalize a URL path for credential scope comparison.
///
/// Percent-encoded unreserved bytes are decoded, while all other encoded bytes
/// retain their URL path semantics with uppercase hexadecimal digits.
pub fn canonicalize_credential_path(path: &str) -> (r: Result<String, &'static str>)
    ensures
        text_result(r) == canonical_path(path@),
{
    let v = text::to_chars(path);
    if v.len() == 0 || v[0] != '/' {
        return Err("credential path must be absolute");
    }
    if text::member(&v, '\\') {
        return Err("credential path contains a backslash");
    }
    let mut canonical: Vec<char> = Vec::new();
    let mut i: usize = 0;
    assert(v@.skip(0) == v@);
    assert(prefixed(canonical@, respell(v@)) == respell(v@)) by {
        if let Ok(t) = respell(v@) {
            assert(Seq::<char>::empty() + t == t);
        }
    }
    while i < v.len()
        invariant
            i <= v@.len(),
            v@ == path@,
            respell(v@) == prefixed(canonical@, respell(v@.skip(i as int))),
            v@.len() > 0 && v@[0] == '/',
            !v@.contains('\\'),
        decreases v@.len() - i,
    {
        let ghost rest = v@.skip(i as int);
        let ghost before = canonical@;
        if v[i] != '%' {
            canonical.push(v[i]);
            i += 1;
            proof {
                assert(rest.skip(1) == v@.skip(i as int));
                lemma_prefixed(before, seq![rest[0]], respell(rest.skip(1)));
                assert(before + seq![rest[0]] == canonical@);
            }
            continue;
        }
        if v.len() - i < 3 {
            return Err("credential path contains malformed percent encoding");
        }
        let high = match text::hex_digit(v[i + 1]) {
            Some(h) => h,
            None => {
                return Err("credential path contains malformed percent encoding");
            },
        };
        let low = match text::hex_digit(v[i + 2]) {
            Some(l) => l,
            None => {
                return Err("credential path contains malformed percent encoding");
            },
        };
        let decoded: u8 = high * 16 + low;
        assert(triplet(rest) == Some(decoded as int));
        if decoded < 32 || decoded == 127 {
            return Err("credential path contains an encoded control byte");
        }
        if decoded == 92 || decoded == 37 {
            return Err("credential path contains an encoded backslash or nested percent encoding");
        }
        let c = decoded as char;
        if text::alnum(c) || c == '-' || c == '.' || c == '_' || c == '~' {
            canonical.push(c);
        } else {
            canonical.push('%');
            canonical.push(hex_capital(decoded / 16));
            canonical.push(hex_capital(decoded % 16));
        }
        i += 3;
        proof {
            assert(rest.skip(3) == v@.skip(i as int));
            lemma_prefixed(before, canonical_byte(decoded as int), respell(rest.skip(3)));
            assert(before + canonical_byte(decoded as int) == canonical@);
        }
    }
    assert(respell(v@) == Ok::<Seq<char>, Seq<char>>(canonical@)) by {
        assert(canonical@ + Seq::<char>::empty() == canonical@);
    }
    if dot_segments(&canonical) {
        return Err("credential path contains a dot segment");
    }
    Ok(text::from_chars(&canonical))
}

proof fn lemma_prefixed(a: Seq<char>, b: Seq<char>, r: Result<Seq<char>, Seq<char>>)
    ensures
        prefixed(a, prefixed(b, r)) == prefixed(a + b, r),
{
    if let Ok(t) = r {
        assert(a + (b + t) == a + b + t);
    }
}

/// Whether each `%` of `s` is followed by two hexadecimal digits.
pub open spec fn percent_encoding_ok(s: Seq<char>) -> bool {
    forall|i: int|
        0 <= i < s.len() && #[trigger] s[i] == '%' ==> i + 2 < s.len() && text::hex_value(
            s[i + 1],
        ) is Some && text::hex_value(s[i + 2]) is Some
}

/// Reject malformed percent triplets before a URL component is decoded.
pub fn validate_url_percent_encoding(value: &str) -> (r: Result<(), &'static str>)
    ensures
        r is Ok <==> percent_encoding_ok(value@),
        r matches Err(e) ==> e@ == "URL text contains malformed percent encoding"@,
{
    let v = text::to_chars(value);
    let mut i: usize = 0;
    while i < v.len()
        invariant
            v@ == value@,
            i <= v@.len(),
            forall|j: int|
                0 <= j < i && #[trigger] v@[j] == '%' ==> j + 2 < v@.len() && text::hex_value(
                    v@[j + 1],
                ) is Some && text::hex_value(v@[j + 2]) is Some,
        decreases v@.len() - i,
    {
        if v[i] != '%' {
            i += 1;
            continue;
        }
        if v.len() - i < 3 || text::hex_digit(v[i + 1]).is_none() || text::hex_digit(
            v[i + 2],
        ).is_none() {
            assert(v@[i as int] == '%');
            return Err("URL text contains malformed percent encoding");
        }
        i += 3;
    }
    Ok(())
}

/// Whether the scope `prefix` owns `path`: the path itself, or one below it.
pub open spec fn path_contains(prefix: Seq<char>, path: Seq<char>) -> bool {
    ||| prefix == seq!['/']
    ||| path == prefix
    ||| text::starts_with(path, prefix) && if prefix.len() > 0 && prefix.last() == '/' {
        true
    } else {
        path.len() > prefix.len() && path[prefix.len() as int] == '/'
    }
}

/// Whether one of two scopes owns something that the other owns.
pub open spec fn scopes_overlap(left: Seq<char>, right: Seq<char>) -> bool {
    path_contains(left, right) || path_contains(right, left)
}

pub fn credential_path_contains(prefix: &str, path: &str) -> (r: bool)
    ensures
        r == path_contains(prefix@, path@),
{
    let p = text::to_chars(prefix);
    let v = text::to_chars(path);
    if p.len() == 1 && p[0] == '/' {
        assert(p@ =~= seq!['/']);
        return true;
    }
    if text::same(prefix, path) {
        return true;
    }
    if !text::occurs(&v, &p, 0) {
        return false;
    }
    if p.len() > 0 && p[p.len() - 1] == '/' {
        true
    } else {
        v.len() > p.len() && v[p.len()] == '/'
    }
}

pub fn credential_paths_overlap(left: &str, right: &str) -> (r: bool)
    ensures
        r == scopes_overlap(left@, right@),
{
    credential_path_contains(left, right) || credential_path_contains(right, left)
}

/// A canonical path is its own canonical form.
pub proof fn law_canonical_path_is_a_fixed_point(path: Seq<char>)
    requires
        canonical_path(path) is Ok,
    ensures
        canonical_path(canonical_path(path)->Ok_0) == canonical_path(path),
{
    let q = canonical_path(path)->Ok_0;
    assert(!path.contains('\\'));
    assert(forall|i: int| 0 <= i < path.len() ==> #[trigger] path[i] != '\\');
    lemma_respell_fixed(path);
    assert(q[0] == '/') by {
        assert(respell(path) == prefixed(seq!['/'], respell(path.skip(1))));
    }
}

/// What `respell` gives is left as it is by a second pass, and holds no
/// backslash where the input holds none.
proof fn lemma_respell_fixed(s: Seq<char>)
    requires
        respell(s) is Ok,
        forall|i: int| 0 <= i < s.len() ==> #[trigger] s[i] != '\\',
    ensures
        respell(respell(s)->Ok_0) == respell(s),
        forall|i: int| 0 <= i < respell(s)->Ok_0.len() ==> #[trigger] respell(s)->Ok_0[i] != '\\',
    decreases s.len(),
{
    if s.len() > 0 {
        let q = respell(s)->Ok_0;
        if s[0] != '%' {
            let t = s.skip(1);
            assert(forall|i: int| 0 <= i < t.len() ==> #[trigger] t[i] == s[i + 1]);
            lemma_respell_fixed(t);
            let u = respell(t)->Ok_0;
            assert(q == seq![s[0]] + u);
            assert(q.skip(1) == u);
        } else {
            let b = triplet(s)->0;
            let t = s.skip(3);
            assert(forall|i: int| 0 <= i < t.len() ==> #[trigger] t[i] == s[i + 3]);
            lemma_respell_fixed(t);
            let u = respell(t)->Ok_0;
            assert(q == canonical_byte(b) + u);
            if is_unreserved(b as char) {
                assert(q.skip(1) == u);
            } else {
                assert(q[0] == '%' && q[1] == hex_upper(b / 16) && q[2] == hex_upper(b % 16));
                assert(triplet(q) == Some(b));
                assert(q.skip(3) == u);
            }
        }
    }
}

/// Respelling a text whose front can be respelled goes on behind that front.
proof fn lemma_respell_concat(a: Seq<char>, b: Seq<char>)
    requires
        respell(a) is Ok,
    ensures
        respell(a + b) == prefixed(respell(a)->Ok_0, respell(b)),
    decreases a.len(),
{
    if a.len() == 0 {
        assert(a + b == b);
        if let Ok(t) = respell(b) {
            assert(Seq::<char>::empty() + t == t);
        }
    } else {
        let n: int = if a[0] != '%' { 1 } else { 3 };
        let head = if a[0] != '%' { seq![a[0]] } else { canonical_byte(triplet(a)->0) };
        assert((a + b).skip(n) == a.skip(n) + b);
        lemma_respell_concat(a.skip(n), b);
        if a[0] == '%' {
            assert(triplet(a + b) == triplet(a));
        }
        lemma_prefixed(head, respell(a.skip(n))->Ok_0, respell(b));
    }
}

/// A path is respelled from left to right: what is respelled in two pieces is
/// respelled like the whole, and the first fault decides.
pub proof fn law_respelling_goes_from_left_to_right(a: Seq<char>, b: Seq<char>)
    requires
        respell(a) is Ok,
    ensures
        respell(a + b) == match respell(b) {
            Ok(t) => Ok(respell(a)->Ok_0 + t),
            Err(e) => Err(e),
        },
        respell(Seq::empty()) == Ok::<_, Seq<char>>(Seq::<char>::empty()),
{
    lemma_respell_concat(a, b);
}

/// A character that is no `%` stays as it is. A `%` stands before two
/// hexadecimal digits, or the path is malformed.
pub proof fn law_plain_characters_are_kept(s: Seq<char>)
    requires
        s.len() > 0,
    ensures
        s.len() == 1 && s[0] != '%' ==> respell(s) == Ok::<_, Seq<char>>(s),
        s[0] == '%' && (s.len() < 3 || text::hex_value(s[1]) is None || text::hex_value(
            s[2],
        ) is None) ==> respell(s) == Err::<Seq<char>, _>(
            "credential path contains malformed percent encoding"@,
        ),
{
    if s.len() == 1 && s[0] != '%' {
        assert(s.skip(1) =~= Seq::<char>::empty());
        assert(respell(s.skip(1)) == Ok::<Seq<char>, Seq<char>>(Seq::empty()));
        assert(seq![s[0]] + Seq::<char>::empty() =~= s);
    }
}

/// An encoded letter, digit, `-`, `.`, `_` or `~` is written as itself, and an
/// encoded control byte, backslash or percent sign is a fault. Any other encoded
/// byte stays encoded, with capital digits.
pub proof fn law_encoded_bytes(high: char, low: char)
    requires
        text::hex_value(high) is Some,
        text::hex_value(low) is Some,
    ensures
        ({
            let h = text::hex_value(high)->0;
            let l = text::hex_value(low)->0;
            let b = h * 16 + l;
            let capital = |v: int|
                if v < 10 {
                    (48 + v) as char
                } else {
                    (55 + v) as char
                };
            respell(seq!['%', high, low]) == if b < 32 || b == 127 {
                Err("credential path contains an encoded control byte"@)
            } else if b == 92 || b == 37 {
                Err("credential path contains an encoded backslash or nested percent encoding"@)
            } else if 48 <= b <= 57 || 65 <= b <= 90 || 97 <= b <= 122 || b == 45 || b == 46 || b
                == 95 || b == 126 {
                Ok(seq![b as char])
            } else {
                Ok(seq!['%', capital(h), capital(l)])
            }
        }),
{
    let s = seq!['%', high, low];
    let h = text::hex_value(high)->0;
    let l = text::hex_value(low)->0;
    let b = h * 16 + l;
    assert(s.skip(3) =~= Seq::<char>::empty());
    assert(respell(s.skip(3)) == Ok::<Seq<char>, Seq<char>>(Seq::empty()));
    assert(triplet(s) == Some(b));
    assert(canonical_byte(b) + Seq::<char>::empty() =~= canonical_byte(b));
    assert(b / 16 == h && b % 16 == l);
}

/// A path has a canonical form exactly when it is absolute, holds no backslash,
/// can be respelled, and no segment of it is then `.` or `..`. The form is what
/// the path is respelled as.
pub proof fn law_which_paths_are_canonical(path: Seq<char>, segments: Seq<Seq<char>>)
    requires
        segments.len() > 0,
        forall|i: int| 0 <= i < segments.len() ==> !#[trigger] segments[i].contains('/'),
    ensures
        path.len() == 0 || path[0] != '/' ==> canonical_path(path) == Err::<Seq<char>, _>(
            "credential path must be absolute"@,
        ),
        path.len() > 0 && path[0] == '/' && path.contains('\\') ==> canonical_path(path) == Err::<
            Seq<char>,
            _,
        >("credential path contains a backslash"@),
        path.len() > 0 && path[0] == '/' && !path.contains('\\') ==> match respell(path) {
            Err(e) => canonical_path(path) == Err::<Seq<char>, _>(e),
            Ok(s) => s == seq!['/'] + text::join(segments, '/') ==> canonical_path(path) == if exists|
                i: int,
            |
                0 <= i < segments.len() && (#[trigger] segments[i] == seq!['.'] || segments[i]
                    == seq!['.', '.']) {
                Err("credential path contains a dot segment"@)
            } else {
                Ok(s)
            },
        },
{
    let s = seq!['/'] + text::join(segments, '/');
    let all = seq![Seq::<char>::empty()] + segments;
    assert(all.skip(1) =~= segments);
    assert(text::join(all, '/') =~= s);
    assert forall|i: int| 0 <= i < all.len() implies !#[trigger] all[i].contains('/') by {
        if i > 0 {
            assert(all[i] == segments[i - 1]);
        }
    }
    text::lemma_split_join(all, '/');
    assert(has_dot_segment(s) <==> exists|i: int|
        0 <= i < segments.len() && (#[trigger] segments[i] == seq!['.'] || segments[i] == seq![
            '.',
            '.',
        ])) by {
        if has_dot_segment(s) {
            let k = choose|k: int|
                0 <= k < text::split(s, '/').len() && (#[trigger] text::split(s, '/')[k] == seq![
                    '.',
                ] || text::split(s, '/')[k] == seq!['.', '.']);
            assert(all[k].len() > 0);
            assert(segments[k - 1] == all[k]);
        }
        if exists|i: int|
            0 <= i < segments.len() && (#[trigger] segments[i] == seq!['.'] || segments[i] == seq![
                '.',
                '.',
            ]) {
            let i = choose|i: int|
                0 <= i < segments.len() && (#[trigger] segments[i] == seq!['.'] || segments[i]
                    == seq!['.', '.']);
            assert(text::split(s, '/')[i + 1] == segments[i]);
        }
    }
}

/// A `%` without two hexadecimal digits behind it makes a text malformed, and one
/// with them, where it is the only one, does not.
pub proof fn law_percent_signs_stand_before_two_digits(s: Seq<char>, i: int)
    requires
        0 <= i < s.len(),
        s[i] == '%',
    ensures
        i + 2 >= s.len() ==> !percent_encoding_ok(s),
        i + 2 < s.len() && (text::hex_value(s[i + 1]) is None || text::hex_value(s[i + 2]) is None)
            ==> !percent_encoding_ok(s),
        (forall|k: int| 0 <= k < s.len() && k != i ==> #[trigger] s[k] != '%') && i + 2 < s.len()
            && text::hex_value(s[i + 1]) is Some && text::hex_value(s[i + 2]) is Some
            ==> percent_encoding_ok(s),
{
}

/// A text without `%` is well encoded.
pub proof fn law_text_without_percent_is_well_encoded(s: Seq<char>)
    requires
        !s.contains('%'),
    ensures
        percent_encoding_ok(s),
{
    assert forall|i: int| 0 <= i < s.len() && #[trigger] s[i] == '%' implies false by {
        assert(s.contains(s[i]));
    }
}

/// A scope owns its own path and what stands behind a slash below it, and nothing
/// else; a scope that ends in a slash owns whatever starts with it, and the root
/// owns everything.
pub proof fn law_what_a_scope_owns(scope: Seq<char>, path: Seq<char>, rest: Seq<char>)
    requires
        scope.len() > 0,
    ensures
        path_contains(scope, scope),
        path_contains(scope, scope.push('/') + rest),
        scope.last() == '/' ==> path_contains(scope, scope + rest),
        path_contains(seq!['/'], path),
        scope != seq!['/'] && path_contains(scope, path) ==> scope.is_prefix_of(path),
        scope.last() != '/' && rest.len() > 0 && rest[0] != '/' ==> !path_contains(
            scope,
            scope + rest,
        ),
        scopes_overlap(scope, path) <==> path_contains(scope, path) || path_contains(path, scope),
{
    let n = scope.len() as int;
    assert((scope.push('/') + rest).subrange(0, n) =~= scope);
    assert((scope + rest).subrange(0, n) =~= scope);
    if scope != seq!['/'] && path_contains(scope, path) {
        assert(scope.is_prefix_of(path));
    }
    if scope.last() != '/' && rest.len() > 0 && rest[0] != '/' {
        assert((scope + rest)[n] == rest[0]);
        assert((scope + rest).len() > scope.len());
        assert(scope != seq!['/']);
    }
}

/// Percent-encoding an unreserved character, in either digit case, does not
/// change the canonical path: one resource has one spelling.
pub proof fn law_encoded_unreserved_is_the_same_path(
    front: Seq<char>,
    high: char,
    low: char,
    back: Seq<char>,
)
    requires
        respell(front) is Ok,
        triplet(seq!['%', high, low]) matches Some(b) && is_unreserved(b as char),
    ensures
        canonical_path(front + seq!['%', high, low] + back) == canonical_path(
            front + seq![triplet(seq!['%', high, low])->0 as char] + back,
        ),
{
    let enc = seq!['%', high, low];
    let b = triplet(enc)->0;
    let raw = seq![b as char];
    assert(respell(enc) == Ok::<Seq<char>, Seq<char>>(raw)) by {
        reveal_with_fuel(respell, 2);
        assert(enc.skip(3) == Seq::<char>::empty());
        assert(raw + Seq::<char>::empty() == raw);
    }
    assert(respell(raw) == Ok::<Seq<char>, Seq<char>>(raw)) by {
        reveal_with_fuel(respell, 2);
        assert(raw.skip(1) == Seq::<char>::empty());
        assert(raw + Seq::<char>::empty() == raw);
    }
    lemma_same_respelling(front, enc, raw, back);
}

/// The case of the hexadecimal digits does not change the canonical path.
pub proof fn law_digit_case_is_the_same_path(
    front: Seq<char>,
    one: Seq<char>,
    other: Seq<char>,
    back: Seq<char>,
)
    requires
        respell(front) is Ok,
        one.len() == 3,
        other.len() == 3,
        triplet(one) is Some,
        triplet(one) == triplet(other),
        respell(one) is Ok,
    ensures
        canonical_path(front + one + back) == canonical_path(front + other + back),
{
    assert(one.skip(3) == Seq::<char>::empty());
    assert(other.skip(3) == Seq::<char>::empty());
    lemma_same_respelling(front, one, other, back);
}

/// What stands at the front of a text: a character, written as itself or encoded
/// where that changes nothing, or another encoded byte.
pub ghost enum Spelled {
    Character(char),
    Byte(int),
}

/// What stands at the front of `s`; none where that is a malformed triplet.
pub open spec fn front_of(s: Seq<char>) -> Option<Spelled> {
    if s[0] != '%' {
        Some(Spelled::Character(s[0]))
    } else {
        match triplet(s) {
            None => None,
            Some(b) => if is_unreserved(b as char) {
                Some(Spelled::Character(b as char))
            } else {
                Some(Spelled::Byte(b))
            },
        }
    }
}

/// `s` without what stands at its front.
pub open spec fn behind_front(s: Seq<char>) -> Seq<char> {
    if s[0] != '%' {
        s.skip(1)
    } else {
        s.skip(3)
    }
}

/// Whether two texts hold the same characters and bytes in the same order,
/// however their triplets are written and whichever of their unreserved
/// characters are encoded.
pub open spec fn spell_the_same(p: Seq<char>, q: Seq<char>) -> bool
    decreases p.len(),
{
    if p.len() == 0 || q.len() == 0 {
        p.len() == 0 && q.len() == 0
    } else {
        &&& front_of(p) is Some
        &&& front_of(p) == front_of(q)
        &&& spell_the_same(behind_front(p), behind_front(q))
    }
}

/// One resource has one canonical path: texts that spell the same path have the
/// same canonical form, or the same fault.
pub proof fn law_one_path_however_it_is_spelled(p: Seq<char>, q: Seq<char>)
    requires
        spell_the_same(p, q),
    ensures
        canonical_path(p) == canonical_path(q),
{
    lemma_spelled_the_same(p, q);
    if p.len() > 0 {
        assert(p[0] == '/' <==> q[0] == '/');
    }
}

proof fn lemma_spelled_the_same(p: Seq<char>, q: Seq<char>)
    requires
        spell_the_same(p, q),
    ensures
        respell(p) == respell(q),
        p.contains('\\') == q.contains('\\'),
    decreases p.len(),
{
    if p.len() > 0 {
        lemma_spelled_the_same(behind_front(p), behind_front(q));
        lemma_front_and_backslash(p);
        lemma_front_and_backslash(q);
    }
}

/// A backslash stands at the front, or behind it.
proof fn lemma_front_and_backslash(s: Seq<char>)
    requires
        s.len() > 0,
        front_of(s) is Some,
    ensures
        s.contains('\\') <==> front_of(s) == Some(Spelled::Character('\\')) || behind_front(
            s,
        ).contains('\\'),
{
    let t = behind_front(s);
    let n: int = if s[0] != '%' { 1 } else { 3 };
    if s.contains('\\') {
        let i = s.index_of('\\');
        if i >= n {
            assert(t[i - n] == '\\');
        } else {
            assert(s[i] == '\\');
        }
    }
    if t.contains('\\') {
        let i = t.index_of('\\');
        assert(s[i + n] == '\\');
    }
    if s[0] == '\\' {
        assert(s.contains('\\'));
    }
}

/// An encoded slash is no slash: writing one in its place gives another path.
pub proof fn law_encoded_slash_is_no_slash(front: Seq<char>, slash: Seq<char>, back: Seq<char>)
    requires
        respell(front) is Ok,
        slash.len() == 3,
        triplet(slash) == Some('/' as int),
        canonical_path(front + slash + back) is Ok,
    ensures
        canonical_path(front + seq!['/'] + back) != canonical_path(front + slash + back),
{
    let raw = seq!['/'];
    let p = front + slash + back;
    let q = front + raw + back;
    assert(respell(slash) == Ok::<Seq<char>, Seq<char>>(canonical_byte('/' as int))) by {
        reveal_with_fuel(respell, 2);
        assert(slash.skip(3) == Seq::<char>::empty());
        assert(canonical_byte('/' as int) + Seq::<char>::empty() == canonical_byte('/' as int));
    }
    assert(respell(raw) == Ok::<Seq<char>, Seq<char>>(raw)) by {
        reveal_with_fuel(respell, 2);
        assert(raw.skip(1) == Seq::<char>::empty());
        assert(raw + Seq::<char>::empty() == raw);
    }
    lemma_respell_concat(front, slash);
    lemma_respell_concat(front, raw);
    lemma_respell_concat(front + slash, back);
    lemma_respell_concat(front + raw, back);
    let f = respell(front)->Ok_0;
    let b = respell(back)->Ok_0;
    let one = f + canonical_byte('/' as int) + b;
    let other = f + raw + b;
    assert(respell(p) == Ok::<Seq<char>, Seq<char>>(one));
    assert(respell(q) == Ok::<Seq<char>, Seq<char>>(other));
    assert(one[f.len() as int] == '%');
    assert(other[f.len() as int] == '/');
}

/// Two middles that respell alike give the same canonical path.
proof fn lemma_same_respelling(front: Seq<char>, x: Seq<char>, y: Seq<char>, back: Seq<char>)
    requires
        respell(front) is Ok,
        respell(x) is Ok,
        respell(x) == respell(y),
        x.len() > 0,
        y.len() > 0,
        x[0] != '/' && y[0] != '/',
        forall|i: int| 0 <= i < x.len() ==> #[trigger] x[i] != '\\',
        forall|i: int| 0 <= i < y.len() ==> #[trigger] y[i] != '\\',
    ensures
        canonical_path(front + x + back) == canonical_path(front + y + back),
{
    let p = front + x + back;
    let q = front + y + back;
    lemma_respell_concat(front, x);
    lemma_respell_concat(front, y);
    lemma_respell_concat(front + x, back);
    lemma_respell_concat(front + y, back);
    assert(front.len() > 0 ==> p[0] == front[0] && q[0] == front[0]);
    assert(front.len() == 0 ==> p[0] == x[0] && q[0] == y[0]);
    lemma_contains_in_middle(front, x, back, '\\');
    lemma_contains_in_middle(front, y, back, '\\');
}

proof fn lemma_contains_in_middle(front: Seq<char>, x: Seq<char>, back: Seq<char>, c: char)
    requires
        forall|i: int| 0 <= i < x.len() ==> #[trigger] x[i] != c,
    ensures
        (front + x + back).contains(c) <==> front.contains(c) || back.contains(c),
{
    let p = front + x + back;
    if front.contains(c) {
        let i = front.index_of(c);
        assert(p[i] == c);
    }
    if back.contains(c) {
        let i = back.index_of(c);
        assert(p[front.len() + x.len() + i] == c);
    }
    if p.contains(c) {
        let i = p.index_of(c);
        if i < front.len() {
            assert(front[i] == c);
        } else if i < front.len() + x.len() {
            assert(x[i - front.len()] == c);
        } else {
            assert(back[i - front.len() - x.len()] == c);
        }
    }
}

/// Owning is a preorder on absolute paths: a scope owns itself, and it owns
/// whatever is owned by something that it owns.
pub proof fn law_path_contains_is_a_preorder(a: Seq<char>, b: Seq<char>, c: Seq<char>)
    requires
        b.len() > 0 && b[0] == '/',
        c.len() > 0 && c[0] == '/',
    ensures
        path_contains(a, a),
        path_contains(a, b) && path_contains(b, c) ==> path_contains(a, c),
{
    if path_contains(a, b) && path_contains(b, c) && a != seq!['/'] && a != b && b != c {
        if b == seq!['/'] {
            assert(a.len() == 1 ==> b.subrange(0, 1) =~= b);
            assert(a.len() == 0);
            assert(c.subrange(0, 0) =~= a);
        } else {
            assert(b == c.subrange(0, b.len() as int));
            assert(a == b.subrange(0, a.len() as int));
            assert(c.subrange(0, a.len() as int) =~= a);
            assert forall|i: int| 0 <= i < b.len() implies b[i] == c[i] by {
                assert(c.subrange(0, b.len() as int)[i] == c[i]);
            }
        }
    }
}

/// Whether two scopes overlap does not depend on which is named first.
pub proof fn law_overlap_is_symmetric(left: Seq<char>, right: Seq<char>)
    ensures
        scopes_overlap(left, right) == scopes_overlap(right, left),
        scopes_overlap(left, left),
{
}

} // verus!
