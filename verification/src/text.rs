//! Text as a sequence of characters.
//!
//! The rules of this crate read text one character at a time. The functions
//! here bring a string into that form and back, and hold the small operations
//! on it: character classes, searching, splitting, numbers in text form.

use vstd::prelude::*;
use vstd::string::*;

verus! {

/// `String::push` appends one character.
pub assume_specification[ String::push ](s: &mut String, c: char)
    ensures
        final(s)@ == old(s)@.push(c),
;

/// ASCII decimal digit.
pub open spec fn is_digit(c: char) -> bool {
    '0' <= c <= '9'
}

/// ASCII capital letter.
pub open spec fn is_upper(c: char) -> bool {
    'A' <= c <= 'Z'
}

/// ASCII small letter.
pub open spec fn is_lower(c: char) -> bool {
    'a' <= c <= 'z'
}

/// ASCII letter.
pub open spec fn is_alpha(c: char) -> bool {
    is_upper(c) || is_lower(c)
}

/// ASCII letter or digit.
pub open spec fn is_alnum(c: char) -> bool {
    is_digit(c) || is_alpha(c)
}

/// The value of a hexadecimal digit in either case.
pub open spec fn hex_value(c: char) -> Option<int> {
    if is_digit(c) {
        Some(c as int - '0' as int)
    } else if 'a' <= c <= 'f' {
        Some(c as int - 'a' as int + 10)
    } else if 'A' <= c <= 'F' {
        Some(c as int - 'A' as int + 10)
    } else {
        None
    }
}

/// The small letter of an ASCII capital, any other character unchanged.
pub open spec fn lower(c: char) -> char {
    if is_upper(c) {
        (c as int + 32) as char
    } else {
        c
    }
}

pub fn digit(c: char) -> (r: bool)
    ensures
        r == is_digit(c),
{
    c >= '0' && c <= '9'
}

pub fn alpha(c: char) -> (r: bool)
    ensures
        r == is_alpha(c),
{
    ('A' <= c && c <= 'Z') || ('a' <= c && c <= 'z')
}

pub fn alnum(c: char) -> (r: bool)
    ensures
        r == is_alnum(c),
{
    digit(c) || (c >= 'A' && c <= 'Z') || (c >= 'a' && c <= 'z')
}

pub fn hex_digit(c: char) -> (r: Option<u8>)
    ensures
        r is Some <==> hex_value(c) is Some,
        r matches Some(v) ==> v < 16 && v as int == hex_value(c)->0,
{
    if digit(c) {
        Some((c as u32 - '0' as u32) as u8)
    } else if c >= 'a' && c <= 'f' {
        Some((c as u32 - 'a' as u32 + 10) as u8)
    } else if c >= 'A' && c <= 'F' {
        Some((c as u32 - 'A' as u32 + 10) as u8)
    } else {
        None
    }
}

pub fn lowercase(c: char) -> (r: char)
    ensures
        r == lower(c),
{
    if c >= 'A' && c <= 'Z' {
        (c as u8 + 32) as char
    } else {
        c
    }
}

/// The characters of a text, in order.
pub fn to_chars(s: &str) -> (v: Vec<char>)
    ensures
        v@ == s@,
{
    let mut v: Vec<char> = Vec::new();
    for c in it: s.chars()
        invariant
            v@ == it.seq().take(it.index() as int),
            it.seq() == s@,
    {
        v.push(c);
    }
    v
}

/// The text made of these characters.
pub fn from_chars(v: &Vec<char>) -> (s: String)
    ensures
        s@ == v@,
{
    let mut s = String::new();
    for i in 0..v.len()
        invariant
            s@ == v@.take(i as int),
    {
        s.push(v[i]);
        assert(v@.take(i as int).push(v@[i as int]) == v@.take(i + 1));
    }
    assert(v@.take(v@.len() as int) == v@);
    s
}

/// Whether two texts hold the same characters.
pub fn same(a: &str, b: &str) -> (r: bool)
    ensures
        r == (a@ == b@),
{
    a.to_owned() == b.to_owned()
}

/// The characters from `i` up to but not including `j`.
pub fn slice(v: &Vec<char>, i: usize, j: usize) -> (r: Vec<char>)
    requires
        i <= j <= v@.len(),
    ensures
        r@ == v@.subrange(i as int, j as int),
{
    let mut r: Vec<char> = Vec::new();
    for k in i..j
        invariant
            i <= j <= v@.len(),
            r@ == v@.subrange(i as int, k as int),
    {
        r.push(v[k]);
        assert(v@.subrange(i as int, k as int).push(v@[k as int]) == v@.subrange(i as int, k + 1));
    }
    r
}

/// `s` with every ASCII capital replaced by its small letter.
pub open spec fn lower_all(s: Seq<char>) -> Seq<char> {
    s.map_values(|c: char| lower(c))
}

pub fn lowercase_all(v: &Vec<char>) -> (r: Vec<char>)
    ensures
        r@ == lower_all(v@),
{
    let mut r: Vec<char> = Vec::new();
    for i in 0..v.len()
        invariant
            r@ == lower_all(v@.take(i as int)),
    {
        r.push(lowercase(v[i]));
        assert(lower_all(v@.take(i as int)).push(lower(v@[i as int])) == lower_all(v@.take(i + 1)));
    }
    assert(v@.take(v@.len() as int) == v@);
    r
}

/// Whether two texts are equal when the case of ASCII letters is ignored.
pub open spec fn same_ignoring_case(a: Seq<char>, b: Seq<char>) -> bool {
    lower_all(a) == lower_all(b)
}

pub fn eq_ignore_case(a: &str, b: &str) -> (r: bool)
    ensures
        r == same_ignoring_case(a@, b@),
{
    let x = lowercase_all(&to_chars(a));
    let y = lowercase_all(&to_chars(b));
    same(from_chars(&x).as_str(), from_chars(&y).as_str())
}

/// The length of the longest prefix of `s` that holds none of the characters
/// in `stops`.
pub open spec fn span(s: Seq<char>, stops: Seq<char>) -> int
    decreases s.len(),
{
    if s.len() == 0 || stops.contains(s[0]) {
        0
    } else {
        1 + span(s.skip(1), stops)
    }
}

/// The first position that holds a stop character, or the length of `s`, is
/// the span.
pub proof fn lemma_span(s: Seq<char>, stops: Seq<char>, n: int)
    requires
        0 <= n <= s.len(),
        forall|j: int| 0 <= j < n ==> !stops.contains(#[trigger] s[j]),
        n < s.len() ==> stops.contains(s[n]),
    ensures
        span(s, stops) == n,
    decreases n,
{
    if n > 0 {
        let t = s.skip(1);
        assert forall|j: int| 0 <= j < n - 1 implies !stops.contains(#[trigger] t[j]) by {
            assert(t[j] == s[j + 1]);
        }
        lemma_span(t, stops, n - 1);
    }
}

/// The span is a position of `s` before which no stop character stands and at
/// which one stands, unless it is the end.
pub proof fn lemma_span_bounds(s: Seq<char>, stops: Seq<char>)
    ensures
        0 <= span(s, stops) <= s.len(),
        forall|j: int| 0 <= j < span(s, stops) ==> !stops.contains(#[trigger] s[j]),
        span(s, stops) < s.len() ==> stops.contains(s[span(s, stops)]),
    decreases s.len(),
{
    if s.len() > 0 && !stops.contains(s[0]) {
        let t = s.skip(1);
        lemma_span_bounds(t, stops);
        assert forall|j: int| 0 <= j < span(s, stops) implies !stops.contains(#[trigger] s[j]) by {
            if j > 0 {
                assert(t[j - 1] == s[j]);
            }
        }
    }
}

/// Whether `c` is one of the characters in `set`.
pub fn member(set: &Vec<char>, c: char) -> (r: bool)
    ensures
        r == set@.contains(c),
{
    for i in 0..set.len()
        invariant
            forall|j: int| 0 <= j < i ==> set@[j] != c,
    {
        if set[i] == c {
            return true;
        }
    }
    false
}

/// Where the first stop character at or after `from` stands, or the end.
pub fn span_from(v: &Vec<char>, from: usize, stops: &Vec<char>) -> (n: usize)
    requires
        from <= v@.len(),
    ensures
        from <= n <= v@.len(),
        n == from + span(v@.skip(from as int), stops@),
{
    let mut i: usize = from;
    while i < v.len() && !member(stops, v[i])
        invariant
            from <= i <= v@.len(),
            forall|j: int| from <= j < i ==> !stops@.contains(#[trigger] v@[j]),
        decreases v@.len() - i,
    {
        i += 1;
    }
    proof {
        lemma_span(v@.skip(from as int), stops@, i - from);
    }
    i
}

/// The pieces of `s` between occurrences of `sep`; one piece where there is none.
pub open spec fn split(s: Seq<char>, sep: char) -> Seq<Seq<char>>
    decreases s.len(),
    via split_decreases
{
    let n = span(s, seq![sep]);
    if n >= s.len() {
        seq![s]
    } else {
        seq![s.take(n)] + split(s.skip(n + 1), sep)
    }
}

#[via_fn]
proof fn split_decreases(s: Seq<char>, sep: char) {
    lemma_span_bounds(s, seq![sep]);
}

/// The texts of a list, as character sequences.
pub open spec fn texts(v: Seq<String>) -> Seq<Seq<char>> {
    v.map_values(|s: String| s@)
}

/// The pieces of a text between occurrences of `sep`.
pub fn split_text(v: &Vec<char>, sep: char) -> (r: Vec<Vec<char>>)
    ensures
        r@.map_values(|p: Vec<char>| p@) == split(v@, sep),
        r@.len() >= 1,
{
    let mut r: Vec<Vec<char>> = Vec::new();
    let mut from: usize = 0;
    let stops: Vec<char> = vec![sep];
    assert(stops@ == seq![sep]);
    assert(v@.skip(0) == v@);
    loop
        invariant
            from <= v@.len(),
            stops@ == seq![sep],
            split(v@, sep) == r@.map_values(|p: Vec<char>| p@) + split(v@.skip(from as int), sep),
        decreases v@.len() - from,
    {
        let n = span_from(v, from, &stops);
        let piece = slice(v, from, n);
        let ghost before = r@.map_values(|p: Vec<char>| p@);
        let ghost rest = v@.skip(from as int);
        assert(piece@ == rest.take(n - from));
        r.push(piece);
        assert(r@.map_values(|p: Vec<char>| p@) == before.push(piece@));
        if n >= v.len() {
            assert(rest.take(n - from) == rest);
            assert(before + seq![rest] == before.push(rest));
            return r;
        }
        assert(rest.skip(n - from + 1) == v@.skip(n + 1));
        assert(before + (seq![piece@] + split(v@.skip(n + 1), sep)) == before.push(piece@) + split(
            v@.skip(n + 1),
            sep,
        ));
        from = n + 1;
    }
}

/// The pieces in order, with `sep` between each two.
pub open spec fn join(parts: Seq<Seq<char>>, sep: char) -> Seq<char>
    decreases parts.len(),
{
    if parts.len() == 0 {
        Seq::empty()
    } else if parts.len() == 1 {
        parts[0]
    } else {
        parts[0] + seq![sep] + join(parts.skip(1), sep)
    }
}

/// Splitting undoes joining where no piece holds the separator.
pub proof fn lemma_split_join(parts: Seq<Seq<char>>, sep: char)
    requires
        parts.len() > 0,
        forall|i: int| 0 <= i < parts.len() ==> !#[trigger] parts[i].contains(sep),
    ensures
        split(join(parts, sep), sep) == parts,
    decreases parts.len(),
{
    let s = join(parts, sep);
    let n = parts[0].len() as int;
    let stops = seq![sep];
    assert forall|j: int| 0 <= j < n implies !stops.contains(#[trigger] s[j]) by {
        assert(s[j] == parts[0][j]);
        assert(parts[0].contains(parts[0][j]));
    }
    if parts.len() == 1 {
        lemma_span(s, stops, n);
        assert(seq![s] =~= parts);
    } else {
        let rest = parts.skip(1);
        assert(s[n] == sep);
        assert(stops[0] == sep);
        lemma_span(s, stops, n);
        assert(s.take(n) =~= parts[0]);
        assert(s.skip(n + 1) =~= join(rest, sep));
        assert forall|i: int| 0 <= i < rest.len() implies !#[trigger] rest[i].contains(sep) by {
            assert(rest[i] == parts[i + 1]);
        }
        lemma_split_join(rest, sep);
        assert(seq![s.take(n)] + rest =~= parts);
    }
}

/// Joining undoes splitting, and no piece holds the separator.
pub proof fn lemma_join_split(s: Seq<char>, sep: char)
    ensures
        split(s, sep).len() >= 1,
        join(split(s, sep), sep) == s,
        forall|i: int| 0 <= i < split(s, sep).len() ==> !#[trigger] split(s, sep)[i].contains(sep),
    decreases s.len(),
{
    let stops = seq![sep];
    let n = span(s, stops);
    lemma_span_bounds(s, stops);
    assert(stops[0] == sep);
    if n >= s.len() {
        assert(!s.contains(sep));
    } else {
        let rest = split(s.skip(n + 1), sep);
        let front = s.take(n);
        let all = split(s, sep);
        lemma_join_split(s.skip(n + 1), sep);
        assert(all == seq![front] + rest);
        assert(all.skip(1) =~= rest);
        assert(join(all, sep) =~= s);
        assert(!front.contains(sep));
        assert forall|i: int| 0 <= i < all.len() implies !#[trigger] all[i].contains(sep) by {
            if i > 0 {
                assert(all[i] == rest[i - 1]);
            }
        }
    }
}

/// Joined pieces begin with the first piece and end with the last.
pub proof fn lemma_join_ends(parts: Seq<Seq<char>>, sep: char)
    requires
        parts.len() >= 1,
    ensures
        parts[0].len() > 0 ==> join(parts, sep).len() > 0 && join(parts, sep)[0] == parts[0][0],
        parts.last().len() > 0 ==> join(parts, sep).len() > 0 && join(parts, sep).last()
            == parts.last().last(),
    decreases parts.len(),
{
    if parts.len() > 1 {
        let rest = parts.skip(1);
        lemma_join_ends(rest, sep);
        assert(rest.last() == parts.last());
        let s = join(parts, sep);
        assert(s == parts[0] + seq![sep] + join(rest, sep));
    }
}

/// Joined pieces hold no character that no piece holds and that is not the
/// separator.
pub proof fn lemma_join_holds_no(parts: Seq<Seq<char>>, sep: char, c: char)
    requires
        c != sep,
        forall|i: int| 0 <= i < parts.len() ==> !#[trigger] parts[i].contains(c),
    ensures
        !join(parts, sep).contains(c),
    decreases parts.len(),
{
    if parts.len() > 1 {
        let rest = parts.skip(1);
        assert forall|i: int| 0 <= i < rest.len() implies !#[trigger] rest[i].contains(c) by {
            assert(rest[i] == parts[i + 1]);
        }
        lemma_join_holds_no(rest, sep, c);
        let s = join(parts, sep);
        let n = parts[0].len() as int;
        assert forall|j: int| 0 <= j < s.len() implies #[trigger] s[j] != c by {
            if j < n {
                assert(s[j] == parts[0][j]);
                assert(parts[0].contains(parts[0][j]));
            } else if j > n {
                assert(s[j] == join(rest, sep)[j - n - 1]);
                assert(join(rest, sep).contains(join(rest, sep)[j - n - 1]));
            }
        }
    }
}

/// Joining one more piece appends it behind a separator.
pub proof fn lemma_join_push(parts: Seq<Seq<char>>, last: Seq<char>, sep: char)
    requires
        parts.len() > 0,
    ensures
        join(parts.push(last), sep) == join(parts, sep).push(sep) + last,
    decreases parts.len(),
{
    let all = parts.push(last);
    if parts.len() == 1 {
        assert(all.skip(1) =~= seq![last]);
        assert(join(seq![last], sep) == last);
        assert(join(parts, sep) == parts[0]);
        assert(join(all, sep) =~= join(parts, sep).push(sep) + last);
    } else {
        lemma_join_push(parts.skip(1), last, sep);
        assert(all.skip(1) =~= parts.skip(1).push(last));
        assert(join(all, sep) =~= join(parts, sep).push(sep) + last);
    }
}

/// Bringing a text into small letters does not move separators that have no case.
pub proof fn lemma_split_lower(s: Seq<char>, sep: char)
    requires
        !is_upper(sep),
        !is_lower(sep),
    ensures
        split(lower_all(s), sep).len() == split(s, sep).len(),
        forall|i: int|
            0 <= i < split(s, sep).len() ==> #[trigger] split(lower_all(s), sep)[i] == lower_all(
                split(s, sep)[i],
            ),
    decreases s.len(),
{
    let stops = seq![sep];
    let n = span(s, stops);
    let t = lower_all(s);
    lemma_span_bounds(s, stops);
    assert forall|j: int| 0 <= j < n implies !stops.contains(#[trigger] t[j]) by {
        assert(t[j] == lower(s[j]));
        assert(!stops.contains(s[j]));
        assert(stops[0] == sep);
    }
    if n < s.len() {
        assert(s[n] == sep);
        assert(t[n] == sep);
        assert(stops[0] == sep);
    }
    lemma_span(t, stops, n);
    if n < s.len() {
        lemma_split_lower(s.skip(n + 1), sep);
        assert(t.skip(n + 1) =~= lower_all(s.skip(n + 1)));
        assert(t.take(n) =~= lower_all(s.take(n)));
        let a = split(t, sep);
        let b = split(s, sep);
        assert forall|i: int| 0 <= i < b.len() implies #[trigger] a[i] == lower_all(b[i]) by {
            if i > 0 {
                assert(a[i] == split(t.skip(n + 1), sep)[i - 1]);
                assert(b[i] == split(s.skip(n + 1), sep)[i - 1]);
            }
        }
    }
}

/// Whether `pat` stands in `s` at position `i`.
pub open spec fn occurs_at(s: Seq<char>, pat: Seq<char>, i: int) -> bool {
    0 <= i && i + pat.len() <= s.len() && s.subrange(i, i + pat.len()) == pat
}

/// Whether `pat` stands anywhere in `s`.
pub open spec fn contains_text(s: Seq<char>, pat: Seq<char>) -> bool {
    exists|i: int| occurs_at(s, pat, i)
}

/// Whether `s` begins with `pat`.
pub open spec fn starts_with(s: Seq<char>, pat: Seq<char>) -> bool {
    occurs_at(s, pat, 0)
}

/// Whether `s` ends with `pat`.
pub open spec fn ends_with(s: Seq<char>, pat: Seq<char>) -> bool {
    occurs_at(s, pat, s.len() - pat.len())
}

/// The first position at or after `from` at which `pat` stands in `s`.
pub open spec fn find_text(s: Seq<char>, pat: Seq<char>, from: int) -> Option<int>
    decreases s.len() + 1 - from,
{
    if from < 0 || from + pat.len() > s.len() {
        None
    } else if occurs_at(s, pat, from) {
        Some(from)
    } else {
        find_text(s, pat, from + 1)
    }
}

/// A search from the start succeeds exactly when the pattern occurs, and its
/// result is the earliest occurrence.
pub proof fn lemma_find_text(s: Seq<char>, pat: Seq<char>, from: int)
    requires
        0 <= from,
    ensures
        match find_text(s, pat, from) {
            Some(i) => {
                &&& from <= i
                &&& occurs_at(s, pat, i)
                &&& forall|j: int| from <= j < i ==> !#[trigger] occurs_at(s, pat, j)
            },
            None => forall|j: int| from <= j ==> !#[trigger] occurs_at(s, pat, j),
        },
    decreases s.len() + 1 - from,
{
    if from + pat.len() <= s.len() && !occurs_at(s, pat, from) {
        lemma_find_text(s, pat, from + 1);
    }
}

pub fn occurs(v: &Vec<char>, pat: &Vec<char>, i: usize) -> (r: bool)
    ensures
        r == occurs_at(v@, pat@, i as int),
{
    if pat.len() > v.len() || i > v.len() - pat.len() {
        return false;
    }
    for k in 0..pat.len()
        invariant
            i + pat.len() <= v.len(),
            forall|j: int| 0 <= j < k ==> v@[i + j] == pat@[j],
    {
        if v[i + k] != pat[k] {
            assert(v@.subrange(i as int, i + pat@.len())[k as int] != pat@[k as int]);
            return false;
        }
    }
    assert(v@.subrange(i as int, i + pat@.len()) =~= pat@);
    true
}

pub fn find(v: &Vec<char>, pat: &Vec<char>, from: usize) -> (r: Option<usize>)
    ensures
        match r {
            Some(i) => find_text(v@, pat@, from as int) == Some(i as int) && i + pat@.len()
                <= v@.len(),
            None => find_text(v@, pat@, from as int) is None,
        },
{
    let mut i: usize = from;
    if pat.len() > v.len() {
        return None;
    }
    while i <= v.len() - pat.len()
        invariant
            pat@.len() <= v@.len(),
            find_text(v@, pat@, from as int) == find_text(v@, pat@, i as int),
        decreases v@.len() - i,
    {
        if occurs(v, pat, i) {
            return Some(i);
        }
        if i == v.len() - pat.len() {
            assert(find_text(v@, pat@, i + 1) is None);
            return None;
        }
        i += 1;
    }
    None
}

/// Whether the text `s` holds the text `pat`.
pub fn contains(s: &str, pat: &str) -> (r: bool)
    ensures
        r == contains_text(s@, pat@),
{
    proof {
        lemma_find_text(s@, pat@, 0);
    }
    find(&to_chars(s), &to_chars(pat), 0).is_some()
}

/// Whether the text `s` begins with the text `pat`.
pub fn has_prefix(s: &str, pat: &str) -> (r: bool)
    ensures
        r == starts_with(s@, pat@),
{
    occurs(&to_chars(s), &to_chars(pat), 0)
}

/// Whether the text `s` ends with the text `pat`.
pub fn has_suffix(s: &str, pat: &str) -> (r: bool)
    ensures
        r == ends_with(s@, pat@),
{
    let v = to_chars(s);
    let p = to_chars(pat);
    v.len() >= p.len() && occurs(&v, &p, v.len() - p.len())
}

/// White space, as Unicode has it.
pub open spec fn is_space(c: char) -> bool {
    ||| '\t' <= c <= '\r'
    ||| c == ' '
    ||| c == '\u{85}'
    ||| c == '\u{a0}'
    ||| c == '\u{1680}'
    ||| '\u{2000}' <= c <= '\u{200a}'
    ||| c == '\u{2028}'
    ||| c == '\u{2029}'
    ||| c == '\u{202f}'
    ||| c == '\u{205f}'
    ||| c == '\u{3000}'
}

fn space(c: char) -> (r: bool)
    ensures
        r == is_space(c),
{
    ('\t' <= c && c <= '\r') || c == ' ' || c == '\u{85}' || c == '\u{a0}' || c == '\u{1680}' || (
    '\u{2000}' <= c && c <= '\u{200a}') || c == '\u{2028}' || c == '\u{2029}' || c == '\u{202f}'
        || c == '\u{205f}' || c == '\u{3000}'
}

pub open spec fn trim_start(s: Seq<char>) -> Seq<char>
    decreases s.len(),
{
    if s.len() > 0 && is_space(s[0]) {
        trim_start(s.skip(1))
    } else {
        s
    }
}

pub open spec fn trim_end(s: Seq<char>) -> Seq<char>
    decreases s.len(),
{
    if s.len() > 0 && is_space(s.last()) {
        trim_end(s.drop_last())
    } else {
        s
    }
}

/// The text without white space around it.
pub open spec fn trim(s: Seq<char>) -> Seq<char> {
    trim_end(trim_start(s))
}

pub fn trimmed(v: &Vec<char>) -> (r: Vec<char>)
    ensures
        r@ == trim(v@),
{
    let mut i: usize = 0;
    assert(v@.skip(0) =~= v@);
    while i < v.len() && space(v[i])
        invariant
            i <= v.len(),
            trim_start(v@.skip(i as int)) == trim_start(v@),
        decreases v.len() - i,
    {
        assert(v@.skip(i as int).skip(1) =~= v@.skip(i + 1));
        i += 1;
    }
    let ghost t = v@.skip(i as int);
    assert(i < v.len() ==> t[0] == v@[i as int]);
    assert(trim_start(v@) == t);
    let mut j: usize = v.len();
    assert(v@.subrange(i as int, j as int) =~= t);
    while j > i && space(v[j - 1])
        invariant
            i <= j <= v.len(),
            trim_end(v@.subrange(i as int, j as int)) == trim_end(t),
        decreases j,
    {
        assert(v@.subrange(i as int, j as int).drop_last() =~= v@.subrange(i as int, j - 1));
        j -= 1;
    }
    let r = slice(v, i, j);
    assert(j > i ==> r@.last() == v@[j - 1]);
    r
}

/// The text with each `pat` in it, from left to right, replaced by `with`.
pub open spec fn replace_all(s: Seq<char>, pat: Seq<char>, with: Seq<char>) -> Seq<char>
    decreases s.len(),
{
    if pat.len() == 0 {
        s
    } else {
        match find_text(s, pat, 0) {
            Some(i) if 0 <= i && i + pat.len() <= s.len() => s.take(i) + with + replace_all(
                s.skip(i + pat.len()),
                pat,
                with,
            ),
            _ => s,
        }
    }
}

/// Where the first character of a pattern does not occur, nothing is replaced.
pub proof fn lemma_nothing_replaced(s: Seq<char>, pat: Seq<char>, with: Seq<char>)
    requires
        pat.len() > 0,
        !s.contains(pat[0]),
    ensures
        replace_all(s, pat, with) == s,
{
    lemma_find_text(s, pat, 0);
    if let Some(i) = find_text(s, pat, 0) {
        assert(s.subrange(i, i + pat.len())[0] == s[i]);
    }
}

/// A pattern that stands once in a text, where its first character does not occur
/// elsewhere, is replaced there and nothing else is.
pub proof fn lemma_one_replaced(
    front: Seq<char>,
    pat: Seq<char>,
    back: Seq<char>,
    with: Seq<char>,
)
    requires
        pat.len() > 0,
        !front.contains(pat[0]),
        !back.contains(pat[0]),
    ensures
        replace_all(front + pat + back, pat, with) == front + with + back,
{
    let s = front + pat + back;
    let n = front.len() as int;
    assert(s.subrange(n, n + pat.len()) =~= pat);
    assert(occurs_at(s, pat, n));
    lemma_find_text(s, pat, 0);
    let i = find_text(s, pat, 0)->0;
    assert(i == n) by {
        if i < n {
            assert(s.subrange(i, i + pat.len())[0] == s[i]);
            assert(s[i] == front[i]);
        }
    }
    assert(s.take(n) =~= front);
    assert(s.skip(n + pat.len()) =~= back);
    lemma_nothing_replaced(back, pat, with);
}

pub fn replaced(v: &Vec<char>, pat: &Vec<char>, with: &Vec<char>) -> (r: Vec<char>)
    requires
        pat@.len() > 0,
    ensures
        r@ == replace_all(v@, pat@, with@),
    decreases v@.len(),
{
    proof {
        lemma_find_text(v@, pat@, 0);
    }
    match find(v, pat, 0) {
        Some(i) => {
            assert(i + pat.len() <= v.len());
            let rest = slice(v, i + pat.len(), v.len());
            assert(rest@ =~= v@.skip(i + pat@.len()));
            let tail = replaced(&rest, pat, with);
            let mut r = slice(v, 0, i);
            assert(r@ =~= v@.take(i as int));
            append_chars(&mut r, with);
            append_chars(&mut r, &tail);
            r
        },
        None => {
            let r = slice(v, 0, v.len());
            assert(r@ =~= v@);
            r
        },
    }
}

/// Append characters to `v`.
pub fn append_chars(v: &mut Vec<char>, tail: &Vec<char>)
    ensures
        final(v)@ == old(v)@ + tail@,
{
    let ghost before = v@;
    assert(before + tail@.take(0) =~= before);
    for i in 0..tail.len()
        invariant
            v@ == before + tail@.take(i as int),
    {
        v.push(tail[i]);
        assert(before + tail@.take(i + 1) =~= (before + tail@.take(i as int)).push(
            tail@[i as int],
        ));
    }
    assert(tail@.take(tail@.len() as int) =~= tail@);
}

/// The texts of a list of pairs of strings.
pub open spec fn pair_texts(pairs: Seq<(String, String)>) -> Seq<(Seq<char>, Seq<char>)> {
    pairs.map_values(|p: (String, String)| (p.0@, p.1@))
}

/// The text of an optional string.
pub open spec fn option_view(s: Option<String>) -> Option<Seq<char>> {
    match s {
        Some(t) => Some(t@),
        None => None,
    }
}

pub open spec fn str_view(s: Option<&str>) -> Option<Seq<char>> {
    match s {
        Some(t) => Some(t@),
        None => None,
    }
}

/// The number `n` in decimal.
pub open spec fn decimal(n: nat) -> Seq<char>
    decreases n,
{
    if n < 10 {
        seq![('0' as int + n) as char]
    } else {
        decimal(n / 10).push(('0' as int + n % 10) as char)
    }
}

pub fn decimal_text(n: u64) -> (s: String)
    ensures
        s@ == decimal(n as nat),
    decreases n,
{
    let c = (48 + (n % 10) as u8) as char;
    let mut s = if n < 10 {
        String::new()
    } else {
        decimal_text(n / 10)
    };
    s.push(c);
    assert(Seq::<char>::empty().push(c) == seq![c]);
    s
}

/// The classes of characters are those of ASCII, and a hexadecimal digit has its
/// usual value in either case.
pub proof fn law_character_classes(c: char)
    ensures
        is_alnum(c) <==> 48 <= c as int <= 57 || 65 <= c as int <= 90 || 97 <= c as int <= 122,
        is_alpha(c) <==> 65 <= c as int <= 90 || 97 <= c as int <= 122,
        is_digit(c) <==> 48 <= c as int <= 57,
        is_upper(c) <==> 65 <= c as int <= 90,
        hex_value(c) == if 48 <= c as int <= 57 {
            Some(c as int - 48)
        } else if 65 <= c as int <= 70 {
            Some(c as int - 55)
        } else if 97 <= c as int <= 102 {
            Some(c as int - 87)
        } else {
            None
        },
        is_space(' ') && is_space('\t') && is_space('\n') && is_space('\r'),
        33 <= c as int <= 126 ==> !is_space(c),
{
}

/// Two texts are the same but for the case exactly when they are equally long
/// and differ nowhere by more than that of an ASCII letter.
pub proof fn law_same_but_for_the_case(a: Seq<char>, b: Seq<char>)
    ensures
        same_ignoring_case(a, b) <==> a.len() == b.len() && forall|i: int|
            0 <= i < a.len() ==> (#[trigger] a[i] == b[i] || 65 <= a[i] as int <= 90 && b[i] as int
                == a[i] as int + 32 || 65 <= b[i] as int <= 90 && a[i] as int == b[i] as int + 32),
{
    let x = lower_all(a);
    let y = lower_all(b);
    if same_ignoring_case(a, b) {
        assert(x.len() == y.len());
        assert forall|i: int| 0 <= i < a.len() implies (#[trigger] a[i] == b[i] || 65 <= a[i] as int
            <= 90 && b[i] as int == a[i] as int + 32 || 65 <= b[i] as int <= 90 && a[i] as int
            == b[i] as int + 32) by {
            assert(x[i] == lower(a[i]));
            assert(y[i] == lower(b[i]));
        }
    }
    if a.len() == b.len() && forall|i: int|
        0 <= i < a.len() ==> (#[trigger] a[i] == b[i] || 65 <= a[i] as int <= 90 && b[i] as int
            == a[i] as int + 32 || 65 <= b[i] as int <= 90 && a[i] as int == b[i] as int + 32) {
        assert forall|i: int| 0 <= i < a.len() implies x[i] == y[i] by {
            assert(a[i] == b[i] || 65 <= a[i] as int <= 90 && b[i] as int == a[i] as int + 32 || 65
                <= b[i] as int <= 90 && a[i] as int == b[i] as int + 32);
        }
        assert(x =~= y);
    }
}

/// White space round a text, and nothing else of it, is taken away.
pub proof fn law_trimming_takes_white_space_away(
    front: Seq<char>,
    s: Seq<char>,
    back: Seq<char>,
)
    requires
        forall|i: int| 0 <= i < front.len() ==> is_space(#[trigger] front[i]),
        forall|i: int| 0 <= i < back.len() ==> is_space(#[trigger] back[i]),
        s.len() > 0 ==> !is_space(s[0]) && !is_space(s.last()),
    ensures
        trim(front + s + back) == s,
    decreases front.len() + back.len(),
{
    let all = front + s + back;
    if front.len() > 0 {
        let rest = front.skip(1);
        assert forall|i: int| 0 <= i < rest.len() implies is_space(#[trigger] rest[i]) by {
            assert(rest[i] == front[i + 1]);
        }
        assert(all[0] == front[0]);
        assert(all.skip(1) =~= rest + s + back);
        law_trimming_takes_white_space_away(rest, s, back);
    } else if s.len() == 0 {
        assert(all =~= back);
        if back.len() > 0 {
            let rest = back.skip(1);
            assert forall|i: int| 0 <= i < rest.len() implies is_space(#[trigger] rest[i]) by {
                assert(rest[i] == back[i + 1]);
            }
            assert(all.skip(1) =~= front + s + rest);
            law_trimming_takes_white_space_away(front, s, rest);
        }
        assert(trim(all) =~= s);
    } else {
        assert(all =~= s + back);
        assert(all[0] == s[0]);
        lemma_trim_end(s, back);
    }
}

proof fn lemma_trim_end(s: Seq<char>, back: Seq<char>)
    requires
        s.len() > 0,
        !is_space(s.last()),
        forall|i: int| 0 <= i < back.len() ==> is_space(#[trigger] back[i]),
    ensures
        trim_end(s + back) == s,
    decreases back.len(),
{
    if back.len() > 0 {
        let rest = back.drop_last();
        assert forall|i: int| 0 <= i < rest.len() implies is_space(#[trigger] rest[i]) by {
            assert(rest[i] == back[i]);
        }
        assert((s + back).last() == back[back.len() - 1]);
        assert((s + back).drop_last() =~= s + rest);
        lemma_trim_end(s, rest);
    } else {
        assert(s + back =~= s);
    }
}

/// A text starts with another exactly when that is its front, ends with it exactly
/// when that is its back, and holds it exactly when it stands somewhere in it.
pub proof fn law_texts_in_texts(front: Seq<char>, s: Seq<char>, back: Seq<char>, t: Seq<char>)
    ensures
        starts_with(s + back, s),
        starts_with(t, s) ==> s.is_prefix_of(t),
        ends_with(front + s, s),
        ends_with(t, s) ==> s.len() <= t.len() && t.skip(t.len() - s.len()) == s,
        contains_text(front + s + back, s),
        contains_text(t, s) ==> exists|i: int|
            0 <= i <= t.len() - s.len() && #[trigger] t.subrange(i, i + s.len()) == s,
{
    assert((s + back).subrange(0, s.len() as int) =~= s);
    let e = front + s;
    assert(e.subrange(e.len() - s.len(), e.len() as int) =~= s);
    if ends_with(t, s) {
        assert(t.skip(t.len() - s.len()) =~= s);
    }
    let m = front + s + back;
    assert(m.subrange(front.len() as int, (front.len() + s.len()) as int) =~= s);
    assert(occurs_at(m, s, front.len() as int));
    if contains_text(t, s) {
        let i = choose|i: int| occurs_at(t, s, i);
        assert(t.subrange(i, i + s.len()) == s);
    }
}

/// A text is cut at each separator and nowhere else: the pieces with separators
/// between them are the text, and no piece holds one.
pub proof fn law_cutting_and_joining(s: Seq<char>, pieces: Seq<Seq<char>>, sep: char)
    requires
        pieces.len() > 0,
        forall|i: int| 0 <= i < pieces.len() ==> !#[trigger] pieces[i].contains(sep),
    ensures
        split(join(pieces, sep), sep) == pieces,
        join(split(s, sep), sep) == s,
        pieces.len() == 1 ==> join(pieces, sep) == pieces[0],
        join(pieces.push(s), sep) == join(pieces, sep) + seq![sep] + s,
{
    lemma_split_join(pieces, sep);
    lemma_join_split(s, sep);
    lemma_join_push(pieces, s, sep);
    assert(join(pieces, sep).push(sep) + s =~= join(pieces, sep) + seq![sep] + s);
}

} // verus!
