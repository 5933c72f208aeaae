//! Standard base64 (RFC 4648, with padding).

use vstd::prelude::*;
use vstd::string::*;
use crate::text;

verus! {

/// The character that stands for the six-bit value `v`.
pub open spec fn base64_char(v: int) -> char {
    if v < 26 {
        ('A' as int + v) as char
    } else if v < 52 {
        ('a' as int + v - 26) as char
    } else if v < 62 {
        ('0' as int + v - 52) as char
    } else if v == 62 {
        '+'
    } else {
        '/'
    }
}

/// The six-bit value that `c` stands for.
pub open spec fn base64_value(c: char) -> Option<int> {
    if text::is_upper(c) {
        Some(c as int - 'A' as int)
    } else if text::is_lower(c) {
        Some(c as int - 'a' as int + 26)
    } else if text::is_digit(c) {
        Some(c as int - '0' as int + 52)
    } else if c == '+' {
        Some(62)
    } else if c == '/' {
        Some(63)
    } else {
        None
    }
}

/// A character that may stand in base64 text.
pub open spec fn is_base64_char(c: char) -> bool {
    base64_value(c) is Some || c == '='
}

/// The four characters for the first one to three bytes of `s`.
pub open spec fn base64_group(s: Seq<u8>) -> Seq<char> {
    let b0 = s[0] as int;
    let b1 = if s.len() > 1 {
        s[1] as int
    } else {
        0
    };
    let b2 = if s.len() > 2 {
        s[2] as int
    } else {
        0
    };
    seq![
        base64_char(b0 / 4),
        base64_char(b0 % 4 * 16 + b1 / 16),
        if s.len() > 1 {
            base64_char(b1 % 16 * 4 + b2 / 64)
        } else {
            '='
        },
        if s.len() > 2 {
            base64_char(b2 % 64)
        } else {
            '='
        },
    ]
}

/// The base64 text of a sequence of bytes: three bytes at a time.
pub open spec fn base64_text(s: Seq<u8>) -> Seq<char>
    decreases s.len(),
{
    if s.len() == 0 {
        seq![]
    } else if s.len() <= 3 {
        base64_group(s)
    } else {
        base64_group(s.take(3)) + base64_text(s.skip(3))
    }
}

/// The bytes that base64 text stands for, where it is such text. Padding may
/// stand only at the end.
pub open spec fn base64_bytes(t: Seq<char>) -> Option<Seq<u8>>
    decreases t.len(),
{
    if t.len() == 0 {
        Some(seq![])
    } else if t.len() < 4 {
        None
    } else {
        match (base64_value(t[0]), base64_value(t[1]), base64_value(t[2]), base64_value(t[3])) {
            (Some(a), Some(b), None, None) => if t.len() == 4 && t[2] == '=' && t[3] == '=' {
                Some(seq![(a * 4 + b / 16) as u8])
            } else {
                None
            },
            (Some(a), Some(b), Some(c), None) => if t.len() == 4 && t[3] == '=' {
                Some(seq![(a * 4 + b / 16) as u8, (b % 16 * 16 + c / 4) as u8])
            } else {
                None
            },
            (Some(a), Some(b), Some(c), Some(d)) => match base64_bytes(t.skip(4)) {
                Some(rest) => Some(
                    seq![
                        (a * 4 + b / 16) as u8,
                        (b % 16 * 16 + c / 4) as u8,
                        (c % 4 * 64 + d) as u8,
                    ] + rest,
                ),
                None => None,
            },
            _ => None,
        }
    }
}

fn table(v: u8) -> (c: char)
    requires
        v < 64,
    ensures
        c == base64_char(v as int),
{
    if v < 26 {
        (65 + v) as char
    } else if v < 52 {
        (97 + (v - 26)) as char
    } else if v < 62 {
        (48 + (v - 52)) as char
    } else if v == 62 {
        '+'
    } else {
        '/'
    }
}

/// Encode bytes as base64 text.
pub fn b64(input: &[u8]) -> (s: String)
    ensures
        s@ == base64_text(input@),
{
    let mut out = String::new();
    let mut i: usize = 0;
    assert(input@.skip(0) =~= input@);
    while i < input.len()
        invariant
            i <= input.len(),
            out@ + base64_text(input@.skip(i as int)) == base64_text(input@),
        decreases input.len() - i,
    {
        let ghost rest = input@.skip(i as int);
        let ghost before = out@;
        let left = input.len() - i;
        let b0 = input[i];
        let b1 = if left > 1 {
            input[i + 1]
        } else {
            0u8
        };
        let b2 = if left > 2 {
            input[i + 2]
        } else {
            0u8
        };
        out.push(table(b0 / 4));
        out.push(table((b0 % 4) * 16 + b1 / 16));
        out.push(
            if left > 1 {
                table((b1 % 16) * 4 + b2 / 64)
            } else {
                '='
            },
        );
        out.push(
            if left > 2 {
                table(b2 % 64)
            } else {
                '='
            },
        );
        if left > 3 {
            assert(out@ =~= before + base64_group(rest.take(3)));
            assert(input@.skip(i + 3) =~= rest.skip(3));
            assert(out@ + base64_text(input@.skip(i + 3)) =~= before + base64_text(rest));
            i += 3;
        } else {
            assert(out@ =~= before + base64_group(rest));
            assert(input@.skip(input@.len() as int) =~= Seq::<u8>::empty());
            assert(out@ + base64_text(Seq::<u8>::empty()) =~= before + base64_text(rest));
            i = input.len();
        }
    }
    assert(input@.skip(i as int) =~= Seq::<u8>::empty());
    assert(out@ =~= out@ + base64_text(Seq::<u8>::empty()));
    out
}

proof fn lemma_char(v: int)
    requires
        0 <= v < 64,
    ensures
        base64_value(base64_char(v)) == Some(v),
        base64_char(v) != '=',
{
}

/// Decoding undoes encoding, for every sequence of bytes.
pub proof fn law_decode_undoes_encode(s: Seq<u8>)
    ensures
        base64_bytes(base64_text(s)) == Some(s),
    decreases s.len(),
{
    if s.len() > 0 {
        let g = if s.len() <= 3 {
            s
        } else {
            s.take(3)
        };
        let t = base64_text(s);
        let b0 = g[0] as int;
        let b1 = if g.len() > 1 {
            g[1] as int
        } else {
            0
        };
        let b2 = if g.len() > 2 {
            g[2] as int
        } else {
            0
        };
        lemma_char(b0 / 4);
        lemma_char(b0 % 4 * 16 + b1 / 16);
        lemma_char(b1 % 16 * 4 + b2 / 64);
        lemma_char(b2 % 64);
        assert(t.take(4) =~= base64_group(g));
        assert(t[0] == base64_group(g)[0]);
        assert(t[1] == base64_group(g)[1]);
        assert(t[2] == base64_group(g)[2]);
        assert(t[3] == base64_group(g)[3]);
        if s.len() > 3 {
            law_decode_undoes_encode(s.skip(3));
            assert(t.skip(4) =~= base64_text(s.skip(3)));
        } else {
            assert(t.skip(4) =~= Seq::<char>::empty());
        }
        assert(base64_bytes(t)->0 =~= s);
    }
}

/// Base64 text holds letters, digits, `+`, `/` and `=` only, and is a multiple
/// of four characters long.
pub proof fn law_base64_alphabet(s: Seq<u8>)
    ensures
        forall|i: int|
            0 <= i < base64_text(s).len() ==> is_base64_char(#[trigger] base64_text(s)[i]),
        base64_text(s).len() == (s.len() + 2) / 3 * 4,
    decreases s.len(),
{
    if s.len() > 0 {
        let g = if s.len() <= 3 {
            s
        } else {
            s.take(3)
        };
        let b0 = g[0] as int;
        let b1 = if g.len() > 1 {
            g[1] as int
        } else {
            0
        };
        let b2 = if g.len() > 2 {
            g[2] as int
        } else {
            0
        };
        lemma_char(b0 / 4);
        lemma_char(b0 % 4 * 16 + b1 / 16);
        lemma_char(b1 % 16 * 4 + b2 / 64);
        lemma_char(b2 % 64);
        assert(forall|i: int| 0 <= i < 4 ==> is_base64_char(#[trigger] base64_group(g)[i]));
        if s.len() > 3 {
            law_base64_alphabet(s.skip(3));
            let t = base64_text(s);
            let rest = base64_text(s.skip(3));
            assert(t == base64_group(g) + rest);
            assert forall|i: int| 0 <= i < t.len() implies is_base64_char(#[trigger] t[i]) by {
                if i < 4 {
                    assert(t[i] == base64_group(g)[i]);
                } else {
                    assert(t[i] == rest[i - 4]);
                }
            }
        }
    }
}

/// Three bytes make four characters, six bits each with the highest first, in the
/// order capitals, small letters, digits, `+` and `/`. Where two bytes or one are
/// left, the rest is padded with one `=` or two.
pub proof fn law_six_bits_make_a_character(a: u8, b: u8, c: u8, rest: Seq<u8>)
    ensures
        ({
            let spell = |v: int|
                if v < 26 {
                    (65 + v) as char
                } else if v < 52 {
                    (71 + v) as char
                } else if v < 62 {
                    (v - 4) as char
                } else if v == 62 {
                    '+'
                } else {
                    '/'
                };
            let three = a as int * 65536 + b as int * 256 + c as int;
            let two = a as int * 1024 + b as int * 4;
            let one = a as int * 16;
            &&& base64_text(seq![]) == Seq::<char>::empty()
            &&& base64_text(seq![a, b, c] + rest) == seq![
                spell(three / 262144),
                spell(three / 4096 % 64),
                spell(three / 64 % 64),
                spell(three % 64),
            ] + base64_text(rest)
            &&& base64_text(seq![a, b]) == seq![
                spell(two / 4096),
                spell(two / 64 % 64),
                spell(two % 64),
                '=',
            ]
            &&& base64_text(seq![a]) == seq![spell(one / 64), spell(one % 64), '=', '=']
        }),
{
    let x = a as int;
    let y = b as int;
    let z = c as int;
    lemma_six_bits(x, y, z);
    lemma_six_bits(x, y, 0);
    lemma_six_bits(x, 0, 0);
    let s = seq![a, b, c] + rest;
    assert(base64_text(Seq::<u8>::empty()) =~= Seq::<char>::empty());
    if rest.len() == 0 {
        assert(s =~= seq![a, b, c]);
        assert(rest =~= Seq::<u8>::empty());
        assert(base64_group(s) + Seq::<char>::empty() =~= base64_group(s));
    } else {
        assert(s.take(3) =~= seq![a, b, c]);
        assert(s.skip(3) =~= rest);
    }
}

proof fn lemma_six_bits(x: int, y: int, z: int)
    requires
        0 <= x < 256,
        0 <= y < 256,
        0 <= z < 256,
    ensures
        ({
            let three = x * 65536 + y * 256 + z;
            &&& three / 262144 == x / 4
            &&& three / 4096 % 64 == x % 4 * 16 + y / 16
            &&& three / 64 % 64 == y % 16 * 4 + z / 64
            &&& three % 64 == z % 64
        }),
        (x * 1024 + y * 4) / 4096 == x / 4,
        (x * 1024 + y * 4) / 64 % 64 == x % 4 * 16 + y / 16,
        (x * 1024 + y * 4) % 64 == y % 16 * 4,
        x * 16 / 64 == x / 4,
        x * 16 % 64 == x % 4 * 16,
{
    let three = x * 65536 + y * 256 + z;
    assert(three / 4096 == x * 16 + y / 16);
    assert(three / 64 == x * 1024 + y * 4 + z / 64);
    assert((x * 1024 + y * 4) / 64 == x * 16 + y / 16);
}

} // verus!
