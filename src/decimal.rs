//! Base-10 text for bytes: what a decimal numeral is, reading one into a `u8`,
//! and writing a `u8` as its canonical numeral.
use vstd::prelude::*;

verus! {

pub open spec fn is_digit(c: char) -> bool {
    '0' <= c && c <= '9'
}

pub open spec fn digit_value(c: char) -> nat {
    (c as int - '0' as int) as nat
}

pub open spec fn all_digits(s: Seq<char>) -> bool {
    forall|i: int| 0 <= i < s.len() ==> is_digit(#[trigger] s[i])
}

/// The number that the digits `s` denote, most significant first; the empty
/// sequence denotes 0.
pub open spec fn digits_value(s: Seq<char>) -> nat
    decreases s.len(),
{
    if s.len() == 0 {
        0
    } else {
        digits_value(s.drop_last()) * 10 + digit_value(s.last())
    }
}

/// The text after an optional leading `+`.
pub open spec fn unsigned_part(s: Seq<char>) -> Seq<char> {
    if s.len() > 0 && s[0] == '+' {
        s.drop_first()
    } else {
        s
    }
}

/// The byte that `s` spells in base 10: an optional `+`, then one digit or
/// more (leading zeros allowed), denoting at most 255. Anything else, the empty
/// text, a sign alone, a `-`, a point or spaces included, spells no byte.
pub open spec fn parse_byte(s: Seq<char>) -> Option<u8> {
    let d = unsigned_part(s);
    if d.len() > 0 && all_digits(d) && digits_value(d) <= 255 {
        Some(digits_value(d) as u8)
    } else {
        None
    }
}

pub open spec fn digit_char(d: nat) -> char {
    if d == 0 {
        '0'
    } else if d == 1 {
        '1'
    } else if d == 2 {
        '2'
    } else if d == 3 {
        '3'
    } else if d == 4 {
        '4'
    } else if d == 5 {
        '5'
    } else if d == 6 {
        '6'
    } else if d == 7 {
        '7'
    } else if d == 8 {
        '8'
    } else {
        '9'
    }
}

/// The canonical numeral of `v`: its base-10 digits, with no sign and no
/// leading zero.
pub open spec fn decimal(v: nat) -> Seq<char>
    decreases v,
{
    if v < 10 {
        seq![digit_char(v)]
    } else {
        decimal(v / 10).push(digit_char(v % 10))
    }
}

proof fn lemma_digit_char(d: nat)
    requires
        d < 10,
    ensures
        is_digit(digit_char(d)),
        digit_value(digit_char(d)) == d,
        digit_char(d) != '+',
{
}

/// The canonical numeral is a non-empty run of digits that denotes `v` and
/// starts with a digit.
pub proof fn lemma_decimal_digits(v: nat)
    ensures
        decimal(v).len() > 0,
        all_digits(decimal(v)),
        digits_value(decimal(v)) == v,
        decimal(v)[0] != '+',
    decreases v,
{
    if v < 10 {
        lemma_digit_char(v);
        assert(decimal(v).drop_last() =~= Seq::<char>::empty());
        assert(digits_value(Seq::<char>::empty()) == 0);
    } else {
        lemma_decimal_digits(v / 10);
        lemma_digit_char(v % 10);
        let s = decimal(v);
        assert(s.drop_last() =~= decimal(v / 10));
        assert(s[0] == decimal(v / 10)[0]);
        assert(s.last() == digit_char(v % 10));
        assert((v / 10) * 10 + v % 10 == v);
    }
}

/// Reading the canonical numeral of a byte gives the byte back.
pub proof fn lemma_parse_decimal(v: u8)
    ensures
        parse_byte(decimal(v as nat)) == Some(v),
{
    lemma_decimal_digits(v as nat);
}

/// A prefix of a run of digits denotes no more than the whole run.
proof fn lemma_prefix_value_le(s: Seq<char>, k: int)
    requires
        0 <= k <= s.len(),
    ensures
        digits_value(s.subrange(0, k)) <= digits_value(s),
    decreases s.len(),
{
    if k < s.len() {
        lemma_prefix_value_le(s.drop_last(), k);
        assert(s.drop_last().subrange(0, k) =~= s.subrange(0, k));
    } else {
        assert(s.subrange(0, k) =~= s);
    }
}

/// The numeral for digit `d`, as text.
fn digit_text(d: u8) -> (r: &'static str)
    requires
        d < 10,
    ensures
        r@ == seq![digit_char(d as nat)],
{
    proof {
        reveal_strlit("0");
        reveal_strlit("1");
        reveal_strlit("2");
        reveal_strlit("3");
        reveal_strlit("4");
        reveal_strlit("5");
        reveal_strlit("6");
        reveal_strlit("7");
        reveal_strlit("8");
        reveal_strlit("9");
    }
    match d {
        0 => "0",
        1 => "1",
        2 => "2",
        3 => "3",
        4 => "4",
        5 => "5",
        6 => "6",
        7 => "7",
        8 => "8",
        _ => "9",
    }
}

/// Writes `v` as its canonical numeral.
pub fn format_byte(v: u8) -> (r: String)
    ensures
        r@ == decimal(v as nat),
{
    let mut r = String::new();
    if v >= 100 {
        r.append(digit_text(v / 100));
    }
    if v >= 10 {
        r.append(digit_text((v / 10) % 10));
    }
    r.append(digit_text(v % 10));
    proof {
        let n = v as nat;
        if n >= 100 {
            assert(decimal(n / 100) == seq![digit_char(n / 100)]);
            assert(decimal(n / 10) =~= seq![digit_char(n / 100), digit_char((n / 10) % 10)]);
        } else if n >= 10 {
            assert(decimal(n / 10) == seq![digit_char(n / 10)]);
        }
        assert(r@ =~= decimal(n));
    }
    r
}

/// Reads `s` as a base-10 byte, as `parse_byte` describes.
pub fn parse_byte_text(s: &str) -> (r: Option<u8>)
    ensures
        r == parse_byte(s@),
{
    if !s.is_ascii() {
        proof {
            let i = choose|i: int| 0 <= i < s@.len() && !('\0' <= #[trigger] s@[i] <= '\u{7f}');
            let d = unsigned_part(s@);
            if s@.len() > 0 && s@[0] == '+' {
                assert(d[i - 1] == s@[i]);
            } else {
                assert(d[i] == s@[i]);
            }
        }
        return None;
    }
    let len = s.unicode_len();
    let start: usize = if len > 0 && s.get_ascii(0) == 43u8 {
        1
    } else {
        0
    };
    let ghost d = unsigned_part(s@);
    proof {
        if len > 0 {
            assert(s@[0] as nat == s@[0] as u8 as nat);
        }
        assert(d =~= s@.subrange(start as int, len as int));
    }
    if start == len {
        return None;
    }
    let mut i: usize = start;
    let mut acc: u32 = 0;
    while i < len
        invariant
            start <= i <= len,
            len == s@.len(),
            s.is_ascii(),
            d == s@.subrange(start as int, len as int),
            d == unsigned_part(s@),
            all_digits(d.subrange(0, i - start)),
            acc == digits_value(d.subrange(0, i - start)),
            acc <= 255,
        decreases len - i,
    {
        let b = s.get_ascii(i);
        let ghost c = s@[i as int];
        proof {
            assert(c as nat == b as nat);
            assert(d[i - start] == c);
        }
        if b < 48u8 || b > 57u8 {
            proof {
                assert(!is_digit(d[i - start]));
            }
            return None;
        }
        assert(digit_value(c) == b - 48);
        let ghost prev = d.subrange(0, i - start);
        acc = acc * 10 + (b - 48u8) as u32;
        i = i + 1;
        proof {
            let next = d.subrange(0, i - start);
            assert(next.drop_last() =~= prev);
            assert(next.last() == c);
            assert(acc == digits_value(next));
        }
        if acc > 255 {
            proof {
                lemma_prefix_value_le(d, i - start);
            }
            return None;
        }
    }
    proof {
        assert(d.subrange(0, i - start) =~= d);
    }
    Some(acc as u8)
}

} // verus!
