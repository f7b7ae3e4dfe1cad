//! Decimal text: how identifiers and counts are written into messages, into
//! store keys and into store arguments, and how they are read back.

use vstd::prelude::*;
use vstd::string::*;
use vstd::utf8::*;

verus! {

/// The character for the decimal digit `d`.
pub open spec fn digit(d: nat) -> char
    recommends
        d < 10,
{
    (48 + d) as char
}

/// The decimal digits of `n`, most significant first, without leading zeros.
pub open spec fn digits(n: nat) -> Seq<char>
    decreases n,
{
    if n < 10 {
        seq![digit(n)]
    } else {
        digits(n / 10).push(digit(n % 10))
    }
}

/// `n` in decimal, with a leading minus sign if it is negative.
pub open spec fn decimal(n: int) -> Seq<char> {
    if n < 0 {
        seq!['-'] + digits((-n) as nat)
    } else {
        digits(n as nat)
    }
}

fn digit_text(d: u64) -> (text: &'static str)
    requires
        d < 10,
    ensures
        text@ == seq![digit(d as nat)],
{
    proof {
        reveal_strlit("0");
        reveal_strlit("1");
        reveal_strlit("2");
        reveal_strlit("3");
        reveal_strlit("4");
        reveal_strlit("5");
        reveal_strlit("6");
        reveal_strlit("7");
        reveal_strlit("8");
        reveal_strlit("9");
    }
    let text = match d {
        0 => "0",
        1 => "1",
        2 => "2",
        3 => "3",
        4 => "4",
        5 => "5",
        6 => "6",
        7 => "7",
        8 => "8",
        _ => "9",
    };
    assert(text@ =~= seq![digit(d as nat)]);
    text
}

/// Appends `n` in decimal.
pub fn append_u64(out: &mut String, n: u64)
    ensures
        final(out)@ == old(out)@ + decimal(n as int),
    decreases n,
{
    if n >= 10 {
        append_u64(out, n / 10);
    }
    out.append(digit_text(n % 10));
    proof {
        if n >= 10 {
            assert(old(out)@ + digits((n / 10) as nat) + seq![digit((n % 10) as nat)]
                =~= old(out)@ + digits(n as nat));
        }
    }
}

/// Appends `n` in decimal.
pub fn append_i64(out: &mut String, n: i64)
    ensures
        final(out)@ == old(out)@ + decimal(n as int),
{
    if n < 0 {
        out.append("-");
        proof {
            reveal_strlit("-");
            assert("-"@ =~= seq!['-']);
        }
        let below: u64 = (-(n + 1)) as u64;
        append_u64(out, below + 1);
        proof {
            assert(old(out)@ + seq!['-'] + digits((-n) as nat) =~= old(out)@ + (seq!['-'] + digits(
                (-n) as nat,
            )));
        }
    } else {
        append_u64(out, n as u64);
    }
}

/// Whether `c` is a decimal digit.
pub open spec fn is_digit_char(c: char) -> bool {
    '0' <= c <= '9'
}

/// Whether `b` is the ASCII code of a decimal digit.
pub open spec fn is_digit(b: u8) -> bool {
    48 <= b <= 57
}

/// The number that a sequence of ASCII digits denotes.
pub open spec fn digits_value(b: Seq<u8>) -> nat
    decreases b.len(),
{
    if b.len() == 0 {
        0
    } else {
        digits_value(b.drop_last()) * 10 + (b.last() - 48) as nat
    }
}

/// The 64-bit integer that `b` denotes: an optional sign followed by one or
/// more decimal digits and nothing else, within range.
pub open spec fn parse_i64(b: Seq<u8>) -> Option<i64> {
    let negative = b.len() > 0 && b[0] == 45;
    let signed = negative || (b.len() > 0 && b[0] == 43);
    let body = if signed {
        b.skip(1)
    } else {
        b
    };
    let value = if negative {
        -digits_value(body)
    } else {
        digits_value(body) as int
    };
    if body.len() > 0 && (forall|i: int| 0 <= i < body.len() ==> is_digit(#[trigger] body[i]))
        && i64::MIN <= value <= i64::MAX {
        Some(value as i64)
    } else {
        None
    }
}

/// The bytes of ASCII text.
pub open spec fn ascii_bytes(s: Seq<char>) -> Seq<u8> {
    Seq::new(s.len(), |i: int| s[i] as u8)
}

proof fn lemma_digits(n: nat)
    ensures
        digits(n).len() > 0,
        forall|i: int|
            0 <= i < digits(n).len() ==> is_digit_char(#[trigger] digits(n)[i]) && is_digit(
                digits(n)[i] as u8,
            ),
        digits_value(ascii_bytes(digits(n))) == n,
    decreases n,
{
    let b = ascii_bytes(digits(n));
    if n < 10 {
        assert(b.drop_last() =~= Seq::<u8>::empty());
        assert(b.last() == 48 + n);
        assert(digits_value(b.drop_last()) == 0);
    } else {
        lemma_digits(n / 10);
        assert(b.drop_last() =~= ascii_bytes(digits(n / 10)));
        assert(b.last() == 48 + n % 10);
    }
}

/// Decimal text ends in a digit and holds nothing but digits and a minus sign.
pub proof fn lemma_decimal_characters(n: int)
    ensures
        decimal(n).len() > 0,
        is_digit_char(decimal(n).last()),
        forall|i: int|
            0 <= i < decimal(n).len() ==> {
                let c = #[trigger] decimal(n)[i];
                c == '-' || is_digit_char(c)
            },
{
    let m: nat = if n < 0 {
        (-n) as nat
    } else {
        n as nat
    };
    lemma_digits(m);
    assert(decimal(n).last() == digits(m).last());
    assert forall|i: int| 0 <= i < decimal(n).len() implies {
        let c = #[trigger] decimal(n)[i];
        c == '-' || is_digit_char(c)
    } by {
        if n < 0 {
            if i > 0 {
                assert(decimal(n)[i] == digits(m)[i - 1]);
            }
        }
    }
}

/// What is written in decimal reads back as the number it was.
pub proof fn law_decimal_reads_back(n: i64)
    ensures
        parse_i64(encode_utf8(decimal(n as int))) == Some(n),
{
    let s = decimal(n as int);
    let m: nat = if n < 0 {
        (-n) as nat
    } else {
        n as nat
    };
    lemma_digits(m);
    lemma_decimal_characters(n as int);
    assert(is_ascii_chars(s));
    is_ascii_chars_encode_utf8(s);
    let b = encode_utf8(s);
    assert(b =~= ascii_bytes(s));
    if n < 0 {
        assert(b[0] == 45);
        assert(b.skip(1) =~= ascii_bytes(digits(m)));
    } else {
        assert(is_digit(digits(m)[0] as u8));
        assert(b =~= ascii_bytes(digits(m)));
    }
}

/// Different numbers are written differently.
pub proof fn law_decimal_is_injective(a: i64, b: i64)
    requires
        decimal(a as int) == decimal(b as int),
    ensures
        a == b,
{
    law_decimal_reads_back(a);
    law_decimal_reads_back(b);
}

/// Whether `a` comes before `b` when bytes are compared one by one, from the
/// first on; a sequence comes before those that it is the beginning of.
pub open spec fn bytes_before(a: Seq<u8>, b: Seq<u8>) -> bool
    decreases a.len(),
{
    if b.len() == 0 {
        false
    } else if a.len() == 0 {
        true
    } else if a[0] != b[0] {
        a[0] < b[0]
    } else {
        bytes_before(a.drop_first(), b.drop_first())
    }
}

/// No sequence comes before itself.
pub proof fn lemma_bytes_order_is_strict(a: Seq<u8>)
    ensures
        !bytes_before(a, a),
    decreases a.len(),
{
    if a.len() > 0 {
        lemma_bytes_order_is_strict(a.drop_first());
    }
}

pub proof fn lemma_bytes_order_is_transitive(a: Seq<u8>, b: Seq<u8>, c: Seq<u8>)
    requires
        bytes_before(a, b),
        bytes_before(b, c),
    ensures
        bytes_before(a, c),
    decreases a.len(),
{
    if a.len() > 0 && a[0] == b[0] && b[0] == c[0] {
        lemma_bytes_order_is_transitive(a.drop_first(), b.drop_first(), c.drop_first());
    }
}

/// Of two different sequences, one comes before the other.
pub proof fn lemma_bytes_order_is_total(a: Seq<u8>, b: Seq<u8>)
    requires
        a != b,
    ensures
        bytes_before(a, b) || bytes_before(b, a),
    decreases a.len(),
{
    if a.len() == 0 || b.len() == 0 {
        assert(a.len() == 0 && b.len() == 0 ==> a =~= b);
    } else if a[0] == b[0] {
        assert(a =~= seq![a[0]] + a.drop_first());
        assert(b =~= seq![b[0]] + b.drop_first());
        lemma_bytes_order_is_total(a.drop_first(), b.drop_first());
    }
}

} // verus!
