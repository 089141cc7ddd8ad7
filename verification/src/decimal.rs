//! Decimal text for unsigned integers: rendering and parsing.

use vstd::prelude::*;

verus! {

/// Whether `c` is one of the ASCII digits `0` to `9`.
pub open spec fn is_digit(c: char) -> bool {
    '0' <= c && c <= '9'
}

/// The value of an ASCII digit.
pub open spec fn digit_value(c: char) -> nat {
    (c as int - '0' as int) as nat
}

/// The ASCII digit that stands for `d`, for `d < 10`.
pub open spec fn digit_char(d: nat) -> char {
    if d == 0 { '0' }
    else if d == 1 { '1' }
    else if d == 2 { '2' }
    else if d == 3 { '3' }
    else if d == 4 { '4' }
    else if d == 5 { '5' }
    else if d == 6 { '6' }
    else if d == 7 { '7' }
    else if d == 8 { '8' }
    else { '9' }
}

/// The shortest decimal text of `n`, without sign or leading zeros.
pub open spec fn decimal(n: nat) -> Seq<char>
    decreases n,
{
    if n < 10 {
        seq![digit_char(n)]
    } else {
        decimal(n / 10).push(digit_char(n % 10))
    }
}

/// The value of a text made of decimal digits, most significant first.
pub open spec fn digits_value(s: Seq<char>) -> nat
    decreases s.len(),
{
    if s.len() == 0 {
        0
    } else {
        digits_value(s.drop_last()) * 10 + digit_value(s.last())
    }
}

/// Every character of `s` is a decimal digit.
pub open spec fn all_digits(s: Seq<char>) -> bool {
    forall|i: int| 0 <= i < s.len() ==> is_digit(#[trigger] s[i])
}

/// The text after an optional leading `+`.
pub open spec fn unsigned_part(s: Seq<char>) -> Seq<char> {
    if s.len() > 0 && s[0] == '+' {
        s.drop_first()
    } else {
        s
    }
}

/// What parsing `s` as a `usize` gives: an optional `+`, then one or more
/// decimal digits whose value fits in a `usize`.
pub open spec fn parse_usize_spec(s: Seq<char>) -> Option<usize> {
    let d = unsigned_part(s);
    if d.len() > 0 && all_digits(d) && digits_value(d) <= usize::MAX {
        Some(digits_value(d) as usize)
    } else {
        None
    }
}

/// The one-character text of the digit `d`.
fn digit_text(d: u32) -> (r: &'static str)
    requires
        d < 10,
    ensures
        r@ == seq![digit_char(d as nat)],
{
    proof {
        reveal_strlit("0");
        reveal_strlit("1");
        reveal_strlit("2");
        reveal_strlit("3");
        reveal_strlit("4");
        reveal_strlit("5");
        reveal_strlit("6");
        reveal_strlit("7");
        reveal_strlit("8");
        reveal_strlit("9");
    }
    if d == 0 {
        "0"
    } else if d == 1 {
        "1"
    } else if d == 2 {
        "2"
    } else if d == 3 {
        "3"
    } else if d == 4 {
        "4"
    } else if d == 5 {
        "5"
    } else if d == 6 {
        "6"
    } else if d == 7 {
        "7"
    } else if d == 8 {
        "8"
    } else {
        "9"
    }
}

/// Renders `n` in decimal, as `n.to_string()` does.
pub fn format_u32(n: u32) -> (s: String)
    ensures
        s@ == decimal(n as nat),
        canonical_digits(s@),
        digits_value(s@) == n,
    decreases n,
{
    proof {
        decimal_is_canonical(n as nat);
    }
    if n < 10 {
        digit_text(n).to_owned()
    } else {
        let mut s = format_u32(n / 10);
        let t = digit_text(n % 10);
        s.append(t);
        s
    }
}

/// Parses `text` as `text.parse::<usize>()` does: `None` exactly where that
/// call returns an error.
pub fn parse_usize(text: &str) -> (r: Option<usize>)
    ensures
        r == parse_usize_spec(text@),
{
    let ghost s = text@;
    let len = text.unicode_len();
    let mut start: usize = 0;
    if len > 0 && text.get_char(0) == '+' {
        start = 1;
    }
    let ghost d = unsigned_part(s);
    assert(d =~= s.subrange(start as int, s.len() as int));
    if start == len {
        return None;
    }
    let mut i: usize = start;
    let mut acc: usize = 0;
    let mut overflow = false;
    while i < len
        invariant
            s == text@,
            len == s.len(),
            start <= i <= len,
            d == unsigned_part(s),
            d =~= s.subrange(start as int, s.len() as int),
            all_digits(d.take(i - start)),
            !overflow ==> acc == digits_value(d.take(i - start)),
            overflow ==> digits_value(d.take(i - start)) > usize::MAX,
        decreases len - i,
    {
        let c = text.get_char(i);
        let ghost k: int = i - start;
        if !('0' <= c && c <= '9') {
            assert(c == d[k]);
            assert(!is_digit(d[k]));
            assert(!all_digits(d));
            return None;
        }
        let v: u32 = (c as u32) - ('0' as u32);
        assert(d.take(k + 1).drop_last() =~= d.take(k));
        assert(d.take(k + 1).last() == c);
        if !overflow {
            match acc.checked_mul(10) {
                Some(m) => match m.checked_add(v as usize) {
                    Some(t) => {
                        acc = t;
                    },
                    None => {
                        overflow = true;
                    },
                },
                None => {
                    overflow = true;
                },
            }
        }
        assert(all_digits(d.take(k + 1)));
        i = i + 1;
    }
    assert(d.take(len - start) =~= d);
    if overflow {
        None
    } else {
        Some(acc)
    }
}

/// The digit characters carry the values they stand for.
proof fn lemma_digit_char(d: nat)
    requires
        d < 10,
    ensures
        is_digit(digit_char(d)),
        digit_value(digit_char(d)) == d,
{
}

/// The decimal text of `n` is a non-empty run of digits whose value is `n`.
proof fn lemma_decimal_digits(n: nat)
    ensures
        decimal(n).len() > 0,
        all_digits(decimal(n)),
        digits_value(decimal(n)) == n,
    decreases n,
{
    if n < 10 {
        lemma_digit_char(n);
        assert(decimal(n).drop_last() =~= Seq::<char>::empty());
        assert(digits_value(Seq::<char>::empty()) == 0);
    } else {
        lemma_decimal_digits(n / 10);
        lemma_digit_char(n % 10);
        let s = decimal(n);
        assert(s.drop_last() =~= decimal(n / 10));
        assert(digits_value(s) == digits_value(decimal(n / 10)) * 10 + n % 10);
        assert forall|i: int| 0 <= i < s.len() implies is_digit(#[trigger] s[i]) by {
            if i < s.len() - 1 {
                assert(s[i] == decimal(n / 10)[i]);
            }
        }
    }
}

/// Parsing the decimal text of a `usize` gives that `usize` back.
pub proof fn parse_after_format(n: usize)
    ensures
        parse_usize_spec(decimal(n as nat)) == Some(n),
{
    lemma_decimal_digits(n as nat);
    lemma_digit_char(0);
    let s = decimal(n as nat);
    assert(is_digit(s[0]));
    assert(unsigned_part(s) == s);
}

/// Distinct numbers have distinct decimal texts.
pub proof fn decimal_injective(a: nat, b: nat)
    ensures
        decimal(a) == decimal(b) ==> a == b,
{
    lemma_decimal_digits(a);
    lemma_decimal_digits(b);
}

/// `s` is a canonical decimal text: one or more digits, and no leading zero
/// unless the text is the single digit `0`.
pub open spec fn canonical_digits(s: Seq<char>) -> bool {
    &&& s.len() > 0
    &&& all_digits(s)
    &&& (s.len() == 1 || s[0] != '0')
}

/// The decimal text of `n` is made of digits, has value `n`, and has no
/// leading zero.
pub proof fn decimal_is_canonical(n: nat)
    ensures
        canonical_digits(decimal(n)),
        digits_value(decimal(n)) == n,
    decreases n,
{
    lemma_decimal_digits(n);
    if n >= 10 {
        decimal_is_canonical(n / 10);
        let p = decimal(n / 10);
        assert(decimal(n)[0] == p[0]);
        if p.len() == 1 {
            assert(p.drop_last() =~= Seq::<char>::empty());
            assert(digits_value(Seq::<char>::empty()) == 0);
            assert(digits_value(p) == digit_value(p[0]));
            assert(p[0] != '0');
        }
    }
}

proof fn lemma_digit_roundtrip(c: char)
    requires
        is_digit(c),
    ensures
        digit_value(c) < 10,
        digit_char(digit_value(c)) == c,
{
    let v = c as int;
    assert(48 <= v <= 57);
    if v == 48 { assert(c == '0'); }
    else if v == 49 { assert(c == '1'); }
    else if v == 50 { assert(c == '2'); }
    else if v == 51 { assert(c == '3'); }
    else if v == 52 { assert(c == '4'); }
    else if v == 53 { assert(c == '5'); }
    else if v == 54 { assert(c == '6'); }
    else if v == 55 { assert(c == '7'); }
    else if v == 56 { assert(c == '8'); }
    else { assert(c == '9'); }
}

proof fn lemma_leading_digit_positive(s: Seq<char>)
    requires
        s.len() > 0,
        all_digits(s),
        s[0] != '0',
    ensures
        digits_value(s) > 0,
    decreases s.len(),
{
    if s.len() == 1 {
        assert(s.drop_last() =~= Seq::<char>::empty());
        assert(digits_value(Seq::<char>::empty()) == 0);
        assert(is_digit(s[0]));
    } else {
        let p = s.drop_last();
        assert(p[0] == s[0]);
        assert(all_digits(p)) by {
            assert forall|i: int| 0 <= i < p.len() implies is_digit(#[trigger] p[i]) by {
                assert(p[i] == s[i]);
            }
        }
        lemma_leading_digit_positive(p);
    }
}

/// The decimal text of `n` is the only canonical decimal text with value `n`.
pub proof fn decimal_unique(s: Seq<char>, n: nat)
    requires
        canonical_digits(s),
        digits_value(s) == n,
    ensures
        s == decimal(n),
    decreases s.len(),
{
    let c = s.last();
    assert(is_digit(s[s.len() - 1]));
    lemma_digit_roundtrip(c);
    if s.len() == 1 {
        assert(s.drop_last() =~= Seq::<char>::empty());
        assert(digits_value(Seq::<char>::empty()) == 0);
        assert(n == digit_value(c));
        assert(s =~= seq![c]);
    } else {
        let p = s.drop_last();
        assert(p[0] == s[0]);
        assert(all_digits(p)) by {
            assert forall|i: int| 0 <= i < p.len() implies is_digit(#[trigger] p[i]) by {
                assert(p[i] == s[i]);
            }
        }
        lemma_leading_digit_positive(p);
        let m = digits_value(p);
        assert(n == m * 10 + digit_value(c));
        assert(n / 10 == m);
        assert(n % 10 == digit_value(c));
        decimal_unique(p, m);
        assert(s =~= p.push(c));
    }
}

/// A leading `+` is accepted once: `+` followed by a text that does not start
/// with `+` parses as that text does.
pub proof fn parse_accepts_plus(s: Seq<char>)
    requires
        s.len() == 0 || s[0] != '+',
    ensures
        parse_usize_spec(seq!['+'] + s) == parse_usize_spec(s),
{
    assert((seq!['+'] + s)[0] == '+');
    assert((seq!['+'] + s).drop_first() =~= s);
}

/// Appending a digit to a parsed text multiplies its value by ten and adds
/// the digit, as long as the result fits.
pub proof fn parse_appends_digit(s: Seq<char>, c: char, n: usize)
    requires
        parse_usize_spec(s) == Some(n),
        is_digit(c),
        n * 10 + digit_value(c) <= usize::MAX,
    ensures
        parse_usize_spec(s.push(c)) == Some((n * 10 + digit_value(c)) as usize),
{
    let d = unsigned_part(s);
    let e = unsigned_part(s.push(c));
    if s.len() > 0 && s[0] == '+' {
        assert(s.push(c)[0] == '+');
        assert(e =~= d.push(c));
    } else {
        assert(d.len() > 0);
        assert(s.push(c)[0] == s[0]);
        assert(e =~= d.push(c));
    }
    assert(e.drop_last() =~= d);
    assert(all_digits(e)) by {
        assert forall|i: int| 0 <= i < e.len() implies is_digit(#[trigger] e[i]) by {
            if i < d.len() {
                assert(e[i] == d[i]);
            }
        }
    }
}

/// A text with a character that is neither a digit nor one leading `+` is
/// no number; neither is an empty text or a lone `+`.
pub proof fn parse_rejects(s: Seq<char>, i: int)
    requires
        0 <= i < s.len(),
        !is_digit(s[i]),
        !(i == 0 && s[i] == '+'),
    ensures
        parse_usize_spec(s) is None,
        parse_usize_spec(Seq::empty()) is None,
        parse_usize_spec(seq!['+']) is None,
{
    let d = unsigned_part(s);
    if s.len() > 0 && s[0] == '+' {
        assert(i > 0);
        assert(d[i - 1] == s[i]);
    } else {
        assert(d[i] == s[i]);
    }
    assert(unsigned_part(seq!['+']) =~= Seq::<char>::empty());
}

} // verus!
