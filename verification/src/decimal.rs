//! Decimal text: the canonical base-ten spelling of natural numbers.

use vstd::prelude::*;
use vstd::string::*;

verus! {

/// Whether `c` is one of the ten ASCII digits.
pub open spec fn is_digit(c: char) -> bool {
    48 <= c as u32 <= 57
}

/// The number a digit stands for.
pub open spec fn digit_value(c: char) -> nat {
    (c as u32 - 48) as nat
}

/// The digit that stands for `d`, for `d` below ten.
pub open spec fn digit_char(d: nat) -> char {
    ((48 + d) as u8) as char
}

/// Whether `s` is a non-empty run of digits.
pub open spec fn is_decimal(s: Seq<char>) -> bool {
    &&& s.len() > 0
    &&& forall|i: int| 0 <= i < s.len() ==> is_digit(#[trigger] s[i])
}

/// Whether `s` is the canonical spelling of a number: digits only, not
/// empty, and no leading zero unless the text is the single digit zero.
pub open spec fn is_canonical_decimal(s: Seq<char>) -> bool {
    &&& is_decimal(s)
    &&& (s.len() == 1 || s[0] != '0')
}

/// The number that a run of digits spells, most significant digit first.
pub open spec fn decimal_value(s: Seq<char>) -> nat
    decreases s.len(),
{
    if s.len() == 0 {
        0
    } else {
        10 * decimal_value(s.drop_last()) + digit_value(s.last())
    }
}

/// The canonical spelling of `n`.
pub open spec fn decimal_text(n: nat) -> Seq<char>
    decreases n,
{
    if n < 10 {
        seq![digit_char(n)]
    } else {
        decimal_text(n / 10).push(digit_char(n % 10))
    }
}

/// The text spelled by digits that are stored least significant first.
pub open spec fn digits_text(digits: Seq<u8>) -> Seq<char> {
    Seq::new(digits.len(), |i: int| digit_char(digits[digits.len() - 1 - i] as nat))
}

/// A digit is the digit of its own value, and only the digit zero stands for
/// zero.
pub proof fn lemma_digit(c: char)
    requires
        is_digit(c),
    ensures
        digit_value(c) < 10,
        digit_char(digit_value(c)) == c,
        c != '0' ==> digit_value(c) >= 1,
{
}

/// A digit string that does not start with zero spells a positive number.
pub proof fn lemma_leading_digit_positive(s: Seq<char>)
    requires
        is_decimal(s),
        s[0] != '0',
    ensures
        decimal_value(s) >= 1,
    decreases s.len(),
{
    assert(decimal_value(s) == 10 * decimal_value(s.drop_last()) + digit_value(s.last()));
    if s.len() == 1 {
        assert(s.last() == s[0]);
        lemma_digit(s[0]);
    } else {
        let p = s.drop_last();
        assert forall|i: int| 0 <= i < p.len() implies is_digit(#[trigger] p[i]) by {
            assert(p[i] == s[i]);
        }
        assert(p[0] == s[0]);
        lemma_leading_digit_positive(p);
    }
}

/// The spelling of a number is canonical and spells that number.
pub proof fn lemma_text_spells_number(n: nat)
    ensures
        is_canonical_decimal(decimal_text(n)),
        decimal_value(decimal_text(n)) == n,
    decreases n,
{
    let t = decimal_text(n);
    if n < 10 {
        assert(t.len() == 1);
        assert(t[0] == digit_char(n));
        assert(t.drop_last().len() == 0);
        assert(decimal_value(t.drop_last()) == 0);
    } else {
        let p = decimal_text(n / 10);
        lemma_text_spells_number(n / 10);
        assert(t.drop_last() =~= p);
        assert(t.last() == digit_char(n % 10));
        assert forall|i: int| 0 <= i < t.len() implies is_digit(#[trigger] t[i]) by {
            if i < p.len() {
                assert(t[i] == p[i]);
            }
        }
        assert(t[0] == p[0]);
        if p.len() == 1 {
            assert(p.drop_last().len() == 0);
            assert(decimal_value(p.drop_last()) == 0);
            assert(p.last() == p[0]);
            assert(digit_value(p[0]) == n / 10);
        }
    }
}

/// A canonical text is the spelling of the number it spells.
pub proof fn lemma_number_spells_text(s: Seq<char>)
    requires
        is_canonical_decimal(s),
    ensures
        decimal_text(decimal_value(s)) == s,
    decreases s.len(),
{
    let p = s.drop_last();
    if s.len() == 1 {
        assert(p.len() == 0);
        assert(decimal_value(p) == 0);
        assert(s.last() == s[0]);
        assert(is_digit(s[0]));
        assert(decimal_value(s) == digit_value(s[0]));
        lemma_digit(s[0]);
        assert(decimal_text(decimal_value(s)) =~= s);
    } else {
        assert forall|i: int| 0 <= i < p.len() implies is_digit(#[trigger] p[i]) by {
            assert(p[i] == s[i]);
        }
        assert(p[0] == s[0]);
        lemma_leading_digit_positive(p);
        lemma_number_spells_text(p);
        let v = decimal_value(s);
        assert(is_digit(s.last()));
        assert(v == 10 * decimal_value(p) + digit_value(s.last()));
        assert(v / 10 == decimal_value(p));
        assert(v % 10 == digit_value(s.last()));
        lemma_digit(s.last());
        assert(decimal_text(v) == decimal_text(v / 10).push(digit_char(v % 10)));
        assert(decimal_text(v) =~= p.push(s.last()));
        assert(p.push(s.last()) =~= s);
    }
}

/// Tells whether `s` is the canonical decimal spelling of a number.
pub fn is_canonical(s: &str) -> (ok: bool)
    ensures
        ok == is_canonical_decimal(s@),
{
    let n = s.unicode_len();
    if n == 0 {
        return false;
    }
    let mut i: usize = 0;
    while i < n
        invariant
            n == s@.len(),
            i <= n,
            forall|j: int| 0 <= j < i ==> is_digit(#[trigger] s@[j]),
        decreases n - i,
    {
        let code = s.get_char(i) as u32;
        if code < 48 || code > 57 {
            return false;
        }
        i = i + 1;
    }
    n == 1 || s.get_char(0) as u32 != 48
}

/// The one-character text of a digit.
fn digit_str(d: u8) -> (r: &'static str)
    requires
        d < 10,
    ensures
        r@ == seq![digit_char(d as nat)],
{
    proof {
        reveal_strlit("0");
        reveal_strlit("1");
        reveal_strlit("2");
        reveal_strlit("3");
        reveal_strlit("4");
        reveal_strlit("5");
        reveal_strlit("6");
        reveal_strlit("7");
        reveal_strlit("8");
        reveal_strlit("9");
    }
    let r = match d {
        0 => "0",
        1 => "1",
        2 => "2",
        3 => "3",
        4 => "4",
        5 => "5",
        6 => "6",
        7 => "7",
        8 => "8",
        _ => "9",
    };
    assert(r@ =~= seq![digit_char(d as nat)]);
    r
}

/// Writes out digits that are stored least significant first.
pub fn text_of_digits(digits: &Vec<u8>) -> (out: String)
    requires
        forall|i: int| 0 <= i < digits@.len() ==> #[trigger] digits@[i] < 10,
    ensures
        out@ == digits_text(digits@),
{
    let mut out = String::new();
    let mut i: usize = digits.len();
    while i > 0
        invariant
            i <= digits@.len(),
            forall|j: int| 0 <= j < digits@.len() ==> #[trigger] digits@[j] < 10,
            out@ == digits_text(digits@).subrange(0, digits@.len() - i),
        decreases i,
    {
        i = i - 1;
        let piece = digit_str(digits[i]);
        let ghost before = out@;
        out.append(piece);
        assert(out@ =~= digits_text(digits@).subrange(0, digits@.len() - i)) by {
            assert(out@ == before + piece@);
        }
    }
    assert(out@ =~= digits_text(digits@));
    out
}

/// The canonical decimal spelling of `n`.
pub fn decimal_of(n: usize) -> (out: String)
    ensures
        out@ == decimal_text(n as nat),
{
    let mut digits: Vec<u8> = Vec::new();
    let mut rest: usize = n;
    while rest >= 10
        invariant
            forall|i: int| 0 <= i < digits@.len() ==> #[trigger] digits@[i] < 10,
            decimal_text(n as nat) == decimal_text(rest as nat) + digits_text(digits@),
        decreases rest,
    {
        let d = (rest % 10) as u8;
        let ghost before = digits@;
        digits.push(d);
        proof {
            lemma_digits_grow(before, d, rest as nat);
        }
        rest = rest / 10;
    }
    let ghost before = digits@;
    digits.push(rest as u8);
    proof {
        assert(digits_text(digits@) =~= seq![digit_char(rest as nat)] + digits_text(before));
        assert(decimal_text(n as nat) =~= digits_text(digits@));
    }
    text_of_digits(&digits)
}

/// Taking the last digit off a number of two or more digits and storing it
/// in front of those already taken leaves the spelled text unchanged.
pub proof fn lemma_digits_grow(taken: Seq<u8>, d: u8, rest: nat)
    requires
        rest >= 10,
        d == rest % 10,
    ensures
        decimal_text(rest) + digits_text(taken) == decimal_text(rest / 10) + digits_text(
            taken.push(d),
        ),
{
    let grown = taken.push(d);
    assert(digits_text(grown) =~= seq![digit_char(d as nat)] + digits_text(taken)) by {
        assert forall|i: int| 0 <= i < grown.len() implies digits_text(grown)[i] == (seq![
            digit_char(d as nat),
        ] + digits_text(taken))[i] by {
            if i > 0 {
                assert(grown[grown.len() - 1 - i] == taken[taken.len() - 1 - (i - 1)]);
            }
        }
    }
    assert(decimal_text(rest) == decimal_text(rest / 10).push(digit_char(rest % 10)));
    assert(decimal_text(rest) + digits_text(taken) =~= decimal_text(rest / 10) + digits_text(
        grown,
    ));
}

} // verus!
