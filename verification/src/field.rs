//! Field elements of the primary circuit: the scalars of the Pallas curve,
//! read from and written to canonical decimal text.

use crate::decimal::{
    decimal_text, decimal_value, digit_char, digits_text, is_canonical_decimal, lemma_digits_grow,
    lemma_number_spells_text, lemma_text_spells_number, text_of_digits,
};
use ff::PrimeField;
use vstd::prelude::*;
use vstd::string::*;

verus! {

/// The order of the scalar field of the Pallas curve.
pub open spec fn scalar_modulus() -> nat {
    28948022309329048855892746252171976963363056481941647379679742748393362948097nat
}

/// The number that `bytes` hold, least significant byte first.
pub open spec fn le_value(bytes: Seq<u8>) -> nat
    decreases bytes.len(),
{
    if bytes.len() == 0 {
        0
    } else {
        bytes[0] as nat + 256 * le_value(bytes.subrange(1, bytes.len() as int))
    }
}

/// Why a text is not a field element.
#[derive(Clone, Copy, Debug, PartialEq, Eq)]
pub enum FieldParseError {
    /// The text is not a canonical decimal number.
    Malformed,
    /// The number is not below the field's order.
    OutOfRange,
}

/// What reading `s` as a field element gives: the number it spells, when
/// `s` is canonical decimal text and the number is below the field's order.
pub open spec fn parse_outcome(s: Seq<char>) -> Result<nat, FieldParseError> {
    if !is_canonical_decimal(s) {
        Err(FieldParseError::Malformed)
    } else if decimal_value(s) >= scalar_modulus() {
        Err(FieldParseError::OutOfRange)
    } else {
        Ok(decimal_value(s))
    }
}

/// Bytes hold zero exactly when each of them is zero.
pub proof fn lemma_zero_bytes(bytes: Seq<u8>)
    ensures
        le_value(bytes) == 0 <==> forall|i: int| 0 <= i < bytes.len() ==> #[trigger] bytes[i] == 0,
    decreases bytes.len(),
{
    if bytes.len() > 0 {
        let rest = bytes.subrange(1, bytes.len() as int);
        lemma_zero_bytes(rest);
        if le_value(bytes) == 0 {
            assert forall|i: int| 0 <= i < bytes.len() implies #[trigger] bytes[i] == 0 by {
                if i > 0 {
                    assert(rest[i - 1] == bytes[i]);
                }
            }
        }
        if forall|i: int| 0 <= i < bytes.len() ==> #[trigger] bytes[i] == 0 {
            assert forall|i: int| 0 <= i < rest.len() implies #[trigger] rest[i] == 0 by {
                assert(rest[i] == bytes[i + 1]);
            }
        }
    }
}

/// Asks the curve library for the scalar that a decimal text spells.
///
/// Calls `PrimeField::from_str_vartime` on `pasta_curves::pallas::Scalar` and
/// hands the scalar back through `PrimeField::to_repr`. The first accepts
/// exactly the canonical decimal texts (not empty, digits only, no leading
/// zero but for the text `0`) and builds the number digit by digit in the
/// field, so the scalar is the spelled number reduced by the field's order.
/// The second writes the scalar's canonical residue in 32 bytes, least
/// significant first.
#[verifier::external_body]
fn scalar_from_decimal(s: &str) -> (r: Option<[u8; 32]>)
    ensures
        r is Some <==> is_canonical_decimal(s@),
        r matches Some(bytes) ==> le_value(bytes@) == decimal_value(s@) % scalar_modulus(),
{
    match pasta_curves::pallas::Scalar::from_str_vartime(s) {
        Some(scalar) => Some(scalar.to_repr()),
        None => None,
    }
}

/// Divides the number in `work` by ten in place and returns the remainder.
fn divide_by_ten(work: &mut Vec<u8>) -> (r: u8)
    ensures
        final(work)@.len() == old(work)@.len(),
        le_value(old(work)@) == 10 * le_value(final(work)@) + r,
        r < 10,
{
    let n = work.len();
    let mut i: usize = n;
    let mut r: u16 = 0;
    while i > 0
        invariant
            i <= n,
            n == work@.len(),
            n == old(work)@.len(),
            r < 10,
            work@.subrange(0, i as int) == old(work)@.subrange(0, i as int),
            le_value(old(work)@.subrange(i as int, n as int)) == 10 * le_value(
                work@.subrange(i as int, n as int),
            ) + r,
        decreases i,
    {
        i = i - 1;
        let ghost before = work@;
        let ghost high = le_value(before.subrange(i + 1, n as int));
        assert(before[i as int] == old(work)@[i as int]) by {
            assert(before.subrange(0, i + 1)[i as int] == old(work)@.subrange(0, i + 1)[i as int]);
        }
        let cur: u16 = r * 256 + work[i] as u16;
        let q: u16 = cur / 10;
        r = cur % 10;
        work.set(i, q as u8);
        proof {
            let was = old(work)@.subrange(i as int, n as int);
            let now = work@.subrange(i as int, n as int);
            assert(was.subrange(1, was.len() as int) =~= old(work)@.subrange(i + 1, n as int));
            assert(now.subrange(1, now.len() as int) =~= before.subrange(i + 1, n as int));
            assert(was[0] == old(work)@[i as int]);
            assert(now[0] == q);
            assert(le_value(now) == q + 256 * high);
            assert(work@.subrange(0, i as int) =~= old(work)@.subrange(0, i as int)) by {
                assert forall|j: int| 0 <= j < i implies work@[j] == old(work)@[j] by {
                    assert(before.subrange(0, i + 1)[j] == old(work)@.subrange(0, i + 1)[j]);
                }
            }
        }
    }
    assert(work@.subrange(0, n as int) =~= work@);
    assert(old(work)@.subrange(0, n as int) =~= old(work)@);
    r as u8
}

/// Tells whether the number in `work` is zero.
fn holds_zero(work: &Vec<u8>) -> (zero: bool)
    ensures
        zero == (le_value(work@) == 0),
{
    let mut i: usize = 0;
    while i < work.len()
        invariant
            i <= work@.len(),
            forall|j: int| 0 <= j < i ==> #[trigger] work@[j] == 0,
        decreases work@.len() - i,
    {
        if work[i] != 0 {
            proof {
                lemma_zero_bytes(work@);
            }
            return false;
        }
        i = i + 1;
    }
    proof {
        lemma_zero_bytes(work@);
    }
    true
}

/// The canonical decimal spelling of the number that `bytes` hold.
pub fn decimal_of_bytes(bytes: &[u8]) -> (out: String)
    ensures
        out@ == decimal_text(le_value(bytes@)),
{
    let mut work: Vec<u8> = Vec::new();
    let mut k: usize = 0;
    while k < bytes.len()
        invariant
            k <= bytes@.len(),
            work@ == bytes@.subrange(0, k as int),
        decreases bytes@.len() - k,
    {
        work.push(bytes[k]);
        assert(work@ =~= bytes@.subrange(0, k + 1));
        k = k + 1;
    }
    assert(work@ =~= bytes@);
    let mut digits: Vec<u8> = Vec::new();
    loop
        invariant_except_break
            forall|i: int| 0 <= i < digits@.len() ==> #[trigger] digits@[i] < 10,
            decimal_text(le_value(bytes@)) == decimal_text(le_value(work@)) + digits_text(
                digits@,
            ),
        ensures
            forall|i: int| 0 <= i < digits@.len() ==> #[trigger] digits@[i] < 10,
            decimal_text(le_value(bytes@)) == digits_text(digits@),
        decreases le_value(work@),
    {
        let ghost rest = le_value(work@);
        let ghost taken = digits@;
        let r = divide_by_ten(&mut work);
        if holds_zero(&work) {
            digits.push(r);
            proof {
                assert(digits_text(digits@) =~= seq![digit_char(r as nat)] + digits_text(taken));
                assert(decimal_text(rest) =~= seq![digit_char(r as nat)]);
                assert(decimal_text(le_value(bytes@)) =~= digits_text(digits@));
            }
            break ;
        }
        proof {
            assert(rest / 10 == le_value(work@));
            lemma_digits_grow(taken, r, rest);
        }
        digits.push(r);
    }
    text_of_digits(&digits)
}

/// A scalar of the Pallas curve, kept as its canonical residue in 32 bytes,
/// least significant first.
#[derive(Clone, Copy, Debug, PartialEq, Eq)]
pub struct FieldElement {
    repr: [u8; 32],
}

impl View for FieldElement {
    type V = nat;

    /// The residue, a number below the field's order.
    closed spec fn view(&self) -> nat {
        le_value(self.repr@)
    }
}

impl FieldElement {
    #[verifier::type_invariant]
    spec fn in_range(self) -> bool {
        le_value(self.repr@) < scalar_modulus()
    }

    /// Reads a field element from canonical decimal text.
    pub fn parse(s: &str) -> (r: Result<FieldElement, FieldParseError>)
        ensures
            match r {
                Ok(e) => parse_outcome(s@) == Ok::<nat, FieldParseError>(e@),
                Err(why) => parse_outcome(s@) == Err::<nat, FieldParseError>(why),
            },
            r matches Ok(e) ==> e@ < scalar_modulus(),
    {
        match scalar_from_decimal(s) {
            None => Err(FieldParseError::Malformed),
            Some(repr) => {
                let back = decimal_of_bytes(&repr);
                let given = String::from_str(s);
                if back == given {
                    proof {
                        lemma_text_spells_number(le_value(repr@));
                    }
                    Ok(FieldElement { repr })
                } else {
                    proof {
                        if decimal_value(s@) < scalar_modulus() {
                            lemma_number_spells_text(s@);
                        }
                    }
                    Err(FieldParseError::OutOfRange)
                }
            },
        }
    }

    /// The field's zero.
    pub fn zero() -> (e: FieldElement)
        ensures
            e@ == 0,
    {
        let repr = [0u8; 32];
        proof {
            lemma_zero_bytes(repr@);
        }
        FieldElement { repr }
    }

    /// The canonical decimal text of the element.
    pub fn to_decimal(&self) -> (out: String)
        ensures
            out@ == decimal_text(self@),
    {
        decimal_of_bytes(&self.repr)
    }

    /// The element's residue in 32 bytes, least significant first.
    pub fn to_repr(&self) -> (bytes: [u8; 32])
        ensures
            le_value(bytes@) == self@,
            self@ < scalar_modulus(),
    {
        proof {
            use_type_invariant(self);
        }
        self.repr
    }
}

/// Why a list of texts is not a public input: the place of the first text
/// that is no field element, and what is wrong with it.
#[derive(Clone, Copy, Debug, PartialEq, Eq)]
pub struct PublicInputError {
    pub index: usize,
    pub reason: FieldParseError,
}

/// Whether `i` is the place of the first text in `texts` that is no field
/// element.
pub open spec fn first_unreadable(texts: Seq<String>, i: int) -> bool {
    &&& 0 <= i < texts.len()
    &&& parse_outcome(texts[i]@) is Err
    &&& forall|j: int| 0 <= j < i ==> parse_outcome(#[trigger] texts[j]@) is Ok
}

/// Reads a public input vector from decimal texts, one element per text.
pub fn decode_public_input(texts: &Vec<String>) -> (r: Result<Vec<FieldElement>, PublicInputError>)
    ensures
        match r {
            Ok(elements) => {
                &&& elements@.len() == texts@.len()
                &&& forall|i: int|
                    0 <= i < texts@.len() ==> parse_outcome(#[trigger] texts@[i]@) == Ok::<
                        nat,
                        FieldParseError,
                    >(elements@[i]@)
            },
            Err(e) => {
                &&& first_unreadable(texts@, e.index as int)
                &&& parse_outcome(texts@[e.index as int]@) == Err::<nat, FieldParseError>(
                    e.reason,
                )
            },
        },
{
    let mut elements: Vec<FieldElement> = Vec::new();
    let mut i: usize = 0;
    while i < texts.len()
        invariant
            i <= texts@.len(),
            elements@.len() == i,
            forall|j: int|
                0 <= j < i ==> parse_outcome(#[trigger] texts@[j]@) == Ok::<nat, FieldParseError>(
                    elements@[j]@,
                ),
        decreases texts@.len() - i,
    {
        match FieldElement::parse(texts[i].as_str()) {
            Ok(e) => {
                elements.push(e);
            },
            Err(reason) => {
                return Err(PublicInputError { index: i, reason });
            },
        }
        i = i + 1;
    }
    Ok(elements)
}

/// Writes a public input vector as decimal texts, one text per element.
pub fn encode_public_input(elements: &Vec<FieldElement>) -> (texts: Vec<String>)
    ensures
        texts@.len() == elements@.len(),
        forall|i: int|
            0 <= i < elements@.len() ==> (#[trigger] texts@[i])@ == decimal_text(elements@[i]@),
{
    let mut texts: Vec<String> = Vec::new();
    let mut i: usize = 0;
    while i < elements.len()
        invariant
            i <= elements@.len(),
            texts@.len() == i,
            forall|j: int| 0 <= j < i ==> (#[trigger] texts@[j])@ == decimal_text(elements@[j]@),
        decreases elements@.len() - i,
    {
        texts.push(elements[i].to_decimal());
        i = i + 1;
    }
    texts
}

/// The start state of the auxiliary circuit: `arity` zeros.
pub fn zero_input(arity: usize) -> (elements: Vec<FieldElement>)
    ensures
        elements@.len() == arity,
        forall|i: int| 0 <= i < arity ==> (#[trigger] elements@[i])@ == 0,
{
    let mut elements: Vec<FieldElement> = Vec::new();
    let mut i: usize = 0;
    while i < arity
        invariant
            i <= arity,
            elements@.len() == i,
            forall|j: int| 0 <= j < i ==> (#[trigger] elements@[j])@ == 0,
        decreases arity - i,
    {
        elements.push(FieldElement::zero());
        i = i + 1;
    }
    elements
}

/// Reading a text as a field element and writing the element out again
/// gives the text back.
pub proof fn lemma_read_then_write(text: Seq<char>, element: nat)
    requires
        parse_outcome(text) == Ok::<nat, FieldParseError>(element),
    ensures
        decimal_text(element) == text,
{
    lemma_number_spells_text(text);
}

/// Writing a field element out and reading the text again gives the
/// element back.
pub proof fn lemma_write_then_read(element: nat)
    requires
        element < scalar_modulus(),
    ensures
        parse_outcome(decimal_text(element)) == Ok::<nat, FieldParseError>(element),
{
    lemma_text_spells_number(element);
}

/// Decoding a public input vector and encoding the result gives back the
/// texts that were decoded, one for one.
pub proof fn lemma_public_input_round_trip(
    texts: Seq<Seq<char>>,
    elements: Seq<nat>,
    again: Seq<Seq<char>>,
)
    requires
        elements.len() == texts.len(),
        again.len() == elements.len(),
        forall|i: int|
            0 <= i < texts.len() ==> parse_outcome(#[trigger] texts[i]) == Ok::<
                nat,
                FieldParseError,
            >(elements[i]),
        forall|i: int| 0 <= i < elements.len() ==> #[trigger] again[i] == decimal_text(elements[i]),
    ensures
        again == texts,
{
    assert forall|i: int| 0 <= i < texts.len() implies again[i] == texts[i] by {
        lemma_read_then_write(texts[i], elements[i]);
    }
    assert(again =~= texts);
}

} // verus!
