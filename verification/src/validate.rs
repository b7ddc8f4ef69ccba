//! Input validation: raw text to a domain-checked `OrderRequest`.
//!
//! Each text field must be a non-negative base-10 integer that fits in `u32`
//! (an optional leading `+` is accepted). After parsing, the position must be
//! positive and the start price must exceed the dip price; each rule is
//! enforced independently and failures are reported per field.

use vstd::prelude::*;

use crate::model::{Error, InputField, Model, OrderRequest};

verus! {

/// Whether `c` is an ASCII decimal digit.
pub open spec fn is_digit(c: char) -> bool {
    48 <= c as int <= 57
}

/// Numeric value of an ASCII decimal digit.
pub open spec fn digit_val(c: char) -> int {
    c as int - 48
}

/// Whether every character of `s` is an ASCII decimal digit.
pub open spec fn all_digits(s: Seq<char>) -> bool {
    forall|i: int| 0 <= i < s.len() ==> is_digit(s[i])
}

/// Value of a digit string read left to right in base 10.
pub open spec fn digits_value(s: Seq<char>) -> int
    decreases s.len(),
{
    if s.len() == 0 {
        0
    } else {
        digits_value(s.drop_last()) * 10 + digit_val(s.last())
    }
}

/// The input with an optional leading `+` removed.
pub open spec fn digits_part(s: Seq<char>) -> Seq<char> {
    if s.len() > 0 && s[0] == '+' {
        s.skip(1)
    } else {
        s
    }
}

/// Whether `s` is a well-formed non-negative integer that fits in `u32`:
/// an optional `+`, then at least one digit, with value at most `u32::MAX`.
pub open spec fn parses_to_u32(s: Seq<char>) -> bool {
    &&& digits_part(s).len() > 0
    &&& all_digits(digits_part(s))
    &&& digits_value(digits_part(s)) <= u32::MAX
}

/// A digit string's value is never negative.
proof fn lemma_digits_value_nonneg(s: Seq<char>)
    requires
        all_digits(s),
    ensures
        digits_value(s) >= 0,
    decreases s.len(),
{
    if s.len() > 0 {
        lemma_digits_value_nonneg(s.drop_last());
    }
}

/// Reading more digits never shrinks the value.
proof fn lemma_digits_value_prefix_le(s: Seq<char>, i: int, j: int)
    requires
        all_digits(s),
        0 <= i <= j <= s.len(),
    ensures
        digits_value(s.take(i)) <= digits_value(s.take(j)),
    decreases j - i,
{
    if i < j {
        lemma_digits_value_prefix_le(s, i, j - 1);
        assert(s.take(j).drop_last() =~= s.take(j - 1));
        assert(all_digits(s.take(j - 1)));
        lemma_digits_value_nonneg(s.take(j - 1));
        assert(digits_value(s.take(j)) == digits_value(s.take(j - 1)) * 10 + digit_val(
            s.take(j)[j - 1],
        ));
    }
}

/// Parse a non-negative base-10 integer, exactly when the whole input is an
/// optional `+` followed by one or more digits whose value fits in `u32`.
pub fn parse_u32(s: &str) -> (r: Option<u32>)
    ensures
        r is Some <==> parses_to_u32(s@),
        r matches Some(v) ==> v as int == digits_value(digits_part(s@)),
{
    let n: usize = s.unicode_len();
    if n == 0 {
        return None;
    }
    let first: char = s.get_char(0);
    let start: usize = if first == '+' {
        1
    } else {
        0
    };
    if start == n {
        // the input is just a sign with no digits
        return None;
    }
    let ghost d = digits_part(s@);
    proof {
        assert(d =~= s@.skip(start as int));
    }
    let mut val: u32 = 0;
    let mut k: usize = start;
    while k < n
        invariant
            start <= k <= n,
            n == s@.len(),
            start == 1 ==> s@[0] == '+',
            start == 0 || start == 1,
            d == digits_part(s@),
            d =~= s@.skip(start as int),
            all_digits(d.take(k - start)),
            val as int == digits_value(d.take(k - start)),
        decreases n - k,
    {
        let c: char = s.get_char(k);
        let cu: u32 = c as u32;
        if !(48 <= cu && cu <= 57) {
            proof {
                assert(d[k - start] == s@[k as int]);
                assert(!is_digit(d[k - start]));
            }
            return None;
        }
        let dig: u32 = cu - 48;
        proof {
            assert(d.take(k - start + 1).drop_last() =~= d.take(k - start));
            assert(d.take(k - start + 1).last() == d[k - start]);
            assert(digits_value(d.take(k - start + 1)) == val as int * 10 + dig as int);
        }
        if val > (u32::MAX - dig) / 10 {
            // any continuation only grows the value, so it cannot fit
            proof {
                assert(val as int * 10 + dig as int > u32::MAX);
                if all_digits(d) {
                    lemma_digits_value_prefix_le(d, k - start + 1, d.len() as int);
                    assert(d.take(d.len() as int) =~= d);
                }
            }
            return None;
        }
        val = val * 10 + dig;
        k = k + 1;
    }
    proof {
        assert(d.take(n - start) =~= d);
    }
    Some(val)
}

/// The validator's full input/output relation: which error is returned on
/// which inputs, and the exact request on success. The three parses are
/// checked in field order, then each domain rule independently.
pub open spec fn validate_spec(
    pt: Seq<char>,
    st: Seq<char>,
    dt: Seq<char>,
    resolution: u32,
    model: Model,
    r: Result<OrderRequest, Error>,
) -> bool {
    if !parses_to_u32(pt) {
        r == Err::<OrderRequest, Error>(Error::ParseError { field: InputField::Position })
    } else if !parses_to_u32(st) {
        r == Err::<OrderRequest, Error>(Error::ParseError { field: InputField::StartPrice })
    } else if !parses_to_u32(dt) {
        r == Err::<OrderRequest, Error>(Error::ParseError { field: InputField::DipPrice })
    } else {
        let p = digits_value(digits_part(pt));
        let s = digits_value(digits_part(st));
        let d = digits_value(digits_part(dt));
        if p == 0 {
            r == Err::<OrderRequest, Error>(Error::NonPositivePosition)
        } else if s <= d {
            r == Err::<OrderRequest, Error>(Error::InvertedPriceRange)
        } else {
            r == Ok::<OrderRequest, Error>(
                OrderRequest {
                    position: p as u32,
                    start_price: s as u32,
                    dip_price: d as u32,
                    resolution,
                    model,
                },
            )
        }
    }
}

/// Parse the three text fields and enforce the domain rules: the position
/// must be positive and the start price must exceed the dip price, each
/// checked on its own. The resolution is taken as given; the engine itself
/// rejects a degenerate one.
pub fn validate(
    position_text: &str,
    start_text: &str,
    dip_text: &str,
    resolution: u32,
    model: Model,
) -> (r: Result<OrderRequest, Error>)
    ensures
        validate_spec(position_text@, start_text@, dip_text@, resolution, model, r),
        r matches Ok(q) ==> q.position > 0 && q.start_price > q.dip_price && q.resolution
            == resolution && q.model == model,
        r matches Ok(q) ==> (resolution >= 2 ==> q.valid()),
{
    let position: u32 = match parse_u32(position_text) {
        Some(v) => v,
        None => {
            return Err(Error::ParseError { field: InputField::Position });
        },
    };
    let start_price: u32 = match parse_u32(start_text) {
        Some(v) => v,
        None => {
            return Err(Error::ParseError { field: InputField::StartPrice });
        },
    };
    let dip_price: u32 = match parse_u32(dip_text) {
        Some(v) => v,
        None => {
            return Err(Error::ParseError { field: InputField::DipPrice });
        },
    };
    if position == 0 {
        return Err(Error::NonPositivePosition);
    }
    if start_price <= dip_price {
        return Err(Error::InvertedPriceRange);
    }
    Ok(OrderRequest { position, start_price, dip_price, resolution, model })
}

} // verus!
