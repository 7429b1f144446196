//! What one literal token contributes to a string: the bytes between the
//! quotes of a string, byte string, character or byte literal, the byte value
//! of a `u8` or `i8` literal, and the text itself of any other literal.

use vstd::prelude::*;

use crate::builder::{no_zero, SafeCStrBuilder};

verus! {

/// True when every byte of `d` is an ASCII decimal digit.
pub open spec fn all_digits(d: Seq<u8>) -> bool {
    forall|i: int| 0 <= i < d.len() ==> 48 <= #[trigger] d[i] <= 57
}

/// The number that the decimal digits `d` write, most significant first.
pub open spec fn digits_value(d: Seq<u8>) -> nat
    decreases d.len(),
{
    if d.len() == 0 {
        0
    } else {
        digits_value(d.drop_last()) * 10 + (d.last() - 48) as nat
    }
}

/// What `str::parse::<u8>` gives for the text `s`: an optional `+` followed by
/// at least one decimal digit, with a value of at most 255.
pub open spec fn spec_parse_u8(s: Seq<u8>) -> Option<u8> {
    let d = if s.len() > 0 && s[0] == 43 { s.drop_first() } else { s };
    if d.len() > 0 && all_digits(d) && digits_value(d) <= 255 {
        Some(digits_value(d) as u8)
    } else {
        None
    }
}

/// What `str::parse::<i8>` gives for the text `s`: an optional `+` or `-`
/// followed by at least one decimal digit, with a value in `-128..=127`.
pub open spec fn spec_parse_i8(s: Seq<u8>) -> Option<i8> {
    if s.len() > 0 && s[0] == 45 {
        let d = s.drop_first();
        if d.len() > 0 && all_digits(d) && digits_value(d) <= 128 {
            Some((0 - digits_value(d)) as i8)
        } else {
            None
        }
    } else {
        let d = if s.len() > 0 && s[0] == 43 { s.drop_first() } else { s };
        if d.len() > 0 && all_digits(d) && digits_value(d) <= 127 {
            Some(digits_value(d) as i8)
        } else {
            None
        }
    }
}

/// True when the literal text `t` ends with `suffix_first` and then
/// `suffix_last`.
pub open spec fn ends_with2(t: Seq<u8>, suffix_first: u8, suffix_last: u8) -> bool {
    t.len() >= 2 && t[t.len() - 2] == suffix_first && t[t.len() - 1] == suffix_last
}

/// The literal texts that the decoding cannot take apart: a lone `b"` or `b'`
/// (no literal token is written so).
pub open spec fn literal_well_formed(t: Seq<u8>) -> bool {
    !(t.len() == 2 && t[0] == 98 && (t[1] == 34 || t[1] == 39))
}

/// The bytes that the literal written `t` contributes, or `None` where it
/// carries a `u8` or `i8` suffix but its number cannot be read.
///
/// Quotes are taken off string (`"..."`), byte string (`b"..."`), character
/// (`'.'`) and byte (`b'.'`) literals, without interpreting escapes; a number
/// with a `u8` or `i8` suffix gives its one byte (an `i8` in two's complement);
/// any other literal gives its text.
pub open spec fn literal_payload(t: Seq<u8>) -> Option<Seq<u8>> {
    let len = t.len();
    if len <= 1 {
        Some(t)
    } else if t[0] == 34 && t[len - 1] == 34 {
        Some(t.subrange(1, len - 1))
    } else if t[0] == 98 && t[len - 1] == 34 && t[1] == 34 {
        Some(t.subrange(2, len - 1))
    } else if t[0] == 39 && t[len - 1] == 39 {
        Some(t.subrange(1, len - 1))
    } else if t[0] == 98 && t[len - 1] == 39 && t[1] == 39 {
        Some(t.subrange(2, len - 1))
    } else if ends_with2(t, 117, 56) {
        match spec_parse_u8(t.subrange(0, len - 2)) {
            Some(n) => Some(seq![n]),
            None => None,
        }
    } else if ends_with2(t, 105, 56) {
        match spec_parse_i8(t.subrange(0, len - 2)) {
            Some(n) => Some(seq![n as u8]),
            None => None,
        }
    } else {
        Some(t)
    }
}

/// Why a literal could not be added to a string.
#[derive(Debug, Clone, Copy, PartialEq, Eq, Structural)]
pub enum LiteralError {
    /// A `u8` or `i8` literal whose number cannot be read.
    InputError,
    /// The bytes of the literal hold a zero byte.
    NullByte,
}

/// What adding the literal written `t` to a string does: the bytes it
/// contributes, or why it cannot be added.
pub open spec fn literal_outcome(t: Seq<u8>) -> Result<Seq<u8>, LiteralError> {
    match literal_payload(t) {
        None => Err(LiteralError::InputError),
        Some(p) => if no_zero(p) {
            Ok(p)
        } else {
            Err(LiteralError::NullByte)
        },
    }
}

/// Reads the decimal digits `d` into a number, saturating at 1000.
fn digits_capped(d: &[u8]) -> (r: u32)
    requires
        all_digits(d@),
    ensures
        r as int == if digits_value(d@) < 1000 { digits_value(d@) as int } else { 1000 },
{
    let mut v: u32 = 0;
    let mut i: usize = 0;
    while i < d.len()
        invariant
            0 <= i <= d.len(),
            all_digits(d@),
            v as int == if digits_value(d@.subrange(0, i as int)) < 1000 {
                digits_value(d@.subrange(0, i as int)) as int
            } else {
                1000
            },
        decreases d.len() - i,
    {
        let c = d[i];
        assert(48 <= d@[i as int] <= 57);
        assert(d@.subrange(0, i + 1).drop_last() =~= d@.subrange(0, i as int));
        let next = v * 10 + (c - 48) as u32;
        v = if next < 1000 { next } else { 1000 };
        i = i + 1;
    }
    assert(d@.subrange(0, d.len() as int) =~= d@);
    v
}

/// True when every byte of `d` is a decimal digit.
fn is_all_digits(d: &[u8]) -> (r: bool)
    ensures
        r == all_digits(d@),
{
    let mut i: usize = 0;
    while i < d.len()
        invariant
            0 <= i <= d.len(),
            forall|j: int| 0 <= j < i ==> 48 <= #[trigger] d@[j] <= 57,
        decreases d.len() - i,
    {
        if d[i] < 48 || d[i] > 57 {
            return false;
        }
        i = i + 1;
    }
    true
}

/// Reads `s` as a `u8` in decimal, as `str::parse::<u8>` does.
pub fn parse_u8_decimal(s: &[u8]) -> (r: Option<u8>)
    ensures
        r == spec_parse_u8(s@),
{
    let d = if s.len() > 0 && s[0] == 43 {
        &s[1..s.len()]
    } else {
        s
    };
    assert(s.len() > 0 && s@[0] == 43 ==> d@ =~= s@.drop_first());
    if d.len() > 0 && is_all_digits(d) {
        let v = digits_capped(d);
        if v <= 255 {
            Some(v as u8)
        } else {
            None
        }
    } else {
        None
    }
}

/// Reads `s` as an `i8` in decimal, as `str::parse::<i8>` does.
pub fn parse_i8_decimal(s: &[u8]) -> (r: Option<i8>)
    ensures
        r == spec_parse_i8(s@),
{
    if s.len() > 0 && s[0] == 45 {
        let d = &s[1..s.len()];
        assert(d@ =~= s@.drop_first());
        if d.len() > 0 && is_all_digits(d) {
            let v = digits_capped(d);
            if v <= 128 {
                Some((0 - (v as i32)) as i8)
            } else {
                None
            }
        } else {
            None
        }
    } else {
        let d = if s.len() > 0 && s[0] == 43 {
            &s[1..s.len()]
        } else {
            s
        };
        assert(s.len() > 0 && s@[0] == 43 ==> d@ =~= s@.drop_first());
        if d.len() > 0 && is_all_digits(d) {
            let v = digits_capped(d);
            if v <= 127 {
                Some(v as i8)
            } else {
                None
            }
        } else {
            None
        }
    }
}

/// Adds to `line` the bytes that the literal written `text` contributes.
///
/// Fails, leaving `line` unchanged, where the literal's number cannot be read
/// or its bytes hold a zero byte.
pub fn append_literal(line: &mut SafeCStrBuilder, text: &[u8]) -> (r: Result<(), LiteralError>)
    requires
        literal_well_formed(text@),
    ensures
        r matches Ok(_) ==> literal_outcome(text@) matches Ok(p) && final(line)@ == old(line)@ + p,
        r matches Err(e) ==> literal_outcome(text@) == Err::<Seq<u8>, LiteralError>(e)
            && final(line)@ == old(line)@,
{
    let len = text.len();
    match len {
        0 => {
            assert(old(line)@ + text@ =~= old(line)@);
            Ok(())
        },
        1 => {
            let a = text[0];
            assert(text@ =~= seq![a]);
            match line.push(a) {
                Ok(()) => Ok(()),
                Err(_) => Err(LiteralError::NullByte),
            }
        },
        len => {
            let first = text[0];
            let last = text[len - 1];
            let arr: &[u8] = if first == 34 && last == 34 {
                &text[1..len - 1]
            } else if first == 98 && last == 34 && text[1] == 34 {
                &text[2..len - 1]
            } else if first == 39 && last == 39 {
                &text[1..len - 1]
            } else if first == 98 && last == 39 && text[1] == 39 {
                &text[2..len - 1]
            } else if text[len - 2] == 117 && last == 56 {
                let num = match parse_u8_decimal(&text[0..len - 2]) {
                    Some(a) => a,
                    None => {
                        return Err(LiteralError::InputError);
                    },
                };
                assert(seq![num][0] == num);
                assert(old(line)@.push(num) =~= old(line)@ + seq![num]);
                return match line.push(num) {
                    Ok(()) => Ok(()),
                    Err(_) => Err(LiteralError::NullByte),
                };
            } else if text[len - 2] == 105 && last == 56 {
                let num = match parse_i8_decimal(&text[0..len - 2]) {
                    Some(a) => a,
                    None => {
                        return Err(LiteralError::InputError);
                    },
                };
                let byte = #[verifier::truncate] (num as u8);
                assert(seq![byte][0] == byte);
                assert(old(line)@.push(byte) =~= old(line)@ + seq![byte]);
                return match line.push(byte) {
                    Ok(()) => Ok(()),
                    Err(_) => Err(LiteralError::NullByte),
                };
            } else {
                text
            };
            match line.extend_from_slice(arr) {
                Ok(()) => Ok(()),
                Err(_) => Err(LiteralError::NullByte),
            }
        },
    }
}


/// What a refusal-free reading of the bytes `p` gives: the bytes themselves,
/// or a refusal where one of them is zero.
pub open spec fn taken_bytes(p: Seq<u8>) -> Result<Seq<u8>, LiteralError> {
    if no_zero(p) {
        Ok(p)
    } else {
        Err(LiteralError::NullByte)
    }
}

/// A string literal `"..."` contributes exactly the bytes between its quotes,
/// as written, whatever they are.
pub proof fn law_string_literal(t: Seq<u8>)
    requires
        t.len() >= 2,
        t[0] == 34,
        t[t.len() - 1] == 34,
    ensures
        literal_outcome(t) == taken_bytes(t.subrange(1, t.len() - 1)),
{
}

/// A byte string literal `b"..."` contributes exactly the bytes between its
/// quotes, as written, whatever they are.
pub proof fn law_byte_string_literal(t: Seq<u8>)
    requires
        t.len() >= 3,
        t[0] == 98,
        t[1] == 34,
        t[t.len() - 1] == 34,
    ensures
        literal_outcome(t) == taken_bytes(t.subrange(2, t.len() - 1)),
{
}

/// A character literal `'...'` contributes exactly the bytes between its
/// quotes, whatever the length of the character's encoding or escape.
pub proof fn law_char_literal(t: Seq<u8>)
    requires
        t.len() >= 2,
        t[0] == 39,
        t[t.len() - 1] == 39,
    ensures
        literal_outcome(t) == taken_bytes(t.subrange(1, t.len() - 1)),
{
}

/// A byte literal `b'...'` contributes exactly the bytes between its quotes,
/// whatever their number (an escape such as `b'\n'` is kept as written).
pub proof fn law_byte_literal(t: Seq<u8>)
    requires
        t.len() >= 3,
        t[0] == 98,
        t[1] == 39,
        t[t.len() - 1] == 39,
    ensures
        literal_outcome(t) == taken_bytes(t.subrange(2, t.len() - 1)),
{
}

/// Any other literal that begins with a decimal digit and carries no `u8`
/// or `i8` suffix (such as `12` or `2.5`) contributes its text as written.
pub proof fn law_unsuffixed_number_literal(t: Seq<u8>)
    requires
        t.len() >= 1,
        48 <= t[0] <= 57,
        !ends_with2(t, 117, 56),
        !ends_with2(t, 105, 56),
    ensures
        literal_outcome(t) == taken_bytes(t),
{
}

/// The decimal writing of `n`, most significant digit first, without
/// leading zeros.
pub open spec fn decimal(n: nat) -> Seq<u8>
    decreases n,
{
    if n < 10 {
        seq![(48 + n) as u8]
    } else {
        decimal(n / 10).push((48 + n % 10) as u8)
    }
}

/// The decimal writing of `n` is made of digits, and its value is `n`.
pub proof fn law_decimal_value(n: nat)
    ensures
        decimal(n).len() > 0,
        all_digits(decimal(n)),
        digits_value(decimal(n)) == n,
    decreases n,
{
    if n < 10 {
        let d = decimal(n);
        assert(d.drop_last() =~= Seq::<u8>::empty());
        assert(digits_value(d.drop_last()) == 0);
        assert(d.last() == 48 + n);
    } else {
        law_decimal_value(n / 10);
        let d = decimal(n);
        assert(d.drop_last() =~= decimal(n / 10));
        assert(forall|i: int| 0 <= i < d.len() - 1 ==> d[i] == decimal(n / 10)[i]);
        assert(d.last() - 48 == n % 10);
        assert(digits_value(d) == digits_value(d.drop_last()) * 10 + (d.last() - 48) as nat);
        assert(digits_value(d.drop_last()) == n / 10);
        let q = n / 10;
        let r = n % 10;
        assert(n == q * 10 + r) by (nonlinear_arith)
            requires
                q == n / 10,
                r == n % 10,
        ;
    }
}

/// Reading as a `u8`: any text made of an optional `+` and at least one
/// decimal digit is read as the value of its digits where that value is at
/// most 255, and is refused otherwise.
pub proof fn law_parse_u8_digits(s: Seq<u8>, d: Seq<u8>)
    requires
        s == d || s == seq![43u8] + d,
        d.len() > 0,
        all_digits(d),
    ensures
        spec_parse_u8(s) == if digits_value(d) <= 255 {
            Some(digits_value(d) as u8)
        } else {
            None
        },
{
    if s != d {
        assert(s.drop_first() =~= d);
    } else {
        assert(48 <= d[0]);
    }
}

/// Every `u8` written in decimal, with or without a leading `+`, is read back
/// as itself; every larger number is refused.
pub proof fn law_parse_u8_round_trip(n: nat)
    ensures
        spec_parse_u8(decimal(n)) == if n <= 255 { Some(n as u8) } else { None::<u8> },
        spec_parse_u8(seq![43u8] + decimal(n)) == if n <= 255 { Some(n as u8) } else { None::<u8> },
{
    law_decimal_value(n);
    law_parse_u8_digits(decimal(n), decimal(n));
    law_parse_u8_digits(seq![43u8] + decimal(n), decimal(n));
}

/// Reading as an `i8`: any text made of an optional sign and at least one
/// decimal digit is read as its signed value where that value is in
/// `-128..=127`, and is refused otherwise.
pub proof fn law_parse_i8_digits(s: Seq<u8>, d: Seq<u8>, negative: bool)
    requires
        d.len() > 0,
        all_digits(d),
        negative ==> s == seq![45u8] + d,
        !negative ==> s == d || s == seq![43u8] + d,
    ensures
        negative ==> spec_parse_i8(s) == if digits_value(d) <= 128 {
            Some((0 - digits_value(d)) as i8)
        } else {
            None
        },
        !negative ==> spec_parse_i8(s) == if digits_value(d) <= 127 {
            Some(digits_value(d) as i8)
        } else {
            None
        },
{
    if s != d {
        assert(s.drop_first() =~= d);
    } else {
        assert(48 <= d[0]);
    }
}

/// Every `i8` written in decimal, with a `-` where it is negative and with or
/// without a `+` where it is not, is read back as itself; every number outside
/// `-128..=127` is refused.
pub proof fn law_parse_i8_round_trip(n: nat)
    ensures
        spec_parse_i8(decimal(n)) == if n <= 127 { Some(n as i8) } else { None::<i8> },
        spec_parse_i8(seq![43u8] + decimal(n)) == if n <= 127 { Some(n as i8) } else { None::<i8> },
        spec_parse_i8(seq![45u8] + decimal(n)) matches Some(v) ==> v == 0 - n,
        spec_parse_i8(seq![45u8] + decimal(n)) is Some <==> n <= 128,
{
    law_decimal_value(n);
    law_parse_i8_digits(decimal(n), decimal(n), false);
    law_parse_i8_digits(seq![43u8] + decimal(n), decimal(n), false);
    law_parse_i8_digits(seq![45u8] + decimal(n), decimal(n), true);
}

/// A `u8`-suffixed number contributes the one byte it writes; zero is
/// refused as a zero byte and a number above 255 as unreadable.
pub proof fn law_u8_suffixed_literal(n: nat)
    ensures
        literal_outcome(decimal(n) + seq![117u8, 56u8]) == if n == 0 {
            Err(LiteralError::NullByte)
        } else if n <= 255 {
            Ok(seq![n as u8])
        } else {
            Err::<Seq<u8>, LiteralError>(LiteralError::InputError)
        },
{
    law_parse_u8_round_trip(n);
    law_decimal_value(n);
    let t = decimal(n) + seq![117u8, 56u8];
    assert(t.subrange(0, t.len() - 2) =~= decimal(n));
    assert(t[0] == decimal(n)[0]);
    assert(48 <= decimal(n)[0] <= 57);
    assert(t[t.len() - 1] == 56);
    if n <= 255 {
        assert(seq![n as u8][0] == n as u8);
    }
}

/// An `i8`-suffixed number contributes the one byte it writes (a negative
/// one in two's complement, `256 - n` for `-n`); zero is refused as a zero
/// byte and a number outside `-128..=127` as unreadable.
pub proof fn law_i8_suffixed_literal(n: nat)
    ensures
        literal_outcome(decimal(n) + seq![105u8, 56u8]) == if n == 0 {
            Err(LiteralError::NullByte)
        } else if n <= 127 {
            Ok(seq![n as u8])
        } else {
            Err::<Seq<u8>, LiteralError>(LiteralError::InputError)
        },
        literal_outcome(seq![45u8] + decimal(n) + seq![105u8, 56u8]) == if n == 0 {
            Err(LiteralError::NullByte)
        } else if n <= 128 {
            Ok(seq![(256 - n) as u8])
        } else {
            Err::<Seq<u8>, LiteralError>(LiteralError::InputError)
        },
{
    law_parse_i8_round_trip(n);
    law_decimal_value(n);
    let t = decimal(n) + seq![105u8, 56u8];
    assert(t.subrange(0, t.len() - 2) =~= decimal(n));
    assert(t[0] == decimal(n)[0]);
    assert(48 <= decimal(n)[0] <= 57);
    assert(t[t.len() - 1] == 56);
    let u = seq![45u8] + decimal(n) + seq![105u8, 56u8];
    assert(u.subrange(0, u.len() - 2) =~= seq![45u8] + decimal(n));
    assert(u[0] == 45);
    assert(u[u.len() - 1] == 56);
    assert(u[u.len() - 2] == 105);
    if 1 <= n <= 127 {
        let v = n as i8;
        assert(v as u8 == n as u8);
        assert(seq![v as u8][0] == n as u8);
    }
    if 1 <= n <= 128 {
        let v: i8 = (0 - n) as i8;
        assert(v == 0 - n);
        assert(v < 0);
        assert(v as u8 == (256 + v) as u8) by (bit_vector)
            requires
                v < 0,
        ;
        assert(seq![v as u8][0] == (256 - n) as u8);
    }
    if n == 0 {
        assert((0 - 0) as i8 == 0i8);
        assert(seq![(0i8) as u8][0] == 0);
    }
}

/// Reading as a `u8` accepts nothing but an optional `+` followed by at
/// least one decimal digit.
pub proof fn law_parse_u8_only_digits(s: Seq<u8>)
    ensures
        spec_parse_u8(s) is Some ==> (s.len() > 0 && all_digits(s)) || (s.len() > 1 && s[0] == 43
            && all_digits(s.drop_first())),
{
}

/// Reading as an `i8` accepts nothing but an optional `+` or `-` followed by
/// at least one decimal digit.
pub proof fn law_parse_i8_only_digits(s: Seq<u8>)
    ensures
        spec_parse_i8(s) is Some ==> (s.len() > 0 && all_digits(s)) || (s.len() > 1 && (s[0] == 43
            || s[0] == 45) && all_digits(s.drop_first())),
{
}
} // verus!
