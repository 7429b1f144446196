//! The `cstr` macro's decision: from the tokens it is given, either the
//! nul-terminated string they spell, or the first token that is wrong and why.
//!
//! The tokens must be literals separated by commas; one comma may follow the
//! last literal. Each literal contributes the bytes that `literal` describes,
//! and the string is their concatenation followed by one zero byte.

use std::borrow::Cow;
use vstd::prelude::*;

use crate::builder::{is_nul_terminated, no_zero, SafeCStrBuilder};
use crate::literal::{append_literal, literal_outcome, literal_well_formed, LiteralError};

verus! {

/// One token of the macro's input, holding what the decision reads of it.
#[derive(Debug)]
pub enum Token {
    /// A literal, held as the text that it is written with
    /// (such as `"abc"`, `b'x'`, `12u8` or `1.5`).
    Literal(Vec<u8>),
    /// A punctuation character.
    Punct(char),
    /// Any other token: an identifier or a delimited group.
    Other,
}

/// Why the macro's input is refused.
#[derive(Debug, Clone, Copy, PartialEq, Eq, Structural)]
pub enum MacroErrorKind {
    /// A literal's bytes hold a zero byte.
    NullByte,
    /// A `u8` or `i8` literal whose number cannot be read.
    InputError,
    /// A comma where a value was expected after a comma.
    Unsupported,
    /// A token other than a comma after a literal.
    ExpectedSeparator,
    /// A token that is not a literal where a value was expected.
    IncorrectData,
}

/// The refusal of the macro's input: the index of the token that is wrong, and why.
#[derive(Debug, Clone, Copy, PartialEq, Eq, Structural)]
pub struct MacroError {
    pub index: usize,
    pub kind: MacroErrorKind,
}

/// The message with which a refusal of this kind is reported.
pub open spec fn spec_message(kind: MacroErrorKind) -> Seq<char> {
    match kind {
        MacroErrorKind::NullByte => "Format convention error, null byte detected."@,
        MacroErrorKind::InputError => "Input Error"@,
        MacroErrorKind::Unsupported => "Unsupported."@,
        MacroErrorKind::ExpectedSeparator => "It was expected ',' or closing of a macro."@,
        MacroErrorKind::IncorrectData => "incorrect data, was expected: &[u8], str, u8, i8, {integer}."@,
    }
}

impl MacroErrorKind {
    /// The message with which a refusal of this kind is reported.
    pub fn message(&self) -> (r: &'static str)
        ensures
            r@ == spec_message(*self),
    {
        match self {
            MacroErrorKind::NullByte => "Format convention error, null byte detected.",
            MacroErrorKind::InputError => "Input Error",
            MacroErrorKind::Unsupported => "Unsupported.",
            MacroErrorKind::ExpectedSeparator => "It was expected ',' or closing of a macro.",
            MacroErrorKind::IncorrectData => "incorrect data, was expected: &[u8], str, u8, i8, {integer}.",
        }
    }
}

/// Where the reading of the tokens stands.
#[derive(Debug, Clone, Copy, PartialEq, Eq, Structural)]
pub enum ArgState {
    /// Nothing read yet: a literal or the end may come.
    Start,
    /// A literal was read: a comma or the end may come.
    AfterLiteral,
    /// A comma was read: a literal or the end may come.
    AfterComma,
}

/// True when `tok` is the punctuation `,`.
pub open spec fn is_comma(tok: Token) -> bool {
    tok matches Token::Punct(c) && c == ','
}

/// True when every literal among the tokens is one that can be decoded.
pub open spec fn tokens_well_formed(ts: Seq<Token>) -> bool {
    forall|i: int|
        0 <= i < ts.len() ==> (#[trigger] ts[i] matches Token::Literal(t) ==> literal_well_formed(t@))
}

/// `r` with `p` put in front of the bytes it holds, where it holds bytes.
pub open spec fn prepend(p: Seq<u8>, r: Result<Seq<u8>, MacroError>) -> Result<Seq<u8>, MacroError> {
    match r {
        Ok(x) => Ok(p + x),
        Err(e) => Err(e),
    }
}

/// The refusal at token `i`.
pub open spec fn error_at(i: int, kind: MacroErrorKind) -> Result<Seq<u8>, MacroError> {
    Err(MacroError { index: i as usize, kind })
}

/// The bytes that the tokens from index `i` on spell when reading stands at
/// `st` (without the terminating zero byte), or the first refusal among them.
pub open spec fn args_from(ts: Seq<Token>, i: int, st: ArgState) -> Result<Seq<u8>, MacroError>
    decreases ts.len() - i,
{
    if i < 0 || i >= ts.len() {
        Ok(Seq::empty())
    } else if ts[i] is Literal {
        if st == ArgState::AfterLiteral {
            error_at(i, MacroErrorKind::ExpectedSeparator)
        } else {
            match literal_outcome(ts[i]->Literal_0@) {
                Err(LiteralError::InputError) => error_at(i, MacroErrorKind::InputError),
                Err(LiteralError::NullByte) => error_at(i, MacroErrorKind::NullByte),
                Ok(p) => prepend(p, args_from(ts, i + 1, ArgState::AfterLiteral)),
            }
        }
    } else if is_comma(ts[i]) {
        match st {
            ArgState::AfterLiteral => args_from(ts, i + 1, ArgState::AfterComma),
            ArgState::AfterComma => error_at(i, MacroErrorKind::Unsupported),
            ArgState::Start => error_at(i, MacroErrorKind::IncorrectData),
        }
    } else {
        match st {
            ArgState::AfterLiteral => error_at(i, MacroErrorKind::ExpectedSeparator),
            _ => error_at(i, MacroErrorKind::IncorrectData),
        }
    }
}

/// The bytes that the macro's tokens spell (without the terminating zero
/// byte), or the first refusal among them.
pub open spec fn spec_cstr(ts: Seq<Token>) -> Result<Seq<u8>, MacroError> {
    args_from(ts, 0, ArgState::Start)
}

/// A nul-terminated string: its only zero byte is its last.
pub struct CStrBytes {
    bytes: Cow<'static, [u8]>,
}

impl View for CStrBytes {
    type V = Seq<u8>;

    closed spec fn view(&self) -> Seq<u8> {
        self.bytes@
    }
}

impl CStrBytes {
    #[verifier::type_invariant]
    spec fn inv(self) -> bool {
        is_nul_terminated(self.bytes@)
    }

    /// The bytes of the string, with the terminating zero byte.
    pub fn to_bytes_with_nul(&self) -> (r: &[u8])
        ensures
            r@ == self@,
            is_nul_terminated(r@),
    {
        proof {
            use_type_invariant(self);
        }
        match &self.bytes {
            Cow::Borrowed(b) => b,
            Cow::Owned(v) => v.as_slice(),
        }
    }

    /// The bytes of the string, without the terminating zero byte.
    pub fn to_bytes(&self) -> (r: &[u8])
        ensures
            r@ == self@.drop_last(),
            no_zero(r@),
    {
        let all = self.to_bytes_with_nul();
        &all[0..all.len() - 1]
    }
}

/// Decides what the macro's tokens spell: the nul-terminated string that
/// concatenates the bytes of the literals, or the first token that is wrong.
pub fn cstr(tokens: &[Token]) -> (r: Result<CStrBytes, MacroError>)
    requires
        tokens_well_formed(tokens@),
    ensures
        r is Ok <==> spec_cstr(tokens@) is Ok,
        r matches Ok(c) ==> c@ == spec_cstr(tokens@)->Ok_0.push(0) && is_nul_terminated(c@),
        r matches Err(e) ==> spec_cstr(tokens@) == Err::<Seq<u8>, MacroError>(e)
            && e.index < tokens@.len(),
{
    proof {
        assert(tokens@.len() == tokens.len());
        law_error_index_in_bounds(tokens@);
    }
    let mut cstrline = SafeCStrBuilder::empty();
    if !tokens.is_empty() {
        let mut i: usize = 0;
        let mut state = ArgState::Start;
        assert(prepend(cstrline@, args_from(tokens@, 0, ArgState::Start)) =~= args_from(
            tokens@,
            0,
            ArgState::Start,
        )) by {
            if let Ok(x) = args_from(tokens@, 0, ArgState::Start) {
                assert(cstrline@ + x =~= x);
            }
        }
        while i < tokens.len()
            invariant
                0 <= i <= tokens@.len(),
                tokens_well_formed(tokens@),
                spec_cstr(tokens@) == prepend(cstrline@, args_from(tokens@, i as int, state)),
            decreases tokens.len() - i,
        {
            let ghost before = cstrline@;
            match &tokens[i] {
                Token::Literal(text) => {
                    if state == ArgState::AfterLiteral {
                        return Err(MacroError { index: i, kind: MacroErrorKind::ExpectedSeparator });
                    }
                    assert(literal_well_formed(text@)) by {
                        assert(tokens@[i as int] matches Token::Literal(t) ==> literal_well_formed(t@));
                    }
                    match append_literal(&mut cstrline, text.as_slice()) {
                        Ok(()) => {},
                        Err(LiteralError::InputError) => {
                            return Err(MacroError { index: i, kind: MacroErrorKind::InputError });
                        },
                        Err(LiteralError::NullByte) => {
                            return Err(MacroError { index: i, kind: MacroErrorKind::NullByte });
                        },
                    }
                    proof {
                        let p = literal_outcome(text@)->Ok_0;
                        if let Ok(x) = args_from(tokens@, i + 1, ArgState::AfterLiteral) {
                            assert(before + (p + x) =~= (before + p) + x);
                        }
                    }
                    state = ArgState::AfterLiteral;
                },
                Token::Punct(c) if *c == ',' => {
                    match state {
                        ArgState::AfterLiteral => {
                            state = ArgState::AfterComma;
                        },
                        ArgState::AfterComma => {
                            return Err(MacroError { index: i, kind: MacroErrorKind::Unsupported });
                        },
                        ArgState::Start => {
                            return Err(MacroError { index: i, kind: MacroErrorKind::IncorrectData });
                        },
                    }
                },
                _ => {
                    return match state {
                        ArgState::AfterLiteral => Err(
                            MacroError { index: i, kind: MacroErrorKind::ExpectedSeparator },
                        ),
                        _ => Err(MacroError { index: i, kind: MacroErrorKind::IncorrectData }),
                    };
                },
            }
            i = i + 1;
        }
    }
    assert(cstrline@ + Seq::<u8>::empty() =~= cstrline@);
    let bytes = cstrline.into();
    Ok(CStrBytes { bytes })
}


/// Reading `b` from index `j` is unchanged by tokens standing before it,
/// where that reading is accepted.
proof fn lemma_args_shift(p: Seq<Token>, b: Seq<Token>, j: int, st: ArgState)
    requires
        0 <= j <= b.len(),
        args_from(b, j, st) is Ok,
    ensures
        args_from(p + b, p.len() + j, st) == args_from(b, j, st),
    decreases b.len() - j,
{
    let full = p + b;
    if j < b.len() {
        assert(full[p.len() + j] == b[j]);
        if b[j] is Literal {
            lemma_args_shift(p, b, j + 1, ArgState::AfterLiteral);
        } else if is_comma(b[j]) && st == ArgState::AfterLiteral {
            lemma_args_shift(p, b, j + 1, ArgState::AfterComma);
        }
    }
}

/// Reading from index `i` of `a`, then a comma and the tokens of `b`, gives
/// what `a` spells from `i` followed by what `b` spells.
proof fn lemma_concat_from(a: Seq<Token>, b: Seq<Token>, i: int, st: ArgState)
    requires
        0 <= i <= a.len(),
        a.len() > 0,
        a.last() is Literal,
        args_from(a, i, st) is Ok,
        i == a.len() ==> st == ArgState::AfterLiteral,
        spec_cstr(b) is Ok,
    ensures
        args_from(a + seq![Token::Punct(',')] + b, i, st) == prepend(
            args_from(a, i, st)->Ok_0,
            spec_cstr(b),
        ),
    decreases a.len() - i,
{
    let comma = seq![Token::Punct(',')];
    let full = a + comma + b;
    assert(full == (a + comma) + b);
    if i == a.len() {
        assert(full[i] == Token::Punct(','));
        assert(is_comma(full[i]));
        assert(args_from(b, 0, ArgState::AfterComma) == spec_cstr(b));
        lemma_args_shift(a + comma, b, 0, ArgState::AfterComma);
        assert((a + comma).len() + 0 == i + 1);
        assert(args_from(full, i, st) == args_from(full, i + 1, ArgState::AfterComma));
        let y = spec_cstr(b)->Ok_0;
        assert(Seq::<u8>::empty() + y =~= y);
    } else {
        assert(full[i] == a[i]);
        if a[i] is Literal {
            let p = literal_outcome(a[i]->Literal_0@)->Ok_0;
            lemma_concat_from(a, b, i + 1, ArgState::AfterLiteral);
            let x = args_from(a, i + 1, ArgState::AfterLiteral)->Ok_0;
            let y = spec_cstr(b)->Ok_0;
            assert(p + (x + y) =~= (p + x) + y);
        } else {
            assert(i != a.len() - 1);
            lemma_concat_from(a, b, i + 1, ArgState::AfterComma);
        }
    }
}

/// Concatenation: where the tokens `a` and `b` are each accepted and `a`
/// ends in a literal, `a`, a comma and `b` spell the bytes of `a` followed by
/// the bytes of `b`.
pub proof fn law_concatenation(a: Seq<Token>, b: Seq<Token>)
    requires
        a.len() > 0,
        a.last() is Literal,
        spec_cstr(a) is Ok,
        spec_cstr(b) is Ok,
    ensures
        spec_cstr(a + seq![Token::Punct(',')] + b) == Ok::<Seq<u8>, MacroError>(
            spec_cstr(a)->Ok_0 + spec_cstr(b)->Ok_0,
        ),
{
    lemma_concat_from(a, b, 0, ArgState::Start);
}

/// A trailing comma: where the tokens `a` are accepted and end in a literal,
/// a comma after them changes nothing.
pub proof fn law_trailing_comma(a: Seq<Token>)
    requires
        a.len() > 0,
        a.last() is Literal,
        spec_cstr(a) is Ok,
    ensures
        spec_cstr(a + seq![Token::Punct(',')]) == spec_cstr(a),
{
    let e = Seq::<Token>::empty();
    assert(spec_cstr(e) == Ok::<Seq<u8>, MacroError>(Seq::empty()));
    law_concatenation(a, e);
    assert(a + seq![Token::Punct(',')] + e =~= a + seq![Token::Punct(',')]);
    assert(spec_cstr(a)->Ok_0 + Seq::<u8>::empty() =~= spec_cstr(a)->Ok_0);
}

/// One literal spells its own bytes, or is refused at index 0 for the reason
/// that its bytes cannot be taken.
pub proof fn law_single_literal(tok: Token)
    requires
        tok is Literal,
    ensures
        spec_cstr(seq![tok]) == match literal_outcome(tok->Literal_0@) {
            Ok(p) => Ok::<Seq<u8>, MacroError>(p),
            Err(LiteralError::InputError) => error_at(0, MacroErrorKind::InputError),
            Err(LiteralError::NullByte) => error_at(0, MacroErrorKind::NullByte),
        },
{
    let ts = seq![tok];
    assert(args_from(ts, 1, ArgState::AfterLiteral) == Ok::<Seq<u8>, MacroError>(Seq::empty()));
    if let Ok(p) = literal_outcome(tok->Literal_0@) {
        assert(p + Seq::<u8>::empty() =~= p);
    }
}

/// Reading from index `i` never gives a zero byte.
proof fn lemma_args_no_zero(ts: Seq<Token>, i: int, st: ArgState)
    ensures
        args_from(ts, i, st) matches Ok(c) ==> no_zero(c),
    decreases ts.len() - i,
{
    if 0 <= i < ts.len() {
        if ts[i] is Literal {
            lemma_args_no_zero(ts, i + 1, ArgState::AfterLiteral);
            if let Ok(p) = literal_outcome(ts[i]->Literal_0@) {
                if let Ok(x) = args_from(ts, i + 1, ArgState::AfterLiteral) {
                    assert forall|k: int| 0 <= k < (p + x).len() implies (p + x)[k] != 0 by {
                        if k < p.len() {
                            assert((p + x)[k] == p[k]);
                        } else {
                            assert((p + x)[k] == x[k - p.len()]);
                        }
                    }
                }
            }
        } else if is_comma(ts[i]) && st == ArgState::AfterLiteral {
            lemma_args_no_zero(ts, i + 1, ArgState::AfterComma);
        }
    }
}

/// Zero-byte checking: whatever the tokens spell holds no zero byte, so with
/// its terminating zero it is a well-formed nul-terminated string.
pub proof fn law_no_interior_zero(ts: Seq<Token>)
    ensures
        spec_cstr(ts) matches Ok(c) ==> no_zero(c) && is_nul_terminated(c.push(0)),
{
    lemma_args_no_zero(ts, 0, ArgState::Start);
    if let Ok(c) = spec_cstr(ts) {
        assert(c.push(0).drop_last() =~= c);
    }
}

/// A refusal met reading from index `i` names a token at `i` or after it.
proof fn lemma_error_index(ts: Seq<Token>, i: int, st: ArgState)
    requires
        0 <= i,
        ts.len() <= usize::MAX,
    ensures
        args_from(ts, i, st) matches Err(e) ==> i <= e.index < ts.len(),
    decreases ts.len() - i,
{
    if i < ts.len() {
        if ts[i] is Literal {
            lemma_error_index(ts, i + 1, ArgState::AfterLiteral);
        } else if is_comma(ts[i]) && st == ArgState::AfterLiteral {
            lemma_error_index(ts, i + 1, ArgState::AfterComma);
        }
    }
}

/// A refusal always names one of the tokens given.
pub proof fn law_error_index_in_bounds(ts: Seq<Token>)
    requires
        ts.len() <= usize::MAX,
    ensures
        spec_cstr(ts) matches Err(e) ==> e.index < ts.len(),
{
    lemma_error_index(ts, 0, ArgState::Start);
}

/// Reading from index `i` of `a`, when `a` is followed by two commas, is
/// refused, whatever follows them.
proof fn lemma_double_comma_from(a: Seq<Token>, b: Seq<Token>, i: int, st: ArgState)
    requires
        0 <= i <= a.len(),
    ensures
        args_from(a + seq![Token::Punct(','), Token::Punct(',')] + b, i, st) is Err,
    decreases a.len() - i,
{
    let full = a + seq![Token::Punct(','), Token::Punct(',')] + b;
    if i == a.len() {
        assert(full[i] == Token::Punct(','));
        assert(full[i + 1] == Token::Punct(','));
        assert(is_comma(full[i]));
        assert(is_comma(full[i + 1]));
        assert(full.len() == a.len() + 2 + b.len());
        assert(args_from(full, i + 1, ArgState::AfterComma) == error_at(
            i + 1,
            MacroErrorKind::Unsupported,
        ));
    } else {
        assert(full[i] == a[i]);
        if a[i] is Literal {
            lemma_double_comma_from(a, b, i + 1, ArgState::AfterLiteral);
        } else if is_comma(a[i]) {
            lemma_double_comma_from(a, b, i + 1, ArgState::AfterComma);
        }
    }
}

/// Two commas in a row, wherever they stand (at the end too), make the
/// whole input refused.
pub proof fn law_double_comma_refused(a: Seq<Token>, b: Seq<Token>)
    ensures
        spec_cstr(a + seq![Token::Punct(','), Token::Punct(',')] + b) is Err,
{
    lemma_double_comma_from(a, b, 0, ArgState::Start);
}

/// Reading from index `i` of `a`, then whatever follows `a`, gives what `a`
/// spells from `i` in front of what the rest gives after `a`'s last literal.
proof fn lemma_prefix_from(a: Seq<Token>, rest: Seq<Token>, i: int, st: ArgState)
    requires
        0 <= i <= a.len(),
        a.len() > 0,
        a.last() is Literal,
        args_from(a, i, st) is Ok,
        i == a.len() ==> st == ArgState::AfterLiteral,
    ensures
        args_from(a + rest, i, st) == prepend(
            args_from(a, i, st)->Ok_0,
            args_from(a + rest, a.len() as int, ArgState::AfterLiteral),
        ),
    decreases a.len() - i,
{
    let full = a + rest;
    if i == a.len() {
        if let Ok(y) = args_from(full, i, st) {
            assert(Seq::<u8>::empty() + y =~= y);
        }
    } else {
        assert(full[i] == a[i]);
        if a[i] is Literal {
            let p = literal_outcome(a[i]->Literal_0@)->Ok_0;
            lemma_prefix_from(a, rest, i + 1, ArgState::AfterLiteral);
            let x = args_from(a, i + 1, ArgState::AfterLiteral)->Ok_0;
            if let Ok(y) = args_from(full, a.len() as int, ArgState::AfterLiteral) {
                assert(p + (x + y) =~= (p + x) + y);
            }
        } else {
            assert(i != a.len() - 1);
            lemma_prefix_from(a, rest, i + 1, ArgState::AfterComma);
        }
    }
}

/// After accepted tokens that end in a literal, a doubled comma is refused
/// as unsupported at the second comma.
pub proof fn law_double_comma_position(a: Seq<Token>, b: Seq<Token>)
    requires
        a.len() > 0,
        a.last() is Literal,
        spec_cstr(a) is Ok,
    ensures
        spec_cstr(a + seq![Token::Punct(','), Token::Punct(',')] + b) == error_at(
            a.len() + 1int,
            MacroErrorKind::Unsupported,
        ),
{
    let rest = seq![Token::Punct(','), Token::Punct(',')] + b;
    let full = a + rest;
    assert(a + seq![Token::Punct(','), Token::Punct(',')] + b =~= full);
    lemma_prefix_from(a, rest, 0, ArgState::Start);
    let n = a.len() as int;
    assert(full[n] == Token::Punct(','));
    assert(full[n + 1] == Token::Punct(','));
    assert(is_comma(full[n]));
    assert(is_comma(full[n + 1]));
    assert(full.len() == n + 2 + b.len());
    assert(args_from(full, n + 1, ArgState::AfterComma) == error_at(n + 1, MacroErrorKind::Unsupported));
    assert(args_from(full, n, ArgState::AfterLiteral) == error_at(n + 1, MacroErrorKind::Unsupported));
}

/// A first token that is not a literal is refused as incorrect data.
pub proof fn law_first_token_not_literal(t: Token, b: Seq<Token>)
    requires
        !(t is Literal),
    ensures
        spec_cstr(seq![t] + b) == error_at(0, MacroErrorKind::IncorrectData),
{
    let full = seq![t] + b;
    assert(full[0] == t);
}

/// After accepted tokens that end in a literal, a token other than a comma
/// is refused at its own index as a missing separator.
pub proof fn law_missing_comma(a: Seq<Token>, t: Token, b: Seq<Token>)
    requires
        a.len() > 0,
        a.last() is Literal,
        spec_cstr(a) is Ok,
        !is_comma(t),
    ensures
        spec_cstr(a + seq![t] + b) == error_at(a.len() as int, MacroErrorKind::ExpectedSeparator),
{
    let rest = seq![t] + b;
    let full = a + rest;
    assert(a + seq![t] + b =~= full);
    lemma_prefix_from(a, rest, 0, ArgState::Start);
    assert(full[a.len() as int] == t);
}

/// After accepted tokens that end in a literal and a comma, a token that is
/// neither a literal nor a comma is refused at its own index as incorrect
/// data.
pub proof fn law_non_literal_after_comma(a: Seq<Token>, t: Token, b: Seq<Token>)
    requires
        a.len() > 0,
        a.last() is Literal,
        spec_cstr(a) is Ok,
        !is_comma(t),
        !(t is Literal),
    ensures
        spec_cstr(a + seq![Token::Punct(','), t] + b) == error_at(
            a.len() + 1int,
            MacroErrorKind::IncorrectData,
        ),
{
    let rest = seq![Token::Punct(','), t] + b;
    let full = a + rest;
    assert(a + seq![Token::Punct(','), t] + b =~= full);
    lemma_prefix_from(a, rest, 0, ArgState::Start);
    let n = a.len() as int;
    assert(full[n] == Token::Punct(','));
    assert(is_comma(full[n]));
    assert(full[n + 1] == t);
    assert(full.len() == n + 2 + b.len());
    assert(args_from(full, n + 1, ArgState::AfterComma) == error_at(n + 1, MacroErrorKind::IncorrectData));
}

/// After accepted tokens that end in a literal and a comma, a literal whose
/// bytes cannot be taken is refused at its own index for that reason.
pub proof fn law_refused_literal_after_comma(a: Seq<Token>, t: Token, b: Seq<Token>)
    requires
        a.len() > 0,
        a.last() is Literal,
        spec_cstr(a) is Ok,
        t is Literal,
        literal_outcome(t->Literal_0@) is Err,
    ensures
        spec_cstr(a + seq![Token::Punct(','), t] + b) == error_at(
            a.len() + 1int,
            match literal_outcome(t->Literal_0@) {
                Err(LiteralError::InputError) => MacroErrorKind::InputError,
                _ => MacroErrorKind::NullByte,
            },
        ),
{
    let rest = seq![Token::Punct(','), t] + b;
    let full = a + rest;
    assert(a + seq![Token::Punct(','), t] + b =~= full);
    lemma_prefix_from(a, rest, 0, ArgState::Start);
    let n = a.len() as int;
    assert(full[n] == Token::Punct(','));
    assert(is_comma(full[n]));
    assert(full[n + 1] == t);
    assert(full.len() == n + 2 + b.len());
    let kind = match literal_outcome(t->Literal_0@) {
        Err(LiteralError::InputError) => MacroErrorKind::InputError,
        _ => MacroErrorKind::NullByte,
    };
    assert(args_from(full, n + 1, ArgState::AfterComma) == error_at(n + 1, kind));
    assert(args_from(full, n, ArgState::AfterLiteral) == error_at(n + 1, kind));
}
} // verus!
