//! A growable buffer of bytes none of which is zero, from which a
//! nul-terminated string is made.

use std::borrow::Cow;
use vstd::prelude::*;

use crate::byte_search::{is_first_index_of, memchr};

verus! {

/// True when no byte of `s` is zero.
pub open spec fn no_zero(s: Seq<u8>) -> bool {
    forall|i: int| 0 <= i < s.len() ==> s[i] != 0
}

/// True when `s` is a nul-terminated string: it ends in a zero byte, and that
/// is its only zero byte.
pub open spec fn is_nul_terminated(s: Seq<u8>) -> bool {
    &&& s.len() > 0
    &&& s.last() == 0
    &&& no_zero(s.drop_last())
}

/// The marker of a failed operation: the data held a zero byte.
#[derive(Debug, Clone, Copy, PartialEq, Eq, Structural)]
pub struct ErrDetectedNullByte;

/// A byte that is known not to be zero.
#[derive(Debug, Clone, Copy)]
pub struct NonZeroByte {
    value: u8,
}

impl NonZeroByte {
    #[verifier::type_invariant]
    spec fn inv(self) -> bool {
        self.value != 0
    }

    /// The byte held.
    pub closed spec fn spec_value(self) -> u8 {
        self.value
    }

    /// Makes a non-zero byte, or `None` where `a` is zero.
    pub fn new(a: u8) -> (r: Option<NonZeroByte>)
        ensures
            r is Some <==> a != 0,
            r matches Some(b) ==> b.spec_value() == a,
    {
        if a != 0 {
            Some(NonZeroByte { value: a })
        } else {
            None
        }
    }

    /// The byte held, which is not zero.
    pub fn get(self) -> (r: u8)
        ensures
            r == self.spec_value(),
            r != 0,
    {
        proof {
            use_type_invariant(&self);
        }
        self.value
    }
}

/// Builds the contents of a C-compatible string (one terminated by a zero
/// byte). All data it holds is free of zero bytes; the terminating zero is
/// added only when the string is taken out.
pub struct SafeCStrBuilder(Vec<u8>);

impl View for SafeCStrBuilder {
    type V = Seq<u8>;

    closed spec fn view(&self) -> Seq<u8> {
        self.0@
    }
}

impl SafeCStrBuilder {
    #[verifier::type_invariant]
    spec fn inv(self) -> bool {
        no_zero(self.0@)
    }

    /// Creates an empty builder, without allocating.
    pub fn empty() -> (r: Self)
        ensures
            r@ == Seq::<u8>::empty(),
    {
        SafeCStrBuilder(Vec::new())
    }

    /// Appends a byte.
    ///
    /// Fails, leaving the builder unchanged, where the byte is zero.
    pub fn push(&mut self, a: u8) -> (r: Result<(), ErrDetectedNullByte>)
        ensures
            r is Ok <==> a != 0,
            r is Ok ==> final(self)@ == old(self)@.push(a),
            r is Err ==> final(self)@ == old(self)@,
            no_zero(final(self)@),
    {
        proof {
            use_type_invariant(&*self);
        }
        match NonZeroByte::new(a) {
            Some(a) => {
                self.push_nonzero(a);
                Ok(())
            },
            None => Err(ErrDetectedNullByte),
        }
    }

    /// Appends a byte that is known not to be zero.
    pub fn push_nonzero(&mut self, a: NonZeroByte)
        ensures
            final(self)@ == old(self)@.push(a.spec_value()),
            no_zero(final(self)@),
    {
        proof {
            use_type_invariant(&*self);
        }
        let b = a.get();
        let mut bytes = Vec::new();
        std::mem::swap(&mut bytes, &mut self.0);
        bytes.push(b);
        self.0 = bytes;
    }

    /// True when the builder holds no byte.
    pub fn is_empty(&self) -> (r: bool)
        ensures
            r <==> self@.len() == 0,
    {
        self.0.is_empty()
    }

    /// The bytes held so far, always without a terminating zero byte.
    pub fn as_slice(&self) -> (r: &[u8])
        ensures
            r@ == self@,
            no_zero(r@),
    {
        proof {
            use_type_invariant(self);
        }
        self.0.as_slice()
    }

    /// Appends the bytes of `arr`.
    ///
    /// Fails, leaving the builder unchanged, where `arr` holds a zero byte.
    pub fn extend_from_slice(&mut self, arr: &[u8]) -> (r: Result<(), ErrDetectedNullByte>)
        ensures
            r is Ok <==> no_zero(arr@),
            r is Ok ==> final(self)@ == old(self)@ + arr@,
            r is Err ==> final(self)@ == old(self)@,
            no_zero(final(self)@),
    {
        proof {
            use_type_invariant(&*self);
        }
        match memchr(0, arr) {
            Some(_) => Err(ErrDetectedNullByte),
            None => {
                let mut bytes = Vec::new();
                std::mem::swap(&mut bytes, &mut self.0);
                bytes.extend_from_slice(arr);
                assert(bytes@ =~= old(self)@ + arr@);
                self.0 = bytes;
                Ok(())
            },
        }
    }

    /// Takes the string out, with its terminating zero byte.
    ///
    /// An empty builder gives the one shared empty string, without allocating.
    pub fn into(self) -> (r: Cow<'static, [u8]>)
        ensures
            r@ == self@.push(0),
            is_nul_terminated(r@),
            self@.len() == 0 <==> r is Borrowed,
    {
        proof {
            use_type_invariant(&self);
        }
        match self.is_empty() {
            true => {
                let empty: &'static [u8] = &[0u8];
                assert(empty@ =~= self@.push(0));
                Cow::Borrowed(empty)
            },
            false => {
                let mut bytes = self.0;
                bytes.push(0);
                assert(bytes@.drop_last() =~= self@);
                Cow::Owned(bytes)
            },
        }
    }

    /// Checks the bytes held: calls `valid` where none of them is zero, and
    /// otherwise `invalid` with the index of the first zero byte.
    pub fn validate_with_fns<R>(
        &self,
        valid: impl FnOnce() -> R,
        invalid: impl FnOnce(usize) -> R,
    ) -> (r: R)
        requires
            no_zero(self@) ==> call_requires(valid, ()),
            forall|k: usize| is_first_index_of(self@, 0, k as int) ==> call_requires(invalid, (k,)),
        ensures
            no_zero(self@) ==> call_ensures(valid, (), r),
            !no_zero(self@) ==> exists|k: usize|
                is_first_index_of(self@, 0, k as int) && call_ensures(invalid, (k,), r),
    {
        match memchr(0, self.0.as_slice()) {
            Some(a) => invalid(a),
            None => valid(),
        }
    }

    /// True when no byte held is zero, which is always the case.
    pub fn is_valid(&self) -> (r: bool)
        ensures
            r == no_zero(self@),
            r,
    {
        proof {
            use_type_invariant(self);
        }
        let valid = || -> (b: bool)
            ensures
                b,
        {
            true
        };
        let invalid = |_k: usize| -> (b: bool)
            ensures
                !b,
        {
            false
        };
        self.validate_with_fns(valid, invalid)
    }
}

} // verus!
