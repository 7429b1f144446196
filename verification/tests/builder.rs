use clucstr::{ErrDetectedNullByte, NonZeroByte, SafeCStrBuilder};
use std::borrow::Cow;

#[test]
fn builder_starts_empty() {
    let b = SafeCStrBuilder::empty();
    assert!(b.is_empty());
    assert_eq!(b.as_slice(), b"");
    assert!(b.is_valid());
}

#[test]
fn builder_push_appends_nonzero_bytes() {
    let mut b = SafeCStrBuilder::empty();
    assert_eq!(b.push(b'a'), Ok(()));
    assert_eq!(b.push(b'b'), Ok(()));
    assert!(!b.is_empty());
    assert_eq!(b.as_slice(), b"ab");
}

#[test]
fn builder_push_zero_is_refused_and_changes_nothing() {
    let mut b = SafeCStrBuilder::empty();
    b.push(7).unwrap();
    assert_eq!(b.push(0), Err(ErrDetectedNullByte));
    assert_eq!(b.as_slice(), &[7u8] as &[u8]);
    assert!(b.is_valid());
}

#[test]
fn builder_push_nonzero() {
    let mut b = SafeCStrBuilder::empty();
    let one = NonZeroByte::new(1).unwrap();
    assert_eq!(one.get(), 1);
    assert!(NonZeroByte::new(0).is_none());
    b.push_nonzero(one);
    b.push_nonzero(NonZeroByte::new(255).unwrap());
    assert_eq!(b.as_slice(), &[1u8, 255] as &[u8]);
}

#[test]
fn builder_extend_from_slice() {
    let mut b = SafeCStrBuilder::empty();
    assert_eq!(b.extend_from_slice(b"clu"), Ok(()));
    assert_eq!(b.extend_from_slice(b""), Ok(()));
    assert_eq!(b.extend_from_slice(b"World"), Ok(()));
    assert_eq!(b.as_slice(), b"cluWorld");
}

#[test]
fn builder_extend_with_zero_is_refused_and_changes_nothing() {
    let mut b = SafeCStrBuilder::empty();
    b.extend_from_slice(b"ab").unwrap();
    assert_eq!(b.extend_from_slice(b"cd\0ef"), Err(ErrDetectedNullByte));
    assert_eq!(b.extend_from_slice(b"\0"), Err(ErrDetectedNullByte));
    assert_eq!(b.extend_from_slice(b"xyz\0"), Err(ErrDetectedNullByte));
    assert_eq!(b.as_slice(), b"ab");
}

#[test]
fn builder_into_adds_terminating_zero() {
    let mut b = SafeCStrBuilder::empty();
    b.extend_from_slice(b"How are you?").unwrap();
    let out = b.into();
    assert!(matches!(out, Cow::Owned(_)));
    assert_eq!(&out[..], b"How are you?\0");
}

#[test]
fn builder_into_empty_is_shared_terminator() {
    let out = SafeCStrBuilder::empty().into();
    assert!(matches!(out, Cow::Borrowed(_)));
    assert_eq!(&out[..], &[0u8] as &[u8]);
}

#[test]
fn builder_validate_with_fns_calls_valid() {
    let mut b = SafeCStrBuilder::empty();
    b.extend_from_slice(b"abc").unwrap();
    let r = b.validate_with_fns(|| 10usize, |i| i + 100);
    assert_eq!(r, 10);
}

#[test]
fn builder_is_valid_after_refusals() {
    let mut b = SafeCStrBuilder::empty();
    let _ = b.push(0);
    let _ = b.extend_from_slice(&[1, 0, 2]);
    b.push(3).unwrap();
    assert!(b.is_valid());
    assert_eq!(b.as_slice(), &[3u8] as &[u8]);
}
