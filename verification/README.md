# clucstr

Safe creation of C strings (byte strings terminated by one zero byte) with
zero-byte checking and support for concatenating several literal values,
verified with Verus.

- `src/builder.rs`: `SafeCStrBuilder`, a buffer that never holds a zero byte,
  and from which the terminated string is taken.
- `src/byte_search.rs`: the search for a zero byte (through `memchr`).
- `src/literal.rs`: what one literal token contributes, including the decimal
  reading of `u8` and `i8` literals.
- `src/tokens.rs`: the decision of the `cstr!` macro over its input tokens,
  with the laws it obeys (concatenation, trailing comma, no interior zero).
- `app/lib.rs`: the token plumbing of the macro itself (`proc-macro2`,
  `quote`): it converts the input tokens, calls the library and writes the
  output constant or the compile error.
