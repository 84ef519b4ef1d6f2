//! Reading typed values from the bytes of a scene file.
//!
//! A [`Parser`] holds the bytes and a cursor. Each read begins at the
//! cursor and moves it past what was read. A read that would go past the
//! end of the bytes fails and leaves the cursor where it was; a read that
//! finds a value that the format does not allow fails and leaves the cursor
//! at the beginning of that value. A failure says what was wrong, at which
//! byte, and in which field.
//!
//! What a read gives is said by a function on the bytes and the place of
//! the cursor, which gives the value and the place behind it, or the
//! failure.

use crate::numeric::{le_u32, le_u64, read_le_u32, read_le_u64, signed, to_signed, Real32, Real64};
use vstd::prelude::*;
use vstd::slice::{slice_subrange, slice_to_vec};
use vstd::utf8::{decode_utf8, valid_utf8};

verus! {

/// What was wrong with the bytes.
#[derive(Clone, Copy, Debug, PartialEq, Eq, Structural)]
pub enum ParseErrorKind {
    /// The bytes end before the value does.
    UnexpectedEnd,
    /// Bytes that the format fixes have another value.
    Mismatch,
    /// A number that selects one of several alternatives selects none.
    NoReprIntMatch(u64),
    /// The byte that says what kind an entity is of says none that is known.
    UnknownEntityKind(u8),
    /// A byte that stands for a truth value is neither 0 nor 1.
    InvalidBool(u8),
    /// The bytes of a string are not UTF-8.
    InvalidUtf8,
}

/// One step on the way from a value to one of its parts.
#[derive(Clone, Copy, Debug, PartialEq, Eq)]
pub enum PathStep {
    /// The field with the given name.
    Field(&'static str),
    /// The item with the given position in a sequence.
    Index(usize),
}

/// Why a read failed.
#[derive(Clone, Debug)]
pub struct ParseError {
    pub kind: ParseErrorKind,
    /// The place of the first byte of the value that was wrong or missing.
    pub offset: usize,
    /// The way from the value that was to be read to the part that was
    /// wrong, innermost field first.
    pub path: Vec<PathStep>,
}

/// Why a read fails.
pub struct Failure {
    pub kind: ParseErrorKind,
    pub offset: int,
    pub path: Seq<PathStep>,
}

impl View for ParseError {
    type V = Failure;

    open spec fn view(&self) -> Failure {
        Failure { kind: self.kind, offset: self.offset as int, path: self.path@ }
    }
}

/// The failure of kind `kind` at the place `at`, in the value itself.
pub open spec fn fail<T>(kind: ParseErrorKind, at: int) -> Result<(T, int), Failure> {
    Err(Failure { kind, offset: at, path: Seq::empty() })
}

/// The place behind a value that was read.
pub open spec fn end_of<T>(read: Result<(T, int), Failure>) -> int {
    read->Ok_0.1
}

/// The value that was read.
pub open spec fn value_of<T>(read: Result<(T, int), Failure>) -> T {
    read->Ok_0.0
}

/// The failure of a read as the failure of a read of another type.
pub open spec fn failed<T, U>(read: Result<(T, int), Failure>) -> Result<(U, int), Failure> {
    Err(read->Err_0)
}

/// A read as the read of a part: a failure is one more step away.
pub open spec fn under<T>(read: Result<(T, int), Failure>, step: PathStep) -> Result<
    (T, int),
    Failure,
> {
    match read {
        Ok(done) => Ok(done),
        Err(failure) => Err(
            Failure { kind: failure.kind, offset: failure.offset, path: failure.path.push(step) },
        ),
    }
}

/// What a read of the last items of a sequence gives for the whole
/// sequence, of which the items `before` have been read.
pub open spec fn prepended<T>(before: Seq<T>, read: Result<(Seq<T>, int), Failure>) -> Result<
    (Seq<T>, int),
    Failure,
> {
    match read {
        Ok((rest, end)) => Ok((before + rest, end)),
        Err(failure) => Err(failure),
    }
}

/// A read as the read of the field `name`.
pub open spec fn field<T>(read: Result<(T, int), Failure>, name: &'static str) -> Result<
    (T, int),
    Failure,
> {
    under(read, PathStep::Field(name))
}

/// What a read gave, as it is.
pub open spec fn as_read<T>(got: Result<T, ParseError>) -> Result<T, Failure> {
    match got {
        Ok(value) => Ok(value),
        Err(error) => Err(error@),
    }
}

/// What a read gave, by its view.
pub open spec fn seen<T: View>(got: Result<T, ParseError>) -> Result<T::V, Failure> {
    match got {
        Ok(value) => Ok(value@),
        Err(error) => Err(error@),
    }
}

/// The view of a value that may be missing.
pub open spec fn option_view<T: View>(value: Option<T>) -> Option<T::V> {
    match value {
        Some(value) => Some(value@),
        None => None,
    }
}

/// What a read of a value that may be missing gave, by its view.
pub open spec fn seen_option<T: View>(got: Result<Option<T>, ParseError>) -> Result<
    Option<T::V>,
    Failure,
> {
    match got {
        Ok(value) => Ok(option_view(value)),
        Err(error) => Err(error@),
    }
}

/// Whether a read that began at `start` and left the cursor at `cursor`
/// gave what it had to give: the value and the place behind it, or the
/// failure with the cursor at the place of the failure.
pub open spec fn agrees<V>(
    got: Result<V, Failure>,
    start: int,
    cursor: int,
    due: Result<(V, int), Failure>,
) -> bool {
    &&& start <= cursor
    &&& match got {
        Ok(value) => due == Ok::<(V, int), Failure>((value, cursor)),
        Err(failure) => due == Err::<(V, int), Failure>(failure) && cursor == failure.offset,
    }
}

/// The byte at `at`.
pub open spec fn spec_u8(bytes: Seq<u8>, at: int) -> Result<(u8, int), Failure> {
    if 0 <= at < bytes.len() {
        Ok((bytes[at], at + 1))
    } else {
        fail(ParseErrorKind::UnexpectedEnd, at)
    }
}

/// The number that the four bytes at `at` stand for in little-endian order.
pub open spec fn spec_u32(bytes: Seq<u8>, at: int) -> Result<(u32, int), Failure> {
    if 0 <= at && at + 4 <= bytes.len() {
        Ok((le_u32(bytes, at), at + 4))
    } else {
        fail(ParseErrorKind::UnexpectedEnd, at)
    }
}

/// The signed number that the four bytes at `at` stand for in
/// little-endian order and two's complement.
pub open spec fn spec_i32(bytes: Seq<u8>, at: int) -> Result<(i32, int), Failure> {
    if 0 <= at && at + 4 <= bytes.len() {
        Ok((signed(le_u32(bytes, at)), at + 4))
    } else {
        fail(ParseErrorKind::UnexpectedEnd, at)
    }
}

/// The real whose bits are the four bytes at `at` in little-endian order.
pub open spec fn spec_real32(bytes: Seq<u8>, at: int) -> Result<(Real32, int), Failure> {
    if 0 <= at && at + 4 <= bytes.len() {
        Ok((Real32(le_u32(bytes, at)), at + 4))
    } else {
        fail(ParseErrorKind::UnexpectedEnd, at)
    }
}

/// The real whose bits are the eight bytes at `at` in little-endian order.
pub open spec fn spec_real64(bytes: Seq<u8>, at: int) -> Result<(Real64, int), Failure> {
    if 0 <= at && at + 8 <= bytes.len() {
        Ok((Real64(le_u64(bytes, at)), at + 8))
    } else {
        fail(ParseErrorKind::UnexpectedEnd, at)
    }
}

/// The truth value that the byte at `at` stands for: 0 for false, 1 for
/// true.
pub open spec fn spec_bool(bytes: Seq<u8>, at: int) -> Result<(bool, int), Failure> {
    if !(0 <= at < bytes.len()) {
        fail(ParseErrorKind::UnexpectedEnd, at)
    } else if bytes[at] == 0 {
        Ok((false, at + 1))
    } else if bytes[at] == 1 {
        Ok((true, at + 1))
    } else {
        fail(ParseErrorKind::InvalidBool(bytes[at]), at)
    }
}

/// The `n` bytes at `at`.
pub open spec fn spec_bytes(bytes: Seq<u8>, at: int, n: nat) -> Result<(Seq<u8>, int), Failure> {
    if 0 <= at && at + n <= bytes.len() {
        Ok((bytes.subrange(at, at + n), at + n))
    } else {
        fail(ParseErrorKind::UnexpectedEnd, at)
    }
}

/// The bytes at `at` where they are the bytes `expected`.
pub open spec fn spec_expect(bytes: Seq<u8>, at: int, expected: Seq<u8>) -> Result<
    (Seq<u8>, int),
    Failure,
> {
    if !(0 <= at && at + expected.len() <= bytes.len()) {
        fail(ParseErrorKind::UnexpectedEnd, at)
    } else if bytes.subrange(at, at + expected.len()) == expected {
        Ok((expected, at + expected.len()))
    } else {
        fail(ParseErrorKind::Mismatch, at)
    }
}

/// The three bytes at `at`.
pub open spec fn spec_u8x3(bytes: Seq<u8>, at: int) -> Result<([u8; 3], int), Failure> {
    if 0 <= at && at + 3 <= bytes.len() {
        Ok(([bytes[at], bytes[at + 1], bytes[at + 2]], at + 3))
    } else {
        fail(ParseErrorKind::UnexpectedEnd, at)
    }
}

/// The four bytes at `at`.
pub open spec fn spec_u8x4(bytes: Seq<u8>, at: int) -> Result<([u8; 4], int), Failure> {
    if 0 <= at && at + 4 <= bytes.len() {
        Ok(([bytes[at], bytes[at + 1], bytes[at + 2], bytes[at + 3]], at + 4))
    } else {
        fail(ParseErrorKind::UnexpectedEnd, at)
    }
}

/// The five bytes at `at`.
pub open spec fn spec_u8x5(bytes: Seq<u8>, at: int) -> Result<([u8; 5], int), Failure> {
    if 0 <= at && at + 5 <= bytes.len() {
        Ok(([bytes[at], bytes[at + 1], bytes[at + 2], bytes[at + 3], bytes[at + 4]], at + 5))
    } else {
        fail(ParseErrorKind::UnexpectedEnd, at)
    }
}

/// The six bytes at `at`.
pub open spec fn spec_u8x6(bytes: Seq<u8>, at: int) -> Result<([u8; 6], int), Failure> {
    if 0 <= at && at + 6 <= bytes.len() {
        Ok(
            (
                [
                    bytes[at],
                    bytes[at + 1],
                    bytes[at + 2],
                    bytes[at + 3],
                    bytes[at + 4],
                    bytes[at + 5],
                ],
                at + 6,
            ),
        )
    } else {
        fail(ParseErrorKind::UnexpectedEnd, at)
    }
}

/// The two numbers at `at`.
pub open spec fn spec_u32x2(bytes: Seq<u8>, at: int) -> Result<([u32; 2], int), Failure> {
    if 0 <= at && at + 8 <= bytes.len() {
        Ok(([le_u32(bytes, at), le_u32(bytes, at + 4)], at + 8))
    } else {
        fail(ParseErrorKind::UnexpectedEnd, at)
    }
}

/// The three numbers at `at`.
pub open spec fn spec_u32x3(bytes: Seq<u8>, at: int) -> Result<([u32; 3], int), Failure> {
    if 0 <= at && at + 12 <= bytes.len() {
        Ok(([le_u32(bytes, at), le_u32(bytes, at + 4), le_u32(bytes, at + 8)], at + 12))
    } else {
        fail(ParseErrorKind::UnexpectedEnd, at)
    }
}

/// The two signed numbers at `at`.
pub open spec fn spec_i32x2(bytes: Seq<u8>, at: int) -> Result<([i32; 2], int), Failure> {
    if 0 <= at && at + 8 <= bytes.len() {
        Ok(([signed(le_u32(bytes, at)), signed(le_u32(bytes, at + 4))], at + 8))
    } else {
        fail(ParseErrorKind::UnexpectedEnd, at)
    }
}

/// The three signed numbers at `at`.
pub open spec fn spec_i32x3(bytes: Seq<u8>, at: int) -> Result<([i32; 3], int), Failure> {
    if 0 <= at && at + 12 <= bytes.len() {
        Ok(
            (
                [
                    signed(le_u32(bytes, at)),
                    signed(le_u32(bytes, at + 4)),
                    signed(le_u32(bytes, at + 8)),
                ],
                at + 12,
            ),
        )
    } else {
        fail(ParseErrorKind::UnexpectedEnd, at)
    }
}

/// The two reals at `at`.
pub open spec fn spec_real32x2(bytes: Seq<u8>, at: int) -> Result<([Real32; 2], int), Failure> {
    if 0 <= at && at + 8 <= bytes.len() {
        Ok(([Real32(le_u32(bytes, at)), Real32(le_u32(bytes, at + 4))], at + 8))
    } else {
        fail(ParseErrorKind::UnexpectedEnd, at)
    }
}

/// The three reals at `at`.
pub open spec fn spec_real32x3(bytes: Seq<u8>, at: int) -> Result<([Real32; 3], int), Failure> {
    if 0 <= at && at + 12 <= bytes.len() {
        Ok(
            (
                [
                    Real32(le_u32(bytes, at)),
                    Real32(le_u32(bytes, at + 4)),
                    Real32(le_u32(bytes, at + 8)),
                ],
                at + 12,
            ),
        )
    } else {
        fail(ParseErrorKind::UnexpectedEnd, at)
    }
}

/// The four reals at `at`.
pub open spec fn spec_real32x4(bytes: Seq<u8>, at: int) -> Result<([Real32; 4], int), Failure> {
    if 0 <= at && at + 16 <= bytes.len() {
        Ok(
            (
                [
                    Real32(le_u32(bytes, at)),
                    Real32(le_u32(bytes, at + 4)),
                    Real32(le_u32(bytes, at + 8)),
                    Real32(le_u32(bytes, at + 12)),
                ],
                at + 16,
            ),
        )
    } else {
        fail(ParseErrorKind::UnexpectedEnd, at)
    }
}

/// The six reals at `at`.
pub open spec fn spec_real32x6(bytes: Seq<u8>, at: int) -> Result<([Real32; 6], int), Failure> {
    if 0 <= at && at + 24 <= bytes.len() {
        Ok(
            (
                [
                    Real32(le_u32(bytes, at)),
                    Real32(le_u32(bytes, at + 4)),
                    Real32(le_u32(bytes, at + 8)),
                    Real32(le_u32(bytes, at + 12)),
                    Real32(le_u32(bytes, at + 16)),
                    Real32(le_u32(bytes, at + 20)),
                ],
                at + 24,
            ),
        )
    } else {
        fail(ParseErrorKind::UnexpectedEnd, at)
    }
}

/// The seven reals at `at`.
pub open spec fn spec_real32x7(bytes: Seq<u8>, at: int) -> Result<([Real32; 7], int), Failure> {
    if 0 <= at && at + 28 <= bytes.len() {
        Ok(
            (
                [
                    Real32(le_u32(bytes, at)),
                    Real32(le_u32(bytes, at + 4)),
                    Real32(le_u32(bytes, at + 8)),
                    Real32(le_u32(bytes, at + 12)),
                    Real32(le_u32(bytes, at + 16)),
                    Real32(le_u32(bytes, at + 20)),
                    Real32(le_u32(bytes, at + 24)),
                ],
                at + 28,
            ),
        )
    } else {
        fail(ParseErrorKind::UnexpectedEnd, at)
    }
}

/// The eight reals at `at`.
pub open spec fn spec_real32x8(bytes: Seq<u8>, at: int) -> Result<([Real32; 8], int), Failure> {
    if 0 <= at && at + 32 <= bytes.len() {
        Ok(
            (
                [
                    Real32(le_u32(bytes, at)),
                    Real32(le_u32(bytes, at + 4)),
                    Real32(le_u32(bytes, at + 8)),
                    Real32(le_u32(bytes, at + 12)),
                    Real32(le_u32(bytes, at + 16)),
                    Real32(le_u32(bytes, at + 20)),
                    Real32(le_u32(bytes, at + 24)),
                    Real32(le_u32(bytes, at + 28)),
                ],
                at + 32,
            ),
        )
    } else {
        fail(ParseErrorKind::UnexpectedEnd, at)
    }
}

/// The width of the number that says how long a string or a sequence is.
#[derive(Clone, Copy, Debug, PartialEq, Eq, Structural)]
pub enum Prefix {
    /// One byte.
    U8,
    /// Four bytes in little-endian order.
    U32,
}

/// The length that a prefix of the given width at `at` gives.
pub open spec fn spec_len(bytes: Seq<u8>, at: int, prefix: Prefix) -> Result<(nat, int), Failure> {
    match prefix {
        Prefix::U8 => match spec_u8(bytes, at) {
            Ok((n, end)) => Ok((n as nat, end)),
            Err(failure) => Err(failure),
        },
        Prefix::U32 => match spec_u32(bytes, at) {
            Ok((n, end)) => Ok((n as nat, end)),
            Err(failure) => Err(failure),
        },
    }
}

/// The string at `at`: its length in bytes as a prefix of the given width,
/// then its bytes, which have to be UTF-8. A string that is not UTF-8 fails
/// at its prefix.
pub open spec fn spec_string(bytes: Seq<u8>, at: int, prefix: Prefix) -> Result<
    (Seq<char>, int),
    Failure,
> {
    match spec_len(bytes, at, prefix) {
        Err(failure) => Err(failure),
        Ok((n, begin)) => match spec_bytes(bytes, begin, n) {
            Err(failure) => Err(failure),
            Ok((text, end)) => if valid_utf8(text) {
                Ok((decode_utf8(text), end))
            } else {
                fail(ParseErrorKind::InvalidUtf8, at)
            },
        },
    }
}

/// Whether two sequences of bytes are the same from `at` on.
#[verifier::opaque]
pub open spec fn same_from(a: Seq<u8>, b: Seq<u8>, at: int) -> bool {
    &&& a.len() == b.len()
    &&& 0 <= at <= a.len()
    &&& forall|k: int| at <= k < a.len() ==> a[k] == b[k]
}

/// Sequences that are the same from a place on are the same from any
/// later place on.
pub proof fn lemma_same_later(a: Seq<u8>, b: Seq<u8>, at: int, later: int)
    requires
        same_from(a, b, at),
        at <= later <= a.len(),
    ensures
        same_from(a, b, later),
{
    reveal(same_from);
}

/// Whether a value that was read at `at` ends within the bytes and not
/// before it begins.
pub open spec fn ends_within<T>(read: Result<(T, int), Failure>, bytes: Seq<u8>, at: int) -> bool {
    read matches Ok((_, end)) ==> at <= end <= bytes.len()
}

/// Reading a byte looks at the bytes from `at` on and at no others.
pub proof fn lemma_reads_u8(a: Seq<u8>, b: Seq<u8>, at: int)
    requires
        same_from(a, b, at),
    ensures
        spec_u8(a, at) == spec_u8(b, at),
        ends_within(spec_u8(a, at), a, at),
{
    reveal(same_from);
}

/// Reading a number looks at the bytes from `at` on and at no others.
pub proof fn lemma_reads_u32(a: Seq<u8>, b: Seq<u8>, at: int)
    requires
        same_from(a, b, at),
    ensures
        spec_u32(a, at) == spec_u32(b, at),
        ends_within(spec_u32(a, at), a, at),
{
    reveal(same_from);
}

/// Reading a signed number looks at the bytes from `at` on and at no
/// others.
pub proof fn lemma_reads_i32(a: Seq<u8>, b: Seq<u8>, at: int)
    requires
        same_from(a, b, at),
    ensures
        spec_i32(a, at) == spec_i32(b, at),
        ends_within(spec_i32(a, at), a, at),
{
    reveal(same_from);
}

/// Reading a real looks at the bytes from `at` on and at no others.
pub proof fn lemma_reads_real32(a: Seq<u8>, b: Seq<u8>, at: int)
    requires
        same_from(a, b, at),
    ensures
        spec_real32(a, at) == spec_real32(b, at),
        ends_within(spec_real32(a, at), a, at),
{
    reveal(same_from);
}

/// Reading a real looks at the bytes from `at` on and at no others.
pub proof fn lemma_reads_real64(a: Seq<u8>, b: Seq<u8>, at: int)
    requires
        same_from(a, b, at),
    ensures
        spec_real64(a, at) == spec_real64(b, at),
        ends_within(spec_real64(a, at), a, at),
{
    reveal(same_from);
}

/// Reading a truth value looks at the bytes from `at` on and at no others.
pub proof fn lemma_reads_bool(a: Seq<u8>, b: Seq<u8>, at: int)
    requires
        same_from(a, b, at),
    ensures
        spec_bool(a, at) == spec_bool(b, at),
        ends_within(spec_bool(a, at), a, at),
{
    reveal(same_from);
}

/// Reading bytes looks at the bytes from `at` on and at no others.
pub proof fn lemma_reads_bytes(a: Seq<u8>, b: Seq<u8>, at: int, n: nat)
    requires
        same_from(a, b, at),
    ensures
        spec_bytes(a, at, n) == spec_bytes(b, at, n),
        ends_within(spec_bytes(a, at, n), a, at),
{
    reveal(same_from);
    if at + n <= a.len() {
        assert(a.subrange(at, at + n) =~= b.subrange(at, at + n));
    }
}

/// Reading expected bytes looks at the bytes from `at` on and at no
/// others.
pub proof fn lemma_reads_expect(a: Seq<u8>, b: Seq<u8>, at: int, expected: Seq<u8>)
    requires
        same_from(a, b, at),
    ensures
        spec_expect(a, at, expected) == spec_expect(b, at, expected),
        ends_within(spec_expect(a, at, expected), a, at),
{
    reveal(same_from);
    if at + expected.len() <= a.len() {
        assert(a.subrange(at, at + expected.len()) =~= b.subrange(at, at + expected.len()));
    }
}

/// Reading a length looks at the bytes from `at` on and at no others.
pub proof fn lemma_reads_len(a: Seq<u8>, b: Seq<u8>, at: int, prefix: Prefix)
    requires
        same_from(a, b, at),
    ensures
        spec_len(a, at, prefix) == spec_len(b, at, prefix),
        ends_within(spec_len(a, at, prefix), a, at),
{
    reveal(same_from);
}

/// Reading a string looks at the bytes from `at` on and at no others.
pub proof fn lemma_reads_string(a: Seq<u8>, b: Seq<u8>, at: int, prefix: Prefix)
    requires
        same_from(a, b, at),
    ensures
        spec_string(a, at, prefix) == spec_string(b, at, prefix),
        ends_within(spec_string(a, at, prefix), a, at),
{
    lemma_reads_len(a, b, at, prefix);
    if let Ok((n, begin)) = spec_len(a, at, prefix) {
        lemma_same_later(a, b, at, begin);
        lemma_reads_bytes(a, b, begin, n);
    }
}

/// Reading values one after the other looks at the bytes from `at` on and
/// at no others.
pub proof fn lemma_reads_list<T: Decode>(a: Seq<u8>, b: Seq<u8>, at: int, n: nat)
    requires
        same_from(a, b, at),
    ensures
        spec_list::<T>(a, at, n) == spec_list::<T>(b, at, n),
        ends_within(spec_list::<T>(a, at, n), a, at),
        spec_list::<T>(a, at, n) is Ok ==> value_of(spec_list::<T>(a, at, n)).len() == n,
    decreases n,
{
    reveal(same_from);
    if n > 0 {
        lemma_reads_list::<T>(a, b, at, (n - 1) as nat);
        if let Ok((_, middle)) = spec_list::<T>(a, at, (n - 1) as nat) {
            lemma_same_later(a, b, at, middle);
            T::lemma_reads_ahead(a, b, middle);
        }
    }
}

/// Reading a sequence looks at the bytes from `at` on and at no others.
pub proof fn lemma_reads_counted<T: Decode>(a: Seq<u8>, b: Seq<u8>, at: int, prefix: Prefix)
    requires
        same_from(a, b, at),
    ensures
        spec_counted::<T>(a, at, prefix) == spec_counted::<T>(b, at, prefix),
        ends_within(spec_counted::<T>(a, at, prefix), a, at),
{
    lemma_reads_len(a, b, at, prefix);
    if let Ok((n, begin)) = spec_len(a, at, prefix) {
        lemma_same_later(a, b, at, begin);
        lemma_reads_list::<T>(a, b, begin, n);
    }
}

/// Reading two groups of reals looks at the bytes from `at` on and at no
/// others.
pub proof fn lemma_reads_real32x3x2(a: Seq<u8>, b: Seq<u8>, at: int)
    requires
        same_from(a, b, at),
    ensures
        spec_real32x3x2(a, at) == spec_real32x3x2(b, at),
        ends_within(spec_real32x3x2(a, at), a, at),
{
    reveal(same_from);
    if spec_real32x3x2(a, at) is Ok {
        lemma_reads_real32x3(a, b, at);
        lemma_same_later(a, b, at, at + 12);
        lemma_reads_real32x3(a, b, at + 12);
        assert(value_of(spec_real32x3x2(a, at)) =~= value_of(spec_real32x3x2(b, at)));
    }
}

/// Reading an array looks at the bytes from `at` on and at no others.
pub proof fn lemma_reads_u8x3(a: Seq<u8>, b: Seq<u8>, at: int)
    requires
        same_from(a, b, at),
    ensures
        spec_u8x3(a, at) == spec_u8x3(b, at),
        ends_within(spec_u8x3(a, at), a, at),
{
    reveal(same_from);
    if spec_u8x3(a, at) is Ok {
        assert(value_of(spec_u8x3(a, at)) =~= value_of(spec_u8x3(b, at)));
    }
}

/// Reading an array looks at the bytes from `at` on and at no others.
pub proof fn lemma_reads_u8x4(a: Seq<u8>, b: Seq<u8>, at: int)
    requires
        same_from(a, b, at),
    ensures
        spec_u8x4(a, at) == spec_u8x4(b, at),
        ends_within(spec_u8x4(a, at), a, at),
{
    reveal(same_from);
    if spec_u8x4(a, at) is Ok {
        assert(value_of(spec_u8x4(a, at)) =~= value_of(spec_u8x4(b, at)));
    }
}

/// Reading an array looks at the bytes from `at` on and at no others.
pub proof fn lemma_reads_u8x5(a: Seq<u8>, b: Seq<u8>, at: int)
    requires
        same_from(a, b, at),
    ensures
        spec_u8x5(a, at) == spec_u8x5(b, at),
        ends_within(spec_u8x5(a, at), a, at),
{
    reveal(same_from);
    if spec_u8x5(a, at) is Ok {
        assert(value_of(spec_u8x5(a, at)) =~= value_of(spec_u8x5(b, at)));
    }
}

/// Reading an array looks at the bytes from `at` on and at no others.
pub proof fn lemma_reads_u8x6(a: Seq<u8>, b: Seq<u8>, at: int)
    requires
        same_from(a, b, at),
    ensures
        spec_u8x6(a, at) == spec_u8x6(b, at),
        ends_within(spec_u8x6(a, at), a, at),
{
    reveal(same_from);
    if spec_u8x6(a, at) is Ok {
        assert(value_of(spec_u8x6(a, at)) =~= value_of(spec_u8x6(b, at)));
    }
}

/// Reading an array looks at the bytes from `at` on and at no others.
pub proof fn lemma_reads_u32x2(a: Seq<u8>, b: Seq<u8>, at: int)
    requires
        same_from(a, b, at),
    ensures
        spec_u32x2(a, at) == spec_u32x2(b, at),
        ends_within(spec_u32x2(a, at), a, at),
{
    reveal(same_from);
    if spec_u32x2(a, at) is Ok {
        assert(value_of(spec_u32x2(a, at)) =~= value_of(spec_u32x2(b, at)));
    }
}

/// Reading an array looks at the bytes from `at` on and at no others.
pub proof fn lemma_reads_u32x3(a: Seq<u8>, b: Seq<u8>, at: int)
    requires
        same_from(a, b, at),
    ensures
        spec_u32x3(a, at) == spec_u32x3(b, at),
        ends_within(spec_u32x3(a, at), a, at),
{
    reveal(same_from);
    if spec_u32x3(a, at) is Ok {
        assert(value_of(spec_u32x3(a, at)) =~= value_of(spec_u32x3(b, at)));
    }
}

/// Reading an array looks at the bytes from `at` on and at no others.
pub proof fn lemma_reads_i32x2(a: Seq<u8>, b: Seq<u8>, at: int)
    requires
        same_from(a, b, at),
    ensures
        spec_i32x2(a, at) == spec_i32x2(b, at),
        ends_within(spec_i32x2(a, at), a, at),
{
    reveal(same_from);
    if spec_i32x2(a, at) is Ok {
        assert(value_of(spec_i32x2(a, at)) =~= value_of(spec_i32x2(b, at)));
    }
}

/// Reading an array looks at the bytes from `at` on and at no others.
pub proof fn lemma_reads_i32x3(a: Seq<u8>, b: Seq<u8>, at: int)
    requires
        same_from(a, b, at),
    ensures
        spec_i32x3(a, at) == spec_i32x3(b, at),
        ends_within(spec_i32x3(a, at), a, at),
{
    reveal(same_from);
    if spec_i32x3(a, at) is Ok {
        assert(value_of(spec_i32x3(a, at)) =~= value_of(spec_i32x3(b, at)));
    }
}

/// Reading an array looks at the bytes from `at` on and at no others.
pub proof fn lemma_reads_real32x2(a: Seq<u8>, b: Seq<u8>, at: int)
    requires
        same_from(a, b, at),
    ensures
        spec_real32x2(a, at) == spec_real32x2(b, at),
        ends_within(spec_real32x2(a, at), a, at),
{
    reveal(same_from);
    if spec_real32x2(a, at) is Ok {
        assert(value_of(spec_real32x2(a, at)) =~= value_of(spec_real32x2(b, at)));
    }
}

/// Reading an array looks at the bytes from `at` on and at no others.
pub proof fn lemma_reads_real32x3(a: Seq<u8>, b: Seq<u8>, at: int)
    requires
        same_from(a, b, at),
    ensures
        spec_real32x3(a, at) == spec_real32x3(b, at),
        ends_within(spec_real32x3(a, at), a, at),
{
    reveal(same_from);
    if spec_real32x3(a, at) is Ok {
        assert(value_of(spec_real32x3(a, at)) =~= value_of(spec_real32x3(b, at)));
    }
}

/// Reading an array looks at the bytes from `at` on and at no others.
pub proof fn lemma_reads_real32x4(a: Seq<u8>, b: Seq<u8>, at: int)
    requires
        same_from(a, b, at),
    ensures
        spec_real32x4(a, at) == spec_real32x4(b, at),
        ends_within(spec_real32x4(a, at), a, at),
{
    reveal(same_from);
    if spec_real32x4(a, at) is Ok {
        assert(value_of(spec_real32x4(a, at)) =~= value_of(spec_real32x4(b, at)));
    }
}

/// Reading an array looks at the bytes from `at` on and at no others.
pub proof fn lemma_reads_real32x6(a: Seq<u8>, b: Seq<u8>, at: int)
    requires
        same_from(a, b, at),
    ensures
        spec_real32x6(a, at) == spec_real32x6(b, at),
        ends_within(spec_real32x6(a, at), a, at),
{
    reveal(same_from);
    if spec_real32x6(a, at) is Ok {
        assert(value_of(spec_real32x6(a, at)) =~= value_of(spec_real32x6(b, at)));
    }
}

/// Reading an array looks at the bytes from `at` on and at no others.
pub proof fn lemma_reads_real32x7(a: Seq<u8>, b: Seq<u8>, at: int)
    requires
        same_from(a, b, at),
    ensures
        spec_real32x7(a, at) == spec_real32x7(b, at),
        ends_within(spec_real32x7(a, at), a, at),
{
    reveal(same_from);
    if spec_real32x7(a, at) is Ok {
        assert(value_of(spec_real32x7(a, at)) =~= value_of(spec_real32x7(b, at)));
    }
}

/// Reading an array looks at the bytes from `at` on and at no others.
pub proof fn lemma_reads_real32x8(a: Seq<u8>, b: Seq<u8>, at: int)
    requires
        same_from(a, b, at),
    ensures
        spec_real32x8(a, at) == spec_real32x8(b, at),
        ends_within(spec_real32x8(a, at), a, at),
{
    reveal(same_from);
    if spec_real32x8(a, at) is Ok {
        assert(value_of(spec_real32x8(a, at)) =~= value_of(spec_real32x8(b, at)));
    }
}

/// A type whose values are read from the bytes of a scene file.
pub trait Decode: Sized + View {
    /// What reading a value at `at` gives.
    spec fn spec_parse(bytes: Seq<u8>, at: int) -> Result<(Self::V, int), Failure>;

    /// Reads a value at the cursor.
    fn parse(parser: &mut Parser) -> (got: Result<Self, ParseError>)
        ensures
            final(parser).input() == old(parser).input(),
            agrees(
                seen(got),
                old(parser).cursor(),
                final(parser).cursor(),
                Self::spec_parse(old(parser).input(), old(parser).cursor()),
            ),
    ;

    /// Reading a value looks at the bytes from `at` on and at no others,
    /// and a value ends within the bytes and not before it begins.
    proof fn lemma_reads_ahead(a: Seq<u8>, b: Seq<u8>, at: int)
        requires
            same_from(a, b, at),
        ensures
            Self::spec_parse(a, at) == Self::spec_parse(b, at),
            ends_within(Self::spec_parse(a, at), a, at),
    ;
}

/// The `n` values at `at`, one after the other. A failure in a value is
/// one step away, by the position of the value.
pub open spec fn spec_list<T: Decode>(bytes: Seq<u8>, at: int, n: nat) -> Result<
    (Seq<T::V>, int),
    Failure,
>
    decreases n,
{
    if n == 0 {
        Ok((Seq::empty(), at))
    } else {
        match spec_list::<T>(bytes, at, (n - 1) as nat) {
            Err(failure) => Err(failure),
            Ok((items, middle)) => match under(
                T::spec_parse(bytes, middle),
                PathStep::Index((n - 1) as usize),
            ) {
                Err(failure) => Err(failure),
                Ok((item, end)) => Ok((items.push(item), end)),
            },
        }
    }
}

/// The sequence at `at`: its length as a prefix of the given width, then
/// its values.
pub open spec fn spec_counted<T: Decode>(bytes: Seq<u8>, at: int, prefix: Prefix) -> Result<
    (Seq<T::V>, int),
    Failure,
> {
    match spec_len(bytes, at, prefix) {
        Err(failure) => Err(failure),
        Ok((n, begin)) => spec_list::<T>(bytes, begin, n),
    }
}

/// The views of the values of a vector.
pub open spec fn views<T: View>(items: Seq<T>) -> Seq<T::V> {
    Seq::new(items.len(), |i: int| items[i]@)
}

/// The error of `String::from_utf8`; nothing is said of what it holds.
#[verifier::external_type_specification]
#[verifier::external_body]
pub struct ExFromUtf8Error(std::string::FromUtf8Error);

/// `String::from_utf8`: the string with the given bytes, or an error where
/// the bytes are not UTF-8.
#[verifier::external_body]
fn string_from_utf8(bytes: Vec<u8>) -> (text: Result<String, std::string::FromUtf8Error>)
    ensures
        match text {
            Ok(string) => valid_utf8(bytes@) && string@ == decode_utf8(bytes@),
            Err(_) => !valid_utf8(bytes@),
        },
{
    String::from_utf8(bytes)
}

/// A reader of typed values from bytes.
pub struct Parser<'a> {
    bytes: &'a [u8],
    i: usize,
}

impl<'a> Parser<'a> {
    #[verifier::type_invariant]
    spec fn within(self) -> bool {
        self.i <= self.bytes@.len()
    }

    /// The bytes that are read.
    pub closed spec fn input(self) -> Seq<u8> {
        self.bytes@
    }

    /// The place of the next byte to read.
    pub closed spec fn cursor(self) -> int {
        self.i as int
    }

    /// A reader at the beginning of `bytes`.
    pub fn new(bytes: &'a [u8]) -> (parser: Parser<'a>)
        ensures
            parser.input() == bytes@,
            parser.cursor() == 0,
    {
        Parser { bytes, i: 0 }
    }

    /// The place of the next byte to read.
    pub fn position(&self) -> (at: usize)
        ensures
            at == self.cursor(),
            at <= self.input().len(),
    {
        proof {
            use_type_invariant(self);
        }
        self.i
    }

    /// Number of bytes from the cursor to the end.
    pub fn remaining(&self) -> (n: usize)
        ensures
            n == self.input().len() - self.cursor(),
    {
        proof {
            use_type_invariant(self);
        }
        self.bytes.len() - self.i
    }

    /// Moves the cursor back to `at`. A place behind the cursor is not a
    /// place to go back to; the cursor then stays.
    pub fn rewind(&mut self, at: usize)
        ensures
            final(self).input() == old(self).input(),
            final(self).cursor() == if at <= old(self).cursor() {
                at as int
            } else {
                old(self).cursor()
            },
    {
        proof {
            use_type_invariant(&*self);
        }
        if at <= self.i {
            self.i = at;
        }
    }

    /// Makes the failure of kind `kind` at `at` and moves the cursor there.
    pub(crate) fn fail_at<T>(&mut self, kind: ParseErrorKind, at: usize) -> (got: Result<
        T,
        ParseError,
    >)
        requires
            at <= old(self).cursor(),
        ensures
            final(self).input() == old(self).input(),
            final(self).cursor() == at,
            got matches Err(error) && error@ == (Failure {
                kind,
                offset: at as int,
                path: Seq::empty(),
            }),
    {
        proof {
            use_type_invariant(&*self);
        }
        self.i = at;
        Err(ParseError { kind, offset: at, path: Vec::new() })
    }

    /// Reads one byte.
    pub fn read_u8(&mut self) -> (got: Result<u8, ParseError>)
        ensures
            final(self).input() == old(self).input(),
            agrees(
                seen(got),
                old(self).cursor(),
                final(self).cursor(),
                spec_u8(old(self).input(), old(self).cursor()),
            ),
    {
        proof {
            use_type_invariant(&*self);
        }
        if self.i < self.bytes.len() {
            let byte = self.bytes[self.i];
            self.i = self.i + 1;
            Ok(byte)
        } else {
            self.fail_at(ParseErrorKind::UnexpectedEnd, self.i)
        }
    }

    /// Reads four bytes as a number in little-endian order.
    pub fn read_u32(&mut self) -> (got: Result<u32, ParseError>)
        ensures
            final(self).input() == old(self).input(),
            agrees(
                seen(got),
                old(self).cursor(),
                final(self).cursor(),
                spec_u32(old(self).input(), old(self).cursor()),
            ),
    {
        proof {
            use_type_invariant(&*self);
        }
        if self.bytes.len() - self.i >= 4 {
            let n = read_le_u32(self.bytes, self.i);
            self.i = self.i + 4;
            Ok(n)
        } else {
            self.fail_at(ParseErrorKind::UnexpectedEnd, self.i)
        }
    }

    /// Reads four bytes as a signed number in little-endian order and
    /// two's complement.
    pub fn read_i32(&mut self) -> (got: Result<i32, ParseError>)
        ensures
            final(self).input() == old(self).input(),
            agrees(
                seen(got),
                old(self).cursor(),
                final(self).cursor(),
                spec_i32(old(self).input(), old(self).cursor()),
            ),
    {
        match self.read_u32() {
            Ok(bits) => Ok(to_signed(bits)),
            Err(error) => Err(error),
        }
    }

    /// Reads four bytes as the bits of a real.
    pub fn read_real32(&mut self) -> (got: Result<Real32, ParseError>)
        ensures
            final(self).input() == old(self).input(),
            agrees(
                seen(got),
                old(self).cursor(),
                final(self).cursor(),
                spec_real32(old(self).input(), old(self).cursor()),
            ),
    {
        match self.read_u32() {
            Ok(bits) => Ok(Real32(bits)),
            Err(error) => Err(error),
        }
    }

    /// Reads eight bytes as the bits of a real.
    pub fn read_real64(&mut self) -> (got: Result<Real64, ParseError>)
        ensures
            final(self).input() == old(self).input(),
            agrees(
                seen(got),
                old(self).cursor(),
                final(self).cursor(),
                spec_real64(old(self).input(), old(self).cursor()),
            ),
    {
        proof {
            use_type_invariant(&*self);
        }
        if self.bytes.len() - self.i >= 8 {
            let bits = read_le_u64(self.bytes, self.i);
            self.i = self.i + 8;
            Ok(Real64(bits))
        } else {
            self.fail_at(ParseErrorKind::UnexpectedEnd, self.i)
        }
    }

    /// Reads one byte as a truth value.
    pub fn read_bool(&mut self) -> (got: Result<bool, ParseError>)
        ensures
            final(self).input() == old(self).input(),
            agrees(
                seen(got),
                old(self).cursor(),
                final(self).cursor(),
                spec_bool(old(self).input(), old(self).cursor()),
            ),
    {
        proof {
            use_type_invariant(&*self);
        }
        if self.i < self.bytes.len() {
            let byte = self.bytes[self.i];
            if byte == 0 {
                self.i = self.i + 1;
                Ok(false)
            } else if byte == 1 {
                self.i = self.i + 1;
                Ok(true)
            } else {
                self.fail_at(ParseErrorKind::InvalidBool(byte), self.i)
            }
        } else {
            self.fail_at(ParseErrorKind::UnexpectedEnd, self.i)
        }
    }

    /// Reads `n` bytes.
    pub fn read_bytes(&mut self, n: usize) -> (got: Result<Vec<u8>, ParseError>)
        ensures
            final(self).input() == old(self).input(),
            agrees(
                seen(got),
                old(self).cursor(),
                final(self).cursor(),
                spec_bytes(old(self).input(), old(self).cursor(), n as nat),
            ),
    {
        proof {
            use_type_invariant(&*self);
        }
        if self.bytes.len() - self.i >= n {
            let taken = slice_to_vec(slice_subrange(self.bytes, self.i, self.i + n));
            self.i = self.i + n;
            Ok(taken)
        } else {
            self.fail_at(ParseErrorKind::UnexpectedEnd, self.i)
        }
    }

    /// Reads three bytes.
    pub fn read_u8x3(&mut self) -> (got: Result<[u8; 3], ParseError>)
        ensures
            final(self).input() == old(self).input(),
            agrees(
                as_read(got),
                old(self).cursor(),
                final(self).cursor(),
                spec_u8x3(old(self).input(), old(self).cursor()),
            ),
    {
        proof {
            use_type_invariant(&*self);
        }
        if self.bytes.len() - self.i >= 3 {
            let at = self.i;
            let items = [self.bytes[at], self.bytes[at + 1], self.bytes[at + 2]];
            self.i = at + 3;
            assert(items =~= value_of(spec_u8x3(self.bytes@, at as int)));
            Ok(items)
        } else {
            self.fail_at(ParseErrorKind::UnexpectedEnd, self.i)
        }
    }

    /// Reads four bytes.
    pub fn read_u8x4(&mut self) -> (got: Result<[u8; 4], ParseError>)
        ensures
            final(self).input() == old(self).input(),
            agrees(
                as_read(got),
                old(self).cursor(),
                final(self).cursor(),
                spec_u8x4(old(self).input(), old(self).cursor()),
            ),
    {
        proof {
            use_type_invariant(&*self);
        }
        if self.bytes.len() - self.i >= 4 {
            let at = self.i;
            let items = [
                self.bytes[at],
                self.bytes[at + 1],
                self.bytes[at + 2],
                self.bytes[at + 3],
            ];
            self.i = at + 4;
            assert(items =~= value_of(spec_u8x4(self.bytes@, at as int)));
            Ok(items)
        } else {
            self.fail_at(ParseErrorKind::UnexpectedEnd, self.i)
        }
    }

    /// Reads five bytes.
    pub fn read_u8x5(&mut self) -> (got: Result<[u8; 5], ParseError>)
        ensures
            final(self).input() == old(self).input(),
            agrees(
                as_read(got),
                old(self).cursor(),
                final(self).cursor(),
                spec_u8x5(old(self).input(), old(self).cursor()),
            ),
    {
        proof {
            use_type_invariant(&*self);
        }
        if self.bytes.len() - self.i >= 5 {
            let at = self.i;
            let items = [
                self.bytes[at],
                self.bytes[at + 1],
                self.bytes[at + 2],
                self.bytes[at + 3],
                self.bytes[at + 4],
            ];
            self.i = at + 5;
            assert(items =~= value_of(spec_u8x5(self.bytes@, at as int)));
            Ok(items)
        } else {
            self.fail_at(ParseErrorKind::UnexpectedEnd, self.i)
        }
    }

    /// Reads six bytes.
    pub fn read_u8x6(&mut self) -> (got: Result<[u8; 6], ParseError>)
        ensures
            final(self).input() == old(self).input(),
            agrees(
                as_read(got),
                old(self).cursor(),
                final(self).cursor(),
                spec_u8x6(old(self).input(), old(self).cursor()),
            ),
    {
        proof {
            use_type_invariant(&*self);
        }
        if self.bytes.len() - self.i >= 6 {
            let at = self.i;
            let items = [
                self.bytes[at],
                self.bytes[at + 1],
                self.bytes[at + 2],
                self.bytes[at + 3],
                self.bytes[at + 4],
                self.bytes[at + 5],
            ];
            self.i = at + 6;
            assert(items =~= value_of(spec_u8x6(self.bytes@, at as int)));
            Ok(items)
        } else {
            self.fail_at(ParseErrorKind::UnexpectedEnd, self.i)
        }
    }

    /// Reads two numbers.
    pub fn read_u32x2(&mut self) -> (got: Result<[u32; 2], ParseError>)
        ensures
            final(self).input() == old(self).input(),
            agrees(
                as_read(got),
                old(self).cursor(),
                final(self).cursor(),
                spec_u32x2(old(self).input(), old(self).cursor()),
            ),
    {
        proof {
            use_type_invariant(&*self);
        }
        if self.bytes.len() - self.i >= 8 {
            let at = self.i;
            let items = [read_le_u32(self.bytes, at), read_le_u32(self.bytes, at + 4)];
            self.i = at + 8;
            assert(items =~= value_of(spec_u32x2(self.bytes@, at as int)));
            Ok(items)
        } else {
            self.fail_at(ParseErrorKind::UnexpectedEnd, self.i)
        }
    }

    /// Reads three numbers.
    pub fn read_u32x3(&mut self) -> (got: Result<[u32; 3], ParseError>)
        ensures
            final(self).input() == old(self).input(),
            agrees(
                as_read(got),
                old(self).cursor(),
                final(self).cursor(),
                spec_u32x3(old(self).input(), old(self).cursor()),
            ),
    {
        proof {
            use_type_invariant(&*self);
        }
        if self.bytes.len() - self.i >= 12 {
            let at = self.i;
            let items = [
                read_le_u32(self.bytes, at),
                read_le_u32(self.bytes, at + 4),
                read_le_u32(self.bytes, at + 8),
            ];
            self.i = at + 12;
            assert(items =~= value_of(spec_u32x3(self.bytes@, at as int)));
            Ok(items)
        } else {
            self.fail_at(ParseErrorKind::UnexpectedEnd, self.i)
        }
    }

    /// Reads two signed numbers.
    pub fn read_i32x2(&mut self) -> (got: Result<[i32; 2], ParseError>)
        ensures
            final(self).input() == old(self).input(),
            agrees(
                as_read(got),
                old(self).cursor(),
                final(self).cursor(),
                spec_i32x2(old(self).input(), old(self).cursor()),
            ),
    {
        proof {
            use_type_invariant(&*self);
        }
        if self.bytes.len() - self.i >= 8 {
            let at = self.i;
            let items = [
                to_signed(read_le_u32(self.bytes, at)),
                to_signed(read_le_u32(self.bytes, at + 4)),
            ];
            self.i = at + 8;
            assert(items =~= value_of(spec_i32x2(self.bytes@, at as int)));
            Ok(items)
        } else {
            self.fail_at(ParseErrorKind::UnexpectedEnd, self.i)
        }
    }

    /// Reads three signed numbers.
    pub fn read_i32x3(&mut self) -> (got: Result<[i32; 3], ParseError>)
        ensures
            final(self).input() == old(self).input(),
            agrees(
                as_read(got),
                old(self).cursor(),
                final(self).cursor(),
                spec_i32x3(old(self).input(), old(self).cursor()),
            ),
    {
        proof {
            use_type_invariant(&*self);
        }
        if self.bytes.len() - self.i >= 12 {
            let at = self.i;
            let items = [
                to_signed(read_le_u32(self.bytes, at)),
                to_signed(read_le_u32(self.bytes, at + 4)),
                to_signed(read_le_u32(self.bytes, at + 8)),
            ];
            self.i = at + 12;
            assert(items =~= value_of(spec_i32x3(self.bytes@, at as int)));
            Ok(items)
        } else {
            self.fail_at(ParseErrorKind::UnexpectedEnd, self.i)
        }
    }

    /// Reads two reals.
    pub fn read_real32x2(&mut self) -> (got: Result<[Real32; 2], ParseError>)
        ensures
            final(self).input() == old(self).input(),
            agrees(
                as_read(got),
                old(self).cursor(),
                final(self).cursor(),
                spec_real32x2(old(self).input(), old(self).cursor()),
            ),
    {
        proof {
            use_type_invariant(&*self);
        }
        if self.bytes.len() - self.i >= 8 {
            let at = self.i;
            let items = [
                Real32(read_le_u32(self.bytes, at)),
                Real32(read_le_u32(self.bytes, at + 4)),
            ];
            self.i = at + 8;
            assert(items =~= value_of(spec_real32x2(self.bytes@, at as int)));
            Ok(items)
        } else {
            self.fail_at(ParseErrorKind::UnexpectedEnd, self.i)
        }
    }

    /// Reads three reals.
    pub fn read_real32x3(&mut self) -> (got: Result<[Real32; 3], ParseError>)
        ensures
            final(self).input() == old(self).input(),
            agrees(
                as_read(got),
                old(self).cursor(),
                final(self).cursor(),
                spec_real32x3(old(self).input(), old(self).cursor()),
            ),
    {
        proof {
            use_type_invariant(&*self);
        }
        if self.bytes.len() - self.i >= 12 {
            let at = self.i;
            let items = [
                Real32(read_le_u32(self.bytes, at)),
                Real32(read_le_u32(self.bytes, at + 4)),
                Real32(read_le_u32(self.bytes, at + 8)),
            ];
            self.i = at + 12;
            assert(items =~= value_of(spec_real32x3(self.bytes@, at as int)));
            Ok(items)
        } else {
            self.fail_at(ParseErrorKind::UnexpectedEnd, self.i)
        }
    }

    /// Reads four reals.
    pub fn read_real32x4(&mut self) -> (got: Result<[Real32; 4], ParseError>)
        ensures
            final(self).input() == old(self).input(),
            agrees(
                as_read(got),
                old(self).cursor(),
                final(self).cursor(),
                spec_real32x4(old(self).input(), old(self).cursor()),
            ),
    {
        proof {
            use_type_invariant(&*self);
        }
        if self.bytes.len() - self.i >= 16 {
            let at = self.i;
            let items = [
                Real32(read_le_u32(self.bytes, at)),
                Real32(read_le_u32(self.bytes, at + 4)),
                Real32(read_le_u32(self.bytes, at + 8)),
                Real32(read_le_u32(self.bytes, at + 12)),
            ];
            self.i = at + 16;
            assert(items =~= value_of(spec_real32x4(self.bytes@, at as int)));
            Ok(items)
        } else {
            self.fail_at(ParseErrorKind::UnexpectedEnd, self.i)
        }
    }

    /// Reads six reals.
    pub fn read_real32x6(&mut self) -> (got: Result<[Real32; 6], ParseError>)
        ensures
            final(self).input() == old(self).input(),
            agrees(
                as_read(got),
                old(self).cursor(),
                final(self).cursor(),
                spec_real32x6(old(self).input(), old(self).cursor()),
            ),
    {
        proof {
            use_type_invariant(&*self);
        }
        if self.bytes.len() - self.i >= 24 {
            let at = self.i;
            let items = [
                Real32(read_le_u32(self.bytes, at)),
                Real32(read_le_u32(self.bytes, at + 4)),
                Real32(read_le_u32(self.bytes, at + 8)),
                Real32(read_le_u32(self.bytes, at + 12)),
                Real32(read_le_u32(self.bytes, at + 16)),
                Real32(read_le_u32(self.bytes, at + 20)),
            ];
            self.i = at + 24;
            assert(items =~= value_of(spec_real32x6(self.bytes@, at as int)));
            Ok(items)
        } else {
            self.fail_at(ParseErrorKind::UnexpectedEnd, self.i)
        }
    }

    /// Reads seven reals.
    pub fn read_real32x7(&mut self) -> (got: Result<[Real32; 7], ParseError>)
        ensures
            final(self).input() == old(self).input(),
            agrees(
                as_read(got),
                old(self).cursor(),
                final(self).cursor(),
                spec_real32x7(old(self).input(), old(self).cursor()),
            ),
    {
        proof {
            use_type_invariant(&*self);
        }
        if self.bytes.len() - self.i >= 28 {
            let at = self.i;
            let items = [
                Real32(read_le_u32(self.bytes, at)),
                Real32(read_le_u32(self.bytes, at + 4)),
                Real32(read_le_u32(self.bytes, at + 8)),
                Real32(read_le_u32(self.bytes, at + 12)),
                Real32(read_le_u32(self.bytes, at + 16)),
                Real32(read_le_u32(self.bytes, at + 20)),
                Real32(read_le_u32(self.bytes, at + 24)),
            ];
            self.i = at + 28;
            assert(items =~= value_of(spec_real32x7(self.bytes@, at as int)));
            Ok(items)
        } else {
            self.fail_at(ParseErrorKind::UnexpectedEnd, self.i)
        }
    }

    /// Reads eight reals.
    pub fn read_real32x8(&mut self) -> (got: Result<[Real32; 8], ParseError>)
        ensures
            final(self).input() == old(self).input(),
            agrees(
                as_read(got),
                old(self).cursor(),
                final(self).cursor(),
                spec_real32x8(old(self).input(), old(self).cursor()),
            ),
    {
        proof {
            use_type_invariant(&*self);
        }
        if self.bytes.len() - self.i >= 32 {
            let at = self.i;
            let items = [
                Real32(read_le_u32(self.bytes, at)),
                Real32(read_le_u32(self.bytes, at + 4)),
                Real32(read_le_u32(self.bytes, at + 8)),
                Real32(read_le_u32(self.bytes, at + 12)),
                Real32(read_le_u32(self.bytes, at + 16)),
                Real32(read_le_u32(self.bytes, at + 20)),
                Real32(read_le_u32(self.bytes, at + 24)),
                Real32(read_le_u32(self.bytes, at + 28)),
            ];
            self.i = at + 32;
            assert(items =~= value_of(spec_real32x8(self.bytes@, at as int)));
            Ok(items)
        } else {
            self.fail_at(ParseErrorKind::UnexpectedEnd, self.i)
        }
    }

    /// Reads two groups of three reals.
    pub fn read_real32x3x2(&mut self) -> (got: Result<[[Real32; 3]; 2], ParseError>)
        ensures
            final(self).input() == old(self).input(),
            agrees(
                as_read(got),
                old(self).cursor(),
                final(self).cursor(),
                spec_real32x3x2(old(self).input(), old(self).cursor()),
            ),
    {
        if self.remaining() >= 24 {
            let first = self.read_real32x3()?;
            let second = self.read_real32x3()?;
            let groups = [first, second];
            assert(groups =~= value_of(spec_real32x3x2(old(self).input(), old(self).cursor())));
            Ok(groups)
        } else {
            let at = self.position();
            self.fail_at(ParseErrorKind::UnexpectedEnd, at)
        }
    }

    /// Reads the bytes `expected`; fails where other bytes stand there.
    pub fn expect(&mut self, expected: &[u8]) -> (got: Result<Vec<u8>, ParseError>)
        ensures
            final(self).input() == old(self).input(),
            agrees(
                seen(got),
                old(self).cursor(),
                final(self).cursor(),
                spec_expect(old(self).input(), old(self).cursor(), expected@),
            ),
    {
        proof {
            use_type_invariant(&*self);
        }
        let n = expected.len();
        if self.bytes.len() - self.i < n {
            return self.fail_at(ParseErrorKind::UnexpectedEnd, self.i);
        }
        let ghost here = self.bytes@.subrange(self.i as int, self.i + n);
        let mut k: usize = 0;
        while k < n
            invariant
                k <= n,
                n == expected@.len(),
                self.i + n <= self.bytes@.len(),
                here == self.bytes@.subrange(self.i as int, self.i + n),
                forall|j: int| 0 <= j < k ==> here[j] == expected@[j],
                self.bytes == old(self).bytes,
                self.i == old(self).i,
            decreases n - k,
        {
            if self.bytes[self.i + k] != expected[k] {
                assert(here[k as int] != expected@[k as int]);
                return self.fail_at(ParseErrorKind::Mismatch, self.i);
            }
            k = k + 1;
        }
        assert(here =~= expected@);
        self.i = self.i + n;
        Ok(slice_to_vec(expected))
    }

    /// Reads a length as a prefix of the given width.
    pub fn read_len(&mut self, prefix: Prefix) -> (got: Result<usize, ParseError>)
        ensures
            final(self).input() == old(self).input(),
            start_le(old(self).cursor(), final(self).cursor()),
            match got {
                Ok(n) => spec_len(old(self).input(), old(self).cursor(), prefix) == Ok::<
                    (nat, int),
                    Failure,
                >((n as nat, final(self).cursor())),
                Err(error) => spec_len(old(self).input(), old(self).cursor(), prefix) == Err::<
                    (nat, int),
                    Failure,
                >(error@) && final(self).cursor() == error@.offset,
            },
    {
        match prefix {
            Prefix::U8 => match self.read_u8() {
                Ok(n) => Ok(n as usize),
                Err(error) => Err(error),
            },
            Prefix::U32 => match self.read_u32() {
                Ok(n) => Ok(n as usize),
                Err(error) => Err(error),
            },
        }
    }

    /// Reads a string: its length in bytes as a prefix of the given width,
    /// then its bytes.
    pub fn read_string(&mut self, prefix: Prefix) -> (got: Result<String, ParseError>)
        ensures
            final(self).input() == old(self).input(),
            agrees(
                seen(got),
                old(self).cursor(),
                final(self).cursor(),
                spec_string(old(self).input(), old(self).cursor(), prefix),
            ),
    {
        let start = self.position();
        let n = self.read_len(prefix)?;
        let bytes = self.read_bytes(n)?;
        match string_from_utf8(bytes) {
            Ok(text) => Ok(text),
            Err(_) => self.fail_at(ParseErrorKind::InvalidUtf8, start),
        }
    }

    /// Reads four bytes as a number in little-endian order and leaves the
    /// cursor where it is.
    pub fn peek_u32(&mut self) -> (got: Result<u32, ParseError>)
        ensures
            final(self).input() == old(self).input(),
            final(self).cursor() == old(self).cursor(),
            match got {
                Ok(n) => spec_u32(old(self).input(), old(self).cursor()) == Ok::<
                    (u32, int),
                    Failure,
                >((n, old(self).cursor() + 4)),
                Err(error) => spec_u32(old(self).input(), old(self).cursor()) == Err::<
                    (u32, int),
                    Failure,
                >(error@),
            },
    {
        let start = self.position();
        let got = self.read_u32();
        self.rewind(start);
        got
    }

    /// Reads `n` values, one after the other.
    pub fn read_list<T: Decode>(&mut self, n: usize) -> (got: Result<Vec<T>, ParseError>)
        ensures
            final(self).input() == old(self).input(),
            start_le(old(self).cursor(), final(self).cursor()),
            match got {
                Ok(items) => items@.len() == n && spec_list::<T>(
                    old(self).input(),
                    old(self).cursor(),
                    n as nat,
                ) == Ok::<(Seq<T::V>, int), Failure>((views(items@), final(self).cursor())),
                Err(error) => spec_list::<T>(old(self).input(), old(self).cursor(), n as nat)
                    == Err::<(Seq<T::V>, int), Failure>(error@) && final(self).cursor()
                    == error@.offset,
            },
    {
        let mut items: Vec<T> = Vec::new();
        let mut k: usize = 0;
        assert(views(items@) =~= Seq::<T::V>::empty());
        while k < n
            invariant
                k <= n,
                self.input() == old(self).input(),
                old(self).cursor() <= self.cursor(),
                items@.len() == k,
                spec_list::<T>(old(self).input(), old(self).cursor(), k as nat) == Ok::<
                    (Seq<T::V>, int),
                    Failure,
                >((views(items@), self.cursor())),
            decreases n - k,
        {
            let ghost before = views(items@);
            match T::parse(self) {
                Ok(item) => {
                    items.push(item);
                    assert(views(items@) =~= before.push(item@));
                },
                Err(error) => {
                    let mut error = error;
                    let ghost inner = error@;
                    error.path.push(PathStep::Index(k));
                    proof {
                        lemma_list_fails::<T>(
                            old(self).input(),
                            old(self).cursor(),
                            (k + 1) as nat,
                            n as nat,
                        );
                    }
                    return Err(error);
                },
            }
            k = k + 1;
        }
        Ok(items)
    }

    /// Reads a sequence: its length as a prefix of the given width, then
    /// its values.
    pub fn read_counted<T: Decode>(&mut self, prefix: Prefix) -> (got: Result<
        Vec<T>,
        ParseError,
    >)
        ensures
            final(self).input() == old(self).input(),
            start_le(old(self).cursor(), final(self).cursor()),
            match got {
                Ok(items) => spec_counted::<T>(old(self).input(), old(self).cursor(), prefix)
                    == Ok::<(Seq<T::V>, int), Failure>((views(items@), final(self).cursor())),
                Err(error) => spec_counted::<T>(old(self).input(), old(self).cursor(), prefix)
                    == Err::<(Seq<T::V>, int), Failure>(error@) && final(self).cursor()
                    == error@.offset,
            },
    {
        let n = self.read_len(prefix)?;
        self.read_list::<T>(n)
    }
}

/// Whether `next` lies behind `at` and within the bytes. The parts of a
/// value lie behind its beginning; saying so where a value holds values of
/// its own kind makes plain that reading it comes to an end.
pub open spec fn advanced(bytes: Seq<u8>, at: int, next: int) -> bool {
    at < next <= bytes.len()
}

/// The two groups of three reals at `at`.
pub open spec fn spec_real32x3x2(bytes: Seq<u8>, at: int) -> Result<
    ([[Real32; 3]; 2], int),
    Failure,
> {
    if 0 <= at && at + 24 <= bytes.len() {
        Ok(([value_of(spec_real32x3(bytes, at)), value_of(spec_real32x3(bytes, at + 12))], at + 24))
    } else {
        fail(ParseErrorKind::UnexpectedEnd, at)
    }
}

/// Whether a read that began at `start` left the cursor at or behind it.
pub open spec fn start_le(start: int, cursor: int) -> bool {
    start <= cursor
}

/// Where the first values of a sequence fail to be read, the sequence
/// fails in the same way.
pub proof fn lemma_list_fails<T: Decode>(bytes: Seq<u8>, at: int, fewer: nat, more: nat)
    requires
        fewer <= more,
        spec_list::<T>(bytes, at, fewer) is Err,
    ensures
        spec_list::<T>(bytes, at, more) == spec_list::<T>(bytes, at, fewer),
    decreases more,
{
    if fewer < more {
        lemma_list_fails::<T>(bytes, at, fewer, (more - 1) as nat);
    }
}

/// Adds the position `index` to the way of a failure.
pub fn at_index<T>(got: Result<T, ParseError>, index: usize) -> (out: Result<T, ParseError>)
    ensures
        match got {
            Ok(value) => out == Ok::<T, ParseError>(value),
            Err(error) => out matches Err(outer) && outer@ == (Failure {
                kind: error@.kind,
                offset: error@.offset,
                path: error@.path.push(PathStep::Index(index)),
            }),
        },
{
    match got {
        Ok(value) => Ok(value),
        Err(error) => {
            let mut error = error;
            error.path.push(PathStep::Index(index));
            Err(error)
        },
    }
}

/// Adds the field `name` to the way of a failure.
pub fn at_field<T>(got: Result<T, ParseError>, name: &'static str) -> (out: Result<T, ParseError>)
    ensures
        match got {
            Ok(value) => out == Ok::<T, ParseError>(value),
            Err(error) => out matches Err(outer) && outer@ == (Failure {
                kind: error@.kind,
                offset: error@.offset,
                path: error@.path.push(PathStep::Field(name)),
            }),
        },
{
    match got {
        Ok(value) => Ok(value),
        Err(error) => {
            let mut error = error;
            error.path.push(PathStep::Field(name));
            Err(error)
        },
    }
}

impl Decode for u32 {
    open spec fn spec_parse(bytes: Seq<u8>, at: int) -> Result<(u32, int), Failure> {
        spec_u32(bytes, at)
    }

    fn parse(parser: &mut Parser) -> (got: Result<u32, ParseError>) {
        parser.read_u32()
    }

    proof fn lemma_reads_ahead(a: Seq<u8>, b: Seq<u8>, at: int) {
        lemma_reads_u32(a, b, at);
    }
}

} // verus!
