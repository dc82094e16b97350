//! Wire primitives: a byte reader over a borrowed buffer and a growable writer.
//!
//! The grammar of each primitive is a spec function from the remaining input
//! to either a value and the input that follows it, or the error the reader
//! reports. The reader's methods are proved to compute exactly that function;
//! the writer's methods are proved to append exactly the encoding.

use vstd::prelude::*;
use vstd::slice::slice_subrange;
use vstd::utf8::valid_utf8;
use vstd::utf8::decode_utf8;
use vstd::utf8::encode_utf8;
use crate::error::DecodeError;
use crate::limits::MAX_VARINT_BYTES;
use crate::model::id::Id;

verus! {

// ---------------------------------------------------------------------------
// Grammar
// ---------------------------------------------------------------------------

/// What a parser yields: the value and the input after it, or an error.
pub type Parsed<T> = Result<(T, Seq<u8>), DecodeError>;

/// `res` and `rest` are the outcome `expected` of a parser.
pub open spec fn parsed<T>(res: Result<T, DecodeError>, rest: Seq<u8>, expected: Parsed<T>) -> bool {
    match expected {
        Ok((v, tail)) => res == Ok::<T, DecodeError>(v) && rest == tail,
        Err(e) => res == Err::<T, DecodeError>(e),
    }
}

/// As `parsed`, for a result that is compared through its view.
pub open spec fn parsed_view<T: View>(
    res: Result<T, DecodeError>,
    rest: Seq<u8>,
    expected: Parsed<T::V>,
) -> bool {
    match expected {
        Ok((v, tail)) => res is Ok && res->Ok_0@ == v && rest == tail,
        Err(e) => res == Err::<T, DecodeError>(e),
    }
}

/// One byte.
pub open spec fn spec_read_byte(s: Seq<u8>, context: &'static str) -> Parsed<u8> {
    if s.len() == 0 {
        Err(DecodeError::UnexpectedEof { context })
    } else {
        Ok((s[0], s.skip(1)))
    }
}

/// Exactly `len` bytes.
pub open spec fn spec_read_bytes(s: Seq<u8>, len: nat, context: &'static str) -> Parsed<Seq<u8>> {
    if s.len() < len {
        Err(DecodeError::UnexpectedEof { context })
    } else {
        Ok((s.take(len as int), s.skip(len as int)))
    }
}

/// 128 to the power `n`: the weight of the `n`-th varint byte.
pub open spec fn pow128(n: nat) -> nat
    decreases n,
{
    if n == 0 {
        1
    } else {
        128 * pow128((n - 1) as nat)
    }
}

/// The LEB128 encoding of `v`: seven bits per byte, least significant group
/// first, the high bit set on every byte but the last.
pub open spec fn varint_bytes(v: nat) -> Seq<u8>
    decreases v,
{
    if v < 128 {
        seq![v as u8]
    } else {
        seq![(v % 128 + 128) as u8] + varint_bytes(v / 128)
    }
}

/// The varint that starts at `s`, where `index` bytes of it were read before.
///
/// The tenth byte may carry only bit 0 and must end the varint.
pub open spec fn spec_read_varint_from(s: Seq<u8>, index: nat, context: &'static str) -> Parsed<nat>
    decreases MAX_VARINT_BYTES - index,
{
    if index >= MAX_VARINT_BYTES {
        Err(DecodeError::VarintTooLong)
    } else if s.len() == 0 {
        Err(DecodeError::UnexpectedEof { context })
    } else if index + 1 == MAX_VARINT_BYTES && s[0] % 128 > 1 {
        Err(DecodeError::VarintTooLong)
    } else if s[0] < 128 {
        Ok((s[0] as nat, s.skip(1)))
    } else {
        match spec_read_varint_from(s.skip(1), index + 1, context) {
            Ok((high, rest)) => Ok(((s[0] % 128 + 128 * high) as nat, rest)),
            Err(e) => Err(e),
        }
    }
}

/// An unsigned LEB128 varint of at most ten bytes and 64 bits.
pub open spec fn spec_read_varint(s: Seq<u8>, context: &'static str) -> Parsed<u64> {
    match spec_read_varint_from(s, 0, context) {
        Ok((v, rest)) => Ok((v as u64, rest)),
        Err(e) => Err(e),
    }
}

/// Zigzag: maps 0, -1, 1, -2, ... to 0, 1, 2, 3, ...
pub open spec fn zigzag(n: i64) -> u64 {
    if n >= 0 {
        (2 * n) as u64
    } else {
        (-2 * n - 1) as u64
    }
}

/// The inverse of `zigzag`.
pub open spec fn unzigzag(u: u64) -> i64 {
    if u % 2 == 0 {
        (u / 2) as i64
    } else {
        (-(u / 2) - 1) as i64
    }
}

/// A zigzag-encoded signed varint.
pub open spec fn spec_read_signed_varint(s: Seq<u8>, context: &'static str) -> Parsed<i64> {
    match spec_read_varint(s, context) {
        Ok((u, rest)) => Ok((unzigzag(u), rest)),
        Err(e) => Err(e),
    }
}

/// The encoding of a signed varint.
pub open spec fn signed_varint_bytes(n: i64) -> Seq<u8> {
    varint_bytes(zigzag(n) as nat)
}

/// Eight little-endian bytes.
pub open spec fn spec_read_u64_le(s: Seq<u8>, context: &'static str) -> Parsed<u64> {
    if s.len() < 8 {
        Err(DecodeError::UnexpectedEof { context })
    } else {
        Ok((vstd::bytes::spec_u64_from_le_bytes(s.take(8)), s.skip(8)))
    }
}

/// A varint length, checked against `max`, and that many bytes.
pub open spec fn spec_read_prefixed(s: Seq<u8>, max: nat, context: &'static str) -> Parsed<Seq<u8>> {
    match spec_read_varint(s, context) {
        Err(e) => Err(e),
        Ok((len, rest)) => if len > max {
            Err(DecodeError::LengthExceedsLimit { field: context, len, max: max as u64 })
        } else {
            spec_read_bytes(rest, len as nat, context)
        },
    }
}

/// A length-prefixed string: the bytes must be valid UTF-8.
pub open spec fn spec_read_string(s: Seq<u8>, max: nat, context: &'static str) -> Parsed<Seq<char>> {
    match spec_read_prefixed(s, max, context) {
        Err(e) => Err(e),
        Ok((bytes, rest)) => if valid_utf8(bytes) {
            Ok((decode_utf8(bytes), rest))
        } else {
            Err(DecodeError::MalformedEncoding { context })
        },
    }
}

/// The encoding of a length-prefixed byte string.
pub open spec fn prefixed_bytes(b: Seq<u8>) -> Seq<u8> {
    varint_bytes(b.len()) + b
}

/// The encoding of a string: its UTF-8 bytes behind their length.
pub open spec fn string_bytes(s: Seq<char>) -> Seq<u8> {
    prefixed_bytes(encode_utf8(s))
}

/// Sixteen raw bytes.
pub open spec fn spec_read_id(s: Seq<u8>, context: &'static str) -> Parsed<Seq<u8>> {
    spec_read_bytes(s, 16, context)
}

/// `count` identifiers in a row, behind those in `acc`.
pub open spec fn spec_read_ids_from(
    s: Seq<u8>,
    count: nat,
    acc: Seq<Seq<u8>>,
    context: &'static str,
) -> Parsed<Seq<Seq<u8>>>
    decreases count,
{
    if count == 0 {
        Ok((acc, s))
    } else {
        match spec_read_id(s, context) {
            Err(e) => Err(e),
            Ok((id, rest)) => spec_read_ids_from(rest, (count - 1) as nat, acc.push(id), context),
        }
    }
}

/// A varint count, checked against `max`, and that many identifiers.
pub open spec fn spec_read_id_vec(s: Seq<u8>, max: nat, context: &'static str) -> Parsed<Seq<Seq<u8>>> {
    match spec_read_varint(s, context) {
        Err(e) => Err(e),
        Ok((count, rest)) => if count > max {
            Err(DecodeError::LengthExceedsLimit { field: context, len: count, max: max as u64 })
        } else {
            spec_read_ids_from(rest, count as nat, Seq::empty(), context)
        },
    }
}

/// The byte sequences of a list, one after the other.
pub open spec fn concat(parts: Seq<Seq<u8>>) -> Seq<u8>
    decreases parts.len(),
{
    if parts.len() == 0 {
        Seq::empty()
    } else {
        concat(parts.drop_last()) + parts.last()
    }
}

/// The encoding of an identifier vector: the count, then the identifiers.
pub open spec fn id_vec_bytes(ids: Seq<Seq<u8>>) -> Seq<u8> {
    varint_bytes(ids.len()) + concat(ids)
}

/// The views of a list of identifiers.
pub open spec fn ids_view(ids: Seq<Id>) -> Seq<Seq<u8>> {
    Seq::new(ids.len(), |i: int| ids[i]@)
}


// ---------------------------------------------------------------------------
// Trusted boundary
// ---------------------------------------------------------------------------

/// Calls `std::str::from_utf8` and copies the string it yields.
///
/// Trusted: the call succeeds exactly on well-formed UTF-8, and the string
/// then holds the characters that the bytes encode.
#[verifier::external_body]
pub(crate) fn string_from_utf8(bytes: &[u8]) -> (res: Option<String>)
    ensures
        res is Some <==> valid_utf8(bytes@),
        res is Some ==> res->0@ == decode_utf8(bytes@),
{
    match std::str::from_utf8(bytes) {
        Ok(s) => Some(s.to_owned()),
        Err(_) => None,
    }
}

// ---------------------------------------------------------------------------
// Reader
// ---------------------------------------------------------------------------

/// A cursor over a borrowed buffer. Its view is the input not yet read.
pub struct Reader<'a> {
    data: &'a [u8],
    pos: usize,
}

impl<'a> View for Reader<'a> {
    type V = Seq<u8>;

    closed spec fn view(&self) -> Seq<u8> {
        self.data@.skip(self.pos as int)
    }
}

impl<'a> Reader<'a> {
    #[verifier::type_invariant]
    spec fn in_bounds(self) -> bool {
        self.pos <= self.data@.len()
    }

    /// A reader at the start of `data`.
    pub fn new(data: &'a [u8]) -> (r: Self)
        ensures
            r@ == data@,
    {
        Reader { data, pos: 0 }
    }

    /// The number of bytes not yet read.
    pub fn remaining_len(&self) -> (n: usize)
        ensures
            n == self@.len(),
    {
        proof {
            use_type_invariant(self);
        }
        self.data.len() - self.pos
    }

    /// The input not yet read.
    pub fn remaining(&self) -> (rest: &'a [u8])
        ensures
            rest@ == self@,
    {
        proof {
            use_type_invariant(self);
        }
        slice_subrange(self.data, self.pos, self.data.len())
    }

    /// Reads one byte.
    pub fn read_byte(&mut self, context: &'static str) -> (res: Result<u8, DecodeError>)
        ensures
            parsed(res, final(self)@, spec_read_byte(old(self)@, context)),
    {
        proof {
            use_type_invariant(&*self);
        }
        if self.pos >= self.data.len() {
            return Err(DecodeError::UnexpectedEof { context });
        }
        let b: u8 = self.data[self.pos];
        proof {
            assert(self.data@.skip(self.pos as int).skip(1) =~= self.data@.skip(self.pos as int + 1));
        }
        self.pos = self.pos + 1;
        Ok(b)
    }

    /// Reads exactly `len` bytes, borrowed from the input.
    pub fn read_bytes(&mut self, len: usize, context: &'static str) -> (res: Result<&'a [u8], DecodeError>)
        ensures
            parsed_view(res, final(self)@, spec_read_bytes(old(self)@, len as nat, context)),
    {
        proof {
            use_type_invariant(&*self);
        }
        if len > self.data.len() - self.pos {
            return Err(DecodeError::UnexpectedEof { context });
        }
        let bytes = slice_subrange(self.data, self.pos, self.pos + len);
        proof {
            assert(self.data@.skip(self.pos as int).take(len as int) =~= self.data@.subrange(
                self.pos as int,
                self.pos + len,
            ));
            assert(self.data@.skip(self.pos as int).skip(len as int) =~= self.data@.skip(self.pos + len));
        }
        self.pos = self.pos + len;
        Ok(bytes)
    }

    /// Reads an unsigned LEB128 varint.
    pub fn read_varint(&mut self, context: &'static str) -> (res: Result<u64, DecodeError>)
        ensures
            parsed(res, final(self)@, spec_read_varint(old(self)@, context)),
    {
        let mut result: u64 = 0;
        let mut mult: u64 = 1;
        let mut i: usize = 0;
        proof {
            lemma_pow128_values();
        }
        loop
            invariant
                i <= 9,
                mult == pow128(i as nat),
                result < mult,
                match spec_read_varint_from(self@, i as nat, context) {
                    Ok((high, rest)) => spec_read_varint_from(old(self)@, 0, context) == Ok::<
                        (nat, Seq<u8>),
                        DecodeError,
                    >(((result + mult * high) as nat, rest)),
                    Err(e) => spec_read_varint_from(old(self)@, 0, context) == Err::<
                        (nat, Seq<u8>),
                        DecodeError,
                    >(e),
                },
            decreases 10 - i,
        {
            let byte: u8 = self.read_byte(context)?;
            let low: u64 = (byte % 128) as u64;
            if i + 1 == MAX_VARINT_BYTES && low > 1 {
                return Err(DecodeError::VarintTooLong);
            }
            proof {
                lemma_pow128_values();
                assert(low * mult <= 127 * mult) by (nonlinear_arith)
                    requires
                        low <= 127,
                ;
                if i == 9 {
                    assert(low * mult <= mult) by (nonlinear_arith)
                        requires
                            low <= 1,
                    ;
                }
            }
            let next: u64 = result + low * mult;
            if byte < 128 {
                proof {
                    assert(mult * low == low * mult) by (nonlinear_arith);
                }
                return Ok(next);
            }
            if i + 1 == MAX_VARINT_BYTES {
                return Err(DecodeError::VarintTooLong);
            }
            proof {
                match spec_read_varint_from(self@, (i + 1) as nat, context) {
                    Ok((high, rest)) => {
                        assert(result + mult * (low + 128 * high) == next + (mult * 128) * high)
                            by (nonlinear_arith)
                            requires
                                next == result + low * mult,
                        ;
                    },
                    Err(_) => {},
                }
            }
            result = next;
            mult = mult * 128;
            i = i + 1;
        }
    }

    /// Reads a zigzag-encoded signed varint.
    pub fn read_signed_varint(&mut self, context: &'static str) -> (res: Result<i64, DecodeError>)
        ensures
            parsed(res, final(self)@, spec_read_signed_varint(old(self)@, context)),
    {
        let u: u64 = self.read_varint(context)?;
        if u % 2 == 0 {
            Ok((u / 2) as i64)
        } else {
            Ok(-((u / 2) as i64) - 1)
        }
    }

    /// Reads eight little-endian bytes as one 64-bit pattern.
    pub fn read_u64_le(&mut self, context: &'static str) -> (res: Result<u64, DecodeError>)
        ensures
            parsed(res, final(self)@, spec_read_u64_le(old(self)@, context)),
    {
        let bytes = self.read_bytes(8, context)?;
        Ok(vstd::bytes::u64_from_le_bytes(bytes))
    }

    /// Reads a varint length and that many bytes, after checking the length
    /// against `max_len`.
    pub fn read_prefixed(&mut self, max_len: usize, context: &'static str) -> (res: Result<
        &'a [u8],
        DecodeError,
    >)
        ensures
            parsed_view(res, final(self)@, spec_read_prefixed(old(self)@, max_len as nat, context)),
    {
        let len: u64 = self.read_varint(context)?;
        if len > max_len as u64 {
            return Err(DecodeError::LengthExceedsLimit { field: context, len, max: max_len as u64 });
        }
        self.read_bytes(len as usize, context)
    }

    /// Reads a length-prefixed UTF-8 string of at most `max_len` bytes.
    pub fn read_string(&mut self, max_len: usize, context: &'static str) -> (res: Result<String, DecodeError>)
        ensures
            parsed_view(res, final(self)@, spec_read_string(old(self)@, max_len as nat, context)),
    {
        let bytes = self.read_prefixed(max_len, context)?;
        match string_from_utf8(bytes) {
            Some(s) => Ok(s),
            None => Err(DecodeError::MalformedEncoding { context }),
        }
    }

    /// Reads sixteen raw bytes as an identifier.
    pub fn read_id(&mut self, context: &'static str) -> (res: Result<Id, DecodeError>)
        ensures
            parsed_view(res, final(self)@, spec_read_id(old(self)@, context)),
    {
        let bytes = self.read_bytes(16, context)?;
        let mut id: Id = [0u8; 16];
        let mut i: usize = 0;
        while i < 16
            invariant
                i <= 16,
                bytes@.len() == 16,
                forall|j: int| 0 <= j < i ==> id@[j] == bytes@[j],
            decreases 16 - i,
        {
            id[i] = bytes[i];
            i = i + 1;
        }
        proof {
            assert(id@ =~= bytes@);
        }
        Ok(id)
    }

    /// Reads a varint count and that many identifiers, after checking the
    /// count against `max`.
    pub fn read_id_vec(&mut self, max: usize, context: &'static str) -> (res: Result<Vec<Id>, DecodeError>)
        ensures
            match spec_read_id_vec(old(self)@, max as nat, context) {
                Ok((ids, tail)) => res is Ok && ids_view(res->Ok_0@) == ids && final(self)@ == tail,
                Err(e) => res == Err::<Vec<Id>, DecodeError>(e),
            },
    {
        let count: u64 = self.read_varint(context)?;
        if count > max as u64 {
            return Err(DecodeError::LengthExceedsLimit { field: context, len: count, max: max as u64 });
        }
        let n: usize = count as usize;
        let ghost start = self@;
        let mut ids: Vec<Id> = Vec::new();
        let mut i: usize = 0;
        proof {
            assert(ids_view(ids@) =~= Seq::<Seq<u8>>::empty());
        }
        while i < n
            invariant
                i <= n,
                ids@.len() == i,
                n == count,
                count <= max,
                spec_read_varint(old(self)@, context) == Ok::<(u64, Seq<u8>), DecodeError>((count, start)),
                spec_read_ids_from(start, n as nat, Seq::empty(), context) == spec_read_ids_from(
                    self@,
                    (n - i) as nat,
                    ids_view(ids@),
                    context,
                ),
            decreases n - i,
        {
            let ghost before = ids_view(ids@);
            let id: Id = self.read_id(context)?;
            ids.push(id);
            proof {
                assert(ids_view(ids@) =~= before.push(id@));
            }
            i = i + 1;
        }
        Ok(ids)
    }
}


// ---------------------------------------------------------------------------
// Writer
// ---------------------------------------------------------------------------

/// A growable output buffer. Its view is the bytes written so far.
pub struct Writer {
    buf: Vec<u8>,
}

impl View for Writer {
    type V = Seq<u8>;

    closed spec fn view(&self) -> Seq<u8> {
        self.buf@
    }
}

impl Writer {
    /// An empty writer.
    pub fn new() -> (w: Self)
        ensures
            w@ == Seq::<u8>::empty(),
    {
        Writer { buf: Vec::new() }
    }

    /// An empty writer with room for `capacity` bytes.
    pub fn with_capacity(capacity: usize) -> (w: Self)
        ensures
            w@ == Seq::<u8>::empty(),
    {
        Writer { buf: Vec::with_capacity(capacity) }
    }

    /// The number of bytes written.
    pub fn len(&self) -> (n: usize)
        ensures
            n == self@.len(),
    {
        self.buf.len()
    }

    /// The bytes written so far.
    pub fn as_bytes(&self) -> (bytes: &[u8])
        ensures
            bytes@ == self@,
    {
        self.buf.as_slice()
    }

    /// Gives up the writer for the bytes written.
    pub fn into_bytes(self) -> (bytes: Vec<u8>)
        ensures
            bytes@ == self@,
    {
        self.buf
    }

    /// Appends one byte.
    pub fn write_byte(&mut self, b: u8)
        ensures
            final(self)@ == old(self)@.push(b),
    {
        self.buf.push(b);
    }

    /// Appends raw bytes.
    pub fn write_bytes(&mut self, bytes: &[u8])
        ensures
            final(self)@ == old(self)@ + bytes@,
    {
        self.buf.extend_from_slice(bytes);
    }

    /// Appends an unsigned LEB128 varint.
    pub fn write_varint(&mut self, value: u64)
        ensures
            final(self)@ == old(self)@ + varint_bytes(value as nat),
    {
        let mut v: u64 = value;
        proof {
            assert(self@ + varint_bytes(v as nat) =~= old(self)@ + varint_bytes(value as nat));
        }
        while v >= 128
            invariant
                self@ + varint_bytes(v as nat) == old(self)@ + varint_bytes(value as nat),
            decreases v,
        {
            let ghost before = self@;
            let b: u8 = (v % 128 + 128) as u8;
            self.buf.push(b);
            proof {
                assert(before.push(b) + varint_bytes((v / 128) as nat) =~= before + varint_bytes(v as nat));
            }
            v = v / 128;
        }
        let ghost before = self@;
        self.buf.push(v as u8);
        proof {
            assert(before.push(v as u8) =~= before + varint_bytes(v as nat));
        }
    }

    /// Appends a zigzag-encoded signed varint.
    pub fn write_signed_varint(&mut self, value: i64)
        ensures
            final(self)@ == old(self)@ + signed_varint_bytes(value),
    {
        let u: u64 = if value >= 0 {
            (value as u64) * 2
        } else {
            ((-(value + 1)) as u64) * 2 + 1
        };
        self.write_varint(u);
    }

    /// Appends a 64-bit pattern as eight little-endian bytes.
    pub fn write_u64_le(&mut self, bits: u64)
        ensures
            final(self)@ == old(self)@ + vstd::bytes::spec_u64_to_le_bytes(bits),
    {
        let bytes = vstd::bytes::u64_to_le_bytes(bits);
        self.buf.extend_from_slice(bytes.as_slice());
    }

    /// Appends a varint length and the bytes.
    pub fn write_bytes_prefixed(&mut self, bytes: &[u8])
        ensures
            final(self)@ == old(self)@ + prefixed_bytes(bytes@),
    {
        self.write_varint(bytes.len() as u64);
        self.buf.extend_from_slice(bytes);
        proof {
            assert(self@ =~= old(self)@ + prefixed_bytes(bytes@));
        }
    }

    /// Appends a string as its UTF-8 bytes behind their length.
    pub fn write_string(&mut self, s: &str)
        ensures
            final(self)@ == old(self)@ + string_bytes(s@),
    {
        self.write_bytes_prefixed(s.as_bytes());
    }

    /// Appends the sixteen bytes of an identifier.
    pub fn write_id(&mut self, id: &Id)
        ensures
            final(self)@ == old(self)@ + id@,
    {
        self.buf.extend_from_slice(id.as_slice());
    }

    /// Appends a varint count and the identifiers.
    pub fn write_id_vec(&mut self, ids: &Vec<Id>)
        ensures
            final(self)@ == old(self)@ + id_vec_bytes(ids_view(ids@)),
    {
        self.write_varint(ids.len() as u64);
        let ghost start = self@;
        let ghost all = ids_view(ids@);
        let mut i: usize = 0;
        proof {
            assert(self@ =~= start + concat(all.take(0)));
        }
        while i < ids.len()
            invariant
                i <= ids.len(),
                all == ids_view(ids@),
                self@ == start + concat(all.take(i as int)),
            decreases ids.len() - i,
        {
            let ghost before = self@;
            self.write_id(&ids[i]);
            proof {
                let next = all.take(i + 1);
                assert(next.drop_last() =~= all.take(i as int));
                assert(next.last() == ids@[i as int]@);
                assert(before + ids@[i as int]@ =~= start + concat(next));
            }
            i = i + 1;
        }
        proof {
            assert(all.take(ids.len() as int) =~= all);
            assert(self@ =~= old(self)@ + id_vec_bytes(all));
        }
    }
}

// ---------------------------------------------------------------------------
// Laws
// ---------------------------------------------------------------------------

/// Zigzag is the shift-and-xor `(n << 1) ^ (n >> 63)`, and its inverse is
/// `(u >> 1) ^ -(u & 1)`.
pub proof fn lemma_zigzag_is_shift_xor(n: i64, u: u64)
    ensures
        zigzag(n) == ((n << 1) ^ (n >> 63)) as u64,
        unzigzag(u) == ((u >> 1) as i64) ^ (-((u & 1) as i64)) as i64,
{
    assert(zigzag(n) == ((n << 1) ^ (n >> 63)) as u64) by (bit_vector);
    assert(unzigzag(u) == ((u >> 1) as i64) ^ (-((u & 1) as i64)) as i64) by (bit_vector);
}

/// A declared length above the limit is refused with the field, the length
/// and the limit, before any byte behind the length is read.
pub proof fn lemma_length_limit_enforced(s: Seq<u8>, max: nat, context: &'static str)
    requires
        spec_read_varint(s, context) is Ok,
        spec_read_varint(s, context)->Ok_0.0 > max,
    ensures
        spec_read_prefixed(s, max, context) == Err::<(Seq<u8>, Seq<u8>), DecodeError>(
            DecodeError::LengthExceedsLimit {
                field: context,
                len: spec_read_varint(s, context)->Ok_0.0,
                max: max as u64,
            },
        ),
        spec_read_string(s, max, context) == Err::<(Seq<char>, Seq<u8>), DecodeError>(
            DecodeError::LengthExceedsLimit {
                field: context,
                len: spec_read_varint(s, context)->Ok_0.0,
                max: max as u64,
            },
        ),
        spec_read_id_vec(s, max, context) == Err::<(Seq<Seq<u8>>, Seq<u8>), DecodeError>(
            DecodeError::LengthExceedsLimit {
                field: context,
                len: spec_read_varint(s, context)->Ok_0.0,
                max: max as u64,
            },
        ),
{
}

/// Zigzag and its inverse undo each other.
pub proof fn lemma_zigzag_inverse(n: i64, u: u64)
    ensures
        unzigzag(zigzag(n)) == n,
        zigzag(unzigzag(u)) == u,
{
}

/// The weights of the ten varint bytes; the last is 2^63.
pub proof fn lemma_pow128_values()
    ensures
        pow128(0) == 1,
        pow128(9) == 0x8000_0000_0000_0000,
        forall|n: nat| #![trigger pow128(n)] n < 9 ==> pow128(n) * 128 == pow128(n + 1) && pow128(n) <= 0x0100_0000_0000_0000,
{
    reveal_with_fuel(pow128, 11);
    assert forall|n: nat| #![trigger pow128(n)] n < 9 implies pow128(n) * 128 == pow128(n + 1)
        && pow128(n) <= 0x0100_0000_0000_0000 by {
        if n == 0 {
        } else if n == 1 {
        } else if n == 2 {
        } else if n == 3 {
        } else if n == 4 {
        } else if n == 5 {
        } else if n == 6 {
        } else if n == 7 {
        } else {
        }
    }
}

/// Reading what `varint_bytes` wrote, from byte `index` on, gives the value
/// back and stops where the encoding stops.
pub proof fn lemma_varint_roundtrip_from(v: nat, index: nat, rest: Seq<u8>, context: &'static str)
    requires
        index <= 9,
        v < 2 * pow128((9 - index) as nat),
    ensures
        spec_read_varint_from(varint_bytes(v) + rest, index, context) == Ok::<(nat, Seq<u8>), DecodeError>(
            (v, rest),
        ),
    decreases v,
{
    lemma_pow128_values();
    let s = varint_bytes(v) + rest;
    if v < 128 {
        assert(s.skip(1) =~= rest);
        assert(s[0] == v as u8);
    } else {
        assert(index < 9) by {
            if index == 9 {
                assert(pow128(0) == 1);
            }
        }
        assert(pow128((9 - index) as nat) == 128 * pow128((8 - index) as nat));
        lemma_varint_roundtrip_from(v / 128, index + 1, rest, context);
        assert(s.skip(1) =~= varint_bytes(v / 128) + rest);
        assert(s[0] == (v % 128 + 128) as u8);
    }
}

/// Reading an encoded varint gives it back.
pub proof fn lemma_varint_roundtrip(v: u64, rest: Seq<u8>, context: &'static str)
    ensures
        spec_read_varint(varint_bytes(v as nat) + rest, context) == Ok::<(u64, Seq<u8>), DecodeError>(
            (v, rest),
        ),
{
    lemma_pow128_values();
    lemma_varint_roundtrip_from(v as nat, 0, rest, context);
}

/// Reading an encoded signed varint gives it back.
pub proof fn lemma_signed_varint_roundtrip(n: i64, rest: Seq<u8>, context: &'static str)
    ensures
        spec_read_signed_varint(signed_varint_bytes(n) + rest, context) == Ok::<
            (i64, Seq<u8>),
            DecodeError,
        >((n, rest)),
{
    lemma_varint_roundtrip(zigzag(n), rest, context);
}

/// Reading eight little-endian bytes gives the pattern back.
pub proof fn lemma_u64_le_roundtrip(bits: u64, rest: Seq<u8>, context: &'static str)
    ensures
        spec_read_u64_le(vstd::bytes::spec_u64_to_le_bytes(bits) + rest, context) == Ok::<
            (u64, Seq<u8>),
            DecodeError,
        >((bits, rest)),
{
    vstd::bytes::lemma_auto_spec_u64_to_from_le_bytes();
    let b = vstd::bytes::spec_u64_to_le_bytes(bits);
    assert((b + rest).take(8) =~= b);
    assert((b + rest).skip(8) =~= rest);
}

/// Reading `len` bytes from an input that starts with them gives them back.
pub proof fn lemma_bytes_roundtrip(b: Seq<u8>, rest: Seq<u8>, context: &'static str)
    ensures
        spec_read_bytes(b + rest, b.len(), context) == Ok::<(Seq<u8>, Seq<u8>), DecodeError>((b, rest)),
{
    assert((b + rest).take(b.len() as int) =~= b);
    assert((b + rest).skip(b.len() as int) =~= rest);
}

/// Reading a length-prefixed byte string within the limit gives it back.
pub proof fn lemma_prefixed_roundtrip(b: Seq<u8>, max: nat, rest: Seq<u8>, context: &'static str)
    requires
        b.len() <= max,
        b.len() <= u64::MAX,
    ensures
        spec_read_prefixed(prefixed_bytes(b) + rest, max, context) == Ok::<(Seq<u8>, Seq<u8>), DecodeError>(
            (b, rest),
        ),
{
    lemma_varint_roundtrip(b.len() as u64, b + rest, context);
    assert(prefixed_bytes(b) + rest =~= varint_bytes(b.len()) + (b + rest));
    lemma_bytes_roundtrip(b, rest, context);
}

/// Reading an encoded string within the limit gives it back.
pub proof fn lemma_string_roundtrip(s: Seq<char>, max: nat, rest: Seq<u8>, context: &'static str)
    requires
        encode_utf8(s).len() <= max,
        encode_utf8(s).len() <= u64::MAX,
    ensures
        spec_read_string(string_bytes(s) + rest, max, context) == Ok::<(Seq<char>, Seq<u8>), DecodeError>(
            (s, rest),
        ),
{
    lemma_prefixed_roundtrip(encode_utf8(s), max, rest, context);
    vstd::utf8::encode_utf8_valid_utf8(s);
    vstd::utf8::encode_utf8_decode_utf8(s);
}

/// Every identifier in the list has sixteen bytes.
pub open spec fn ids_well_formed(ids: Seq<Seq<u8>>) -> bool {
    forall|i: int| 0 <= i < ids.len() ==> (#[trigger] ids[i]).len() == 16
}

/// A concatenation is the first part followed by the concatenation of the others.
pub proof fn lemma_concat_first(ids: Seq<Seq<u8>>)
    requires
        ids.len() > 0,
    ensures
        concat(ids) == ids.first() + concat(ids.drop_first()),
    decreases ids.len(),
{
    if ids.len() == 1 {
        assert(ids.drop_last() =~= Seq::<Seq<u8>>::empty());
        assert(ids.drop_first() =~= Seq::<Seq<u8>>::empty());
        assert(concat(ids) =~= ids.first() + concat(ids.drop_first()));
    } else {
        lemma_concat_first(ids.drop_last());
        assert(ids.drop_last().drop_first() =~= ids.drop_first().drop_last());
        assert(ids.drop_last().first() == ids.first());
        assert(ids.drop_first().last() == ids.last());
        assert(concat(ids) =~= ids.first() + concat(ids.drop_first()));
    }
}

/// Reading the bytes of a list of identifiers gives the list back, behind
/// what was read before.
pub proof fn lemma_ids_roundtrip_from(
    ids: Seq<Seq<u8>>,
    acc: Seq<Seq<u8>>,
    rest: Seq<u8>,
    context: &'static str,
)
    requires
        ids_well_formed(ids),
    ensures
        spec_read_ids_from(concat(ids) + rest, ids.len(), acc, context) == Ok::<
            (Seq<Seq<u8>>, Seq<u8>),
            DecodeError,
        >((acc + ids, rest)),
    decreases ids.len(),
{
    if ids.len() == 0 {
        assert(concat(ids) + rest =~= rest);
        assert(acc + ids =~= acc);
    } else {
        let tail = ids.drop_first();
        lemma_concat_first(ids);
        assert(concat(ids) + rest =~= ids.first() + (concat(tail) + rest));
        lemma_bytes_roundtrip(ids.first(), concat(tail) + rest, context);
        lemma_ids_roundtrip_from(tail, acc.push(ids.first()), rest, context);
        assert(acc.push(ids.first()) + tail =~= acc + ids);
    }
}

/// Reading an encoded identifier vector within the limit gives it back.
pub proof fn lemma_id_vec_roundtrip(ids: Seq<Seq<u8>>, max: nat, rest: Seq<u8>, context: &'static str)
    requires
        ids_well_formed(ids),
        ids.len() <= max,
        ids.len() <= u64::MAX,
    ensures
        spec_read_id_vec(id_vec_bytes(ids) + rest, max, context) == Ok::<
            (Seq<Seq<u8>>, Seq<u8>),
            DecodeError,
        >((ids, rest)),
{
    lemma_varint_roundtrip(ids.len() as u64, concat(ids) + rest, context);
    assert(id_vec_bytes(ids) + rest =~= varint_bytes(ids.len()) + (concat(ids) + rest));
    lemma_ids_roundtrip_from(ids, Seq::empty(), rest, context);
    assert(Seq::<Seq<u8>>::empty() + ids =~= ids);
}

/// A concatenation grows by the part that is added behind.
pub proof fn lemma_concat_push(parts: Seq<Seq<u8>>, part: Seq<u8>)
    ensures
        concat(parts.push(part)) == concat(parts) + part,
{
    assert(parts.push(part).drop_last() =~= parts);
}

} // verus!
