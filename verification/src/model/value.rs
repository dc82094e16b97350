//! Typed property values.
//!
//! Values are typed attribute instances on entities and relations. Each model
//! type has a view that holds its contents as mathematical sequences; the
//! contracts of the codec are stated over those views.

use vstd::prelude::*;
use crate::model::id::Id;
use crate::model::id::opt_id_view;
use crate::model::ieee::double_is_nan;
use crate::model::ieee::double_exceeds;
use crate::model::ieee::singles_have_nan;
use crate::model::ieee::is_nan_bits;
use crate::model::ieee::exceeds_bits;
use crate::model::ieee::has_nan_single;
use crate::model::ieee::DOUBLE_90;
use crate::model::ieee::DOUBLE_180;

verus! {

// ---------------------------------------------------------------------------
// Data types
// ---------------------------------------------------------------------------

/// Data types for property values, each with its fixed wire code.
#[derive(Debug, Clone, Copy, PartialEq, Eq, Structural, Hash)]
pub enum DataType {
    Bool,
    Int64,
    Float64,
    Decimal,
    Text,
    Bytes,
    Timestamp,
    Date,
    Point,
    Embedding,
    Ref,
}

impl DataType {
    /// The wire code of the data type: 1 for `Bool` up to 11 for `Ref`.
    pub open spec fn spec_code(self) -> u8 {
        match self {
            DataType::Bool => 1,
            DataType::Int64 => 2,
            DataType::Float64 => 3,
            DataType::Decimal => 4,
            DataType::Text => 5,
            DataType::Bytes => 6,
            DataType::Timestamp => 7,
            DataType::Date => 8,
            DataType::Point => 9,
            DataType::Embedding => 10,
            DataType::Ref => 11,
        }
    }

    /// The data type with wire code `v`, if there is one.
    pub open spec fn spec_from_u8(v: u8) -> Option<DataType> {
        if v == 1 {
            Some(DataType::Bool)
        } else if v == 2 {
            Some(DataType::Int64)
        } else if v == 3 {
            Some(DataType::Float64)
        } else if v == 4 {
            Some(DataType::Decimal)
        } else if v == 5 {
            Some(DataType::Text)
        } else if v == 6 {
            Some(DataType::Bytes)
        } else if v == 7 {
            Some(DataType::Timestamp)
        } else if v == 8 {
            Some(DataType::Date)
        } else if v == 9 {
            Some(DataType::Point)
        } else if v == 10 {
            Some(DataType::Embedding)
        } else if v == 11 {
            Some(DataType::Ref)
        } else {
            None
        }
    }

    /// Creates a data type from its wire code.
    pub fn from_u8(v: u8) -> (res: Option<DataType>)
        ensures
            res == Self::spec_from_u8(v),
            res is Some <==> 1 <= v <= 11,
            res is Some ==> res->0.spec_code() == v,
    {
        match v {
            1 => Some(DataType::Bool),
            2 => Some(DataType::Int64),
            3 => Some(DataType::Float64),
            4 => Some(DataType::Decimal),
            5 => Some(DataType::Text),
            6 => Some(DataType::Bytes),
            7 => Some(DataType::Timestamp),
            8 => Some(DataType::Date),
            9 => Some(DataType::Point),
            10 => Some(DataType::Embedding),
            11 => Some(DataType::Ref),
            _ => None,
        }
    }

    /// The wire code of the data type.
    pub fn code(self) -> (res: u8)
        ensures
            res == self.spec_code(),
            Self::spec_from_u8(res) == Some(self),
    {
        match self {
            DataType::Bool => 1,
            DataType::Int64 => 2,
            DataType::Float64 => 3,
            DataType::Decimal => 4,
            DataType::Text => 5,
            DataType::Bytes => 6,
            DataType::Timestamp => 7,
            DataType::Date => 8,
            DataType::Point => 9,
            DataType::Embedding => 10,
            DataType::Ref => 11,
        }
    }
}

/// Embedding sub-types, each with its fixed wire code.
#[derive(Debug, Clone, Copy, PartialEq, Eq, Structural, Hash)]
pub enum EmbeddingSubType {
    /// 32-bit IEEE 754 float, little-endian (4 bytes per dimension).
    Float32,
    /// Signed 8-bit integer (1 byte per dimension).
    Int8,
    /// Bit-packed binary, least significant bit first (one bit per dimension).
    Binary,
}

impl EmbeddingSubType {
    /// The wire code of the sub-type: 0, 1 or 2.
    pub open spec fn spec_code(self) -> u8 {
        match self {
            EmbeddingSubType::Float32 => 0,
            EmbeddingSubType::Int8 => 1,
            EmbeddingSubType::Binary => 2,
        }
    }

    /// The sub-type with wire code `v`, if there is one.
    pub open spec fn spec_from_u8(v: u8) -> Option<EmbeddingSubType> {
        if v == 0 {
            Some(EmbeddingSubType::Float32)
        } else if v == 1 {
            Some(EmbeddingSubType::Int8)
        } else if v == 2 {
            Some(EmbeddingSubType::Binary)
        } else {
            None
        }
    }

    /// The number of data bytes that `dims` dimensions take.
    pub open spec fn spec_bytes_for_dims(self, dims: nat) -> nat {
        match self {
            EmbeddingSubType::Float32 => dims * 4,
            EmbeddingSubType::Int8 => dims,
            EmbeddingSubType::Binary => (dims + 7) / 8,
        }
    }

    /// Creates a sub-type from its wire code.
    pub fn from_u8(v: u8) -> (res: Option<EmbeddingSubType>)
        ensures
            res == Self::spec_from_u8(v),
            res is Some <==> v <= 2,
            res is Some ==> res->0.spec_code() == v,
    {
        match v {
            0 => Some(EmbeddingSubType::Float32),
            1 => Some(EmbeddingSubType::Int8),
            2 => Some(EmbeddingSubType::Binary),
            _ => None,
        }
    }

    /// The wire code of the sub-type.
    pub fn code(self) -> (res: u8)
        ensures
            res == self.spec_code(),
            Self::spec_from_u8(res) == Some(self),
    {
        match self {
            EmbeddingSubType::Float32 => 0,
            EmbeddingSubType::Int8 => 1,
            EmbeddingSubType::Binary => 2,
        }
    }

    /// Returns the number of bytes needed for the given number of dimensions.
    ///
    /// The count must fit the machine word.
    pub fn bytes_for_dims(self, dims: usize) -> (res: usize)
        requires
            self.spec_bytes_for_dims(dims as nat) <= usize::MAX,
        ensures
            res == self.spec_bytes_for_dims(dims as nat),
    {
        match self {
            EmbeddingSubType::Float32 => dims * 4,
            EmbeddingSubType::Int8 => dims,
            EmbeddingSubType::Binary => dims / 8 + (if dims % 8 == 0 {
                0
            } else {
                1
            }),
        }
    }

    /// The number of bytes for the given dimensions, or `None` where the
    /// count does not fit the machine word.
    pub fn checked_bytes_for_dims(self, dims: usize) -> (res: Option<usize>)
        ensures
            res is Some <==> self.spec_bytes_for_dims(dims as nat) <= usize::MAX,
            res is Some ==> res->0 == self.spec_bytes_for_dims(dims as nat),
    {
        match self {
            EmbeddingSubType::Float32 => if dims > usize::MAX / 4 {
                None
            } else {
                Some(dims * 4)
            },
            _ => Some(self.bytes_for_dims(dims)),
        }
    }
}

// ---------------------------------------------------------------------------
// Big integers in two's complement
// ---------------------------------------------------------------------------

/// 256 to the power `n`.
pub open spec fn pow256(n: nat) -> nat
    decreases n,
{
    if n == 0 {
        1
    } else {
        256 * pow256((n - 1) as nat)
    }
}

/// The natural number that big-endian bytes stand for.
pub open spec fn be_nat(bytes: Seq<u8>) -> nat
    decreases bytes.len(),
{
    if bytes.len() == 0 {
        0
    } else {
        be_nat(bytes.drop_last()) * 256 + bytes.last() as nat
    }
}

/// The integer that big-endian two's-complement bytes stand for.
pub open spec fn twos_complement(bytes: Seq<u8>) -> int {
    if bytes.len() > 0 && bytes[0] >= 128 {
        be_nat(bytes) - pow256(bytes.len())
    } else {
        be_nat(bytes) as int
    }
}

/// The bytes are the shortest two's-complement form of their integer: no
/// leading byte repeats the sign of the byte behind it.
pub open spec fn is_minimal_mantissa(bytes: Seq<u8>) -> bool {
    bytes.len() >= 2 ==> !(bytes[0] == 0x00 && bytes[1] < 128) && !(bytes[0] == 0xFF && bytes[1] >= 128)
}

/// Big-endian bytes stand for a number below 256 to the power of their count.
pub proof fn lemma_be_nat_bound(bytes: Seq<u8>)
    ensures
        be_nat(bytes) < pow256(bytes.len()),
    decreases bytes.len(),
{
    if bytes.len() > 0 {
        lemma_be_nat_bound(bytes.drop_last());
    }
}

/// Big-endian bytes stand for zero exactly when every byte is zero.
pub proof fn lemma_be_nat_zero(bytes: Seq<u8>)
    ensures
        be_nat(bytes) == 0 <==> (forall|i: int| 0 <= i < bytes.len() ==> bytes[i] == 0),
    decreases bytes.len(),
{
    if bytes.len() > 0 {
        let init = bytes.drop_last();
        lemma_be_nat_zero(init);
        if be_nat(bytes) == 0 {
            assert forall|i: int| 0 <= i < bytes.len() implies bytes[i] == 0 by {
                if i < init.len() {
                    assert(init[i] == bytes[i]);
                }
            }
        } else {
            if be_nat(init) != 0 {
                let i = choose|i: int| 0 <= i < init.len() && init[i] != 0;
                assert(bytes[i] == init[i]);
            }
        }
    }
}

/// The value of the first `n + 1` bytes, from that of the first `n`.
pub proof fn lemma_be_nat_step(bytes: Seq<u8>, n: int)
    requires
        0 <= n < bytes.len(),
    ensures
        be_nat(bytes.take(n + 1)) == be_nat(bytes.take(n)) * 256 + bytes[n],
{
    assert(bytes.take(n + 1).drop_last() =~= bytes.take(n));
}

// ---------------------------------------------------------------------------
// Decimal mantissa
// ---------------------------------------------------------------------------

/// Decimal mantissa representation.
///
/// Most decimals fit in an `i64`; larger values use big-endian two's
/// complement bytes of minimal length.
#[derive(Debug, Clone, PartialEq, Eq, Hash)]
pub enum DecimalMantissa {
    /// Mantissa fits in a signed 64-bit integer.
    I64(i64),
    /// Arbitrary precision: big-endian two's complement, minimal length.
    Big(Vec<u8>),
}

/// The view of a mantissa.
pub enum MantissaView {
    I64(i64),
    Big(Seq<u8>),
}

impl MantissaView {
    /// The integer that the mantissa stands for.
    pub open spec fn value(self) -> int {
        match self {
            MantissaView::I64(v) => v as int,
            MantissaView::Big(bytes) => twos_complement(bytes),
        }
    }
}

impl View for DecimalMantissa {
    type V = MantissaView;

    open spec fn view(&self) -> MantissaView {
        match self {
            DecimalMantissa::I64(v) => MantissaView::I64(*v),
            DecimalMantissa::Big(bytes) => MantissaView::Big(bytes@),
        }
    }
}

/// Checks whether a big-endian two's complement mantissa represents zero.
pub fn is_big_mantissa_zero(bytes: &[u8]) -> (res: bool)
    ensures
        res == (twos_complement(bytes@) == 0),
        res == (forall|i: int| 0 <= i < bytes@.len() ==> bytes@[i] == 0),
{
    proof {
        lemma_be_nat_zero(bytes@);
        lemma_be_nat_bound(bytes@);
    }
    let mut i: usize = 0;
    while i < bytes.len()
        invariant
            i <= bytes.len(),
            forall|j: int| 0 <= j < i ==> bytes@[j] == 0,
        decreases bytes.len() - i,
    {
        if bytes[i] != 0 {
            proof {
                lemma_be_nat_zero(bytes@);
                lemma_be_nat_bound(bytes@);
            }
            return false;
        }
        i = i + 1;
    }
    true
}

/// The remainder modulo ten of the number that big-endian bytes stand for.
///
/// Since 256 leaves 6 modulo ten, the remainder is carried from byte to byte
/// as `(r * 6 + byte) mod 10`.
fn be_mod_10(bytes: &[u8]) -> (res: u32)
    ensures
        res == be_nat(bytes@) % 10,
{
    let mut remainder: u32 = 0;
    let mut i: usize = 0;
    proof {
        assert(bytes@.take(0) =~= Seq::<u8>::empty());
    }
    while i < bytes.len()
        invariant
            i <= bytes.len(),
            remainder == be_nat(bytes@.take(i as int)) % 10,
        decreases bytes.len() - i,
    {
        proof {
            lemma_be_nat_step(bytes@, i as int);
        }
        remainder = (remainder * 6 + bytes[i] as u32) % 10;
        i = i + 1;
    }
    proof {
        assert(bytes@.take(bytes@.len() as int) =~= bytes@);
    }
    remainder
}

/// Computes `(-x) mod 10` for the number `x` that negative two's complement
/// bytes stand for: the bytes are inverted, reduced as above, and one is
/// added modulo ten.
pub fn twos_complement_abs_mod_10(bytes: &[u8]) -> (res: u32)
    ensures
        res == (pow256(bytes@.len()) - be_nat(bytes@)) % 10,
        bytes@.len() > 0 && bytes@[0] >= 128 ==> res == (-twos_complement(bytes@)) % 10,
{
    let mut remainder: u32 = 0;
    let mut i: usize = 0;
    proof {
        assert(bytes@.take(0) =~= Seq::<u8>::empty());
    }
    while i < bytes.len()
        invariant
            i <= bytes.len(),
            remainder == (pow256(i as nat) - 1 - be_nat(bytes@.take(i as int))) % 10,
        decreases bytes.len() - i,
    {
        proof {
            lemma_be_nat_step(bytes@, i as int);
            lemma_be_nat_bound(bytes@.take(i as int));
        }
        let inverted: u8 = 255 - bytes[i];
        remainder = (remainder * 6 + inverted as u32) % 10;
        i = i + 1;
    }
    proof {
        assert(bytes@.take(bytes@.len() as int) =~= bytes@);
        lemma_be_nat_bound(bytes@);
    }
    (remainder + 1) % 10
}

/// Checks whether a big-endian two's complement mantissa is divisible by ten.
pub fn is_big_mantissa_divisible_by_10(bytes: &[u8]) -> (res: bool)
    ensures
        res == (twos_complement(bytes@) % 10 == 0),
{
    if bytes.len() == 0 {
        return true;
    }
    if bytes[0] >= 128 {
        twos_complement_abs_mod_10(bytes) == 0
    } else {
        be_mod_10(bytes) == 0
    }
}

impl DecimalMantissa {
    /// Returns true if this is the zero mantissa.
    pub fn is_zero(&self) -> (res: bool)
        ensures
            res == (self@.value() == 0),
    {
        match self {
            DecimalMantissa::I64(v) => *v == 0,
            DecimalMantissa::Big(bytes) => is_big_mantissa_zero(bytes.as_slice()),
        }
    }

    /// Returns whether this mantissa has trailing decimal zeros: it is not
    /// zero and is divisible by ten, so the decimal is not normalized.
    pub fn has_trailing_zeros(&self) -> (res: bool)
        ensures
            res == (self@.value() != 0 && self@.value() % 10 == 0),
    {
        match self {
            DecimalMantissa::I64(v) => *v != 0 && i64_divisible_by_10(*v),
            DecimalMantissa::Big(bytes) => !is_big_mantissa_zero(bytes.as_slice())
                && is_big_mantissa_divisible_by_10(bytes.as_slice()),
        }
    }
}

/// Tells whether ten divides `v`.
pub fn i64_divisible_by_10(v: i64) -> (res: bool)
    ensures
        res == (v % 10 == 0),
{
    if v >= 0 {
        (v as u64) % 10 == 0
    } else {
        let m: u64 = (-(v + 1)) as u64;
        m % 10 == 9
    }
}

/// A decimal is normalized: zero has exponent zero, and ten does not divide
/// a mantissa that is not zero.
pub open spec fn decimal_normalized(exponent: i32, mantissa: MantissaView) -> bool {
    if mantissa.value() == 0 {
        exponent == 0
    } else {
        mantissa.value() % 10 != 0
    }
}

/// Tells whether a decimal is normalized.
pub fn is_decimal_normalized(exponent: i32, mantissa: &DecimalMantissa) -> (res: bool)
    ensures
        res == decimal_normalized(exponent, mantissa@),
{
    if mantissa.is_zero() {
        exponent == 0
    } else {
        !mantissa.has_trailing_zeros()
    }
}


// ---------------------------------------------------------------------------
// Values
// ---------------------------------------------------------------------------

/// A typed value that can be stored on an entity or relation.
///
/// Floating-point payloads are held as IEEE-754 bit patterns.
#[derive(Debug, Clone, PartialEq)]
pub enum Value {
    /// Boolean value.
    Bool(bool),
    /// 64-bit signed integer.
    Int64(i64),
    /// 64-bit IEEE 754 float as its bit pattern (NaN not allowed).
    Float64(u64),
    /// Arbitrary-precision decimal: value = mantissa * 10^exponent.
    Decimal { exponent: i32, mantissa: DecimalMantissa },
    /// UTF-8 text with optional language; `None` is the default language.
    Text { value: String, language: Option<Id> },
    /// Opaque byte array.
    Bytes(Vec<u8>),
    /// Microseconds since Unix epoch.
    Timestamp(i64),
    /// ISO 8601 calendar date string (variable precision).
    Date(String),
    /// WGS84 geographic coordinate: latitude in [-90, 90], longitude in
    /// [-180, 180], optional altitude; each a binary64 bit pattern.
    Point { lat: u64, lon: u64, alt: Option<u64> },
    /// Dense vector for semantic similarity search; `data` holds the raw
    /// bytes in the format that `sub_type` names.
    Embedding { sub_type: EmbeddingSubType, dims: usize, data: Vec<u8> },
    /// Non-traversable object reference.
    Ref(Id),
}

/// The view of a value.
pub enum ValueView {
    Bool(bool),
    Int64(i64),
    Float64(u64),
    Decimal { exponent: i32, mantissa: MantissaView },
    Text { value: Seq<char>, language: Option<Seq<u8>> },
    Bytes(Seq<u8>),
    Timestamp(i64),
    Date(Seq<char>),
    Point { lat: u64, lon: u64, alt: Option<u64> },
    Embedding { sub_type: EmbeddingSubType, dims: usize, data: Seq<u8> },
    Ref(Seq<u8>),
}

impl View for Value {
    type V = ValueView;

    open spec fn view(&self) -> ValueView {
        match self {
            Value::Bool(b) => ValueView::Bool(*b),
            Value::Int64(n) => ValueView::Int64(*n),
            Value::Float64(bits) => ValueView::Float64(*bits),
            Value::Decimal { exponent, mantissa } => ValueView::Decimal {
                exponent: *exponent,
                mantissa: mantissa@,
            },
            Value::Text { value, language } => ValueView::Text {
                value: value@,
                language: opt_id_view(*language),
            },
            Value::Bytes(bytes) => ValueView::Bytes(bytes@),
            Value::Timestamp(n) => ValueView::Timestamp(*n),
            Value::Date(s) => ValueView::Date(s@),
            Value::Point { lat, lon, alt } => ValueView::Point { lat: *lat, lon: *lon, alt: *alt },
            Value::Embedding { sub_type, dims, data } => ValueView::Embedding {
                sub_type: *sub_type,
                dims: *dims,
                data: data@,
            },
            Value::Ref(id) => ValueView::Ref(id@),
        }
    }
}

impl ValueView {
    /// The data type of the value.
    pub open spec fn data_type(self) -> DataType {
        match self {
            ValueView::Bool(_) => DataType::Bool,
            ValueView::Int64(_) => DataType::Int64,
            ValueView::Float64(_) => DataType::Float64,
            ValueView::Decimal { .. } => DataType::Decimal,
            ValueView::Text { .. } => DataType::Text,
            ValueView::Bytes(_) => DataType::Bytes,
            ValueView::Timestamp(_) => DataType::Timestamp,
            ValueView::Date(_) => DataType::Date,
            ValueView::Point { .. } => DataType::Point,
            ValueView::Embedding { .. } => DataType::Embedding,
            ValueView::Ref(_) => DataType::Ref,
        }
    }

    /// What `Value::validate` reports: the first rule that the value breaks,
    /// or nothing.
    pub open spec fn validation(self) -> Option<&'static str> {
        match self {
            ValueView::Float64(bits) => if double_is_nan(bits) {
                Some("NaN is not allowed in Float64")
            } else {
                None
            },
            ValueView::Decimal { exponent, mantissa } => if mantissa.value() == 0 && exponent != 0 {
                Some("zero DECIMAL must have exponent 0")
            } else if mantissa.value() != 0 && mantissa.value() % 10 == 0 {
                Some("DECIMAL mantissa has trailing zeros (not normalized)")
            } else {
                None
            },
            ValueView::Point { lat, lon, alt } => if double_exceeds(lat, DOUBLE_90) {
                Some("latitude out of range [-90, +90]")
            } else if double_exceeds(lon, DOUBLE_180) {
                Some("longitude out of range [-180, +180]")
            } else if double_is_nan(lat) || double_is_nan(lon) || (alt is Some && double_is_nan(alt->0)) {
                Some("NaN is not allowed in Point coordinates")
            } else {
                None
            },
            ValueView::Embedding { sub_type, dims, data } => if data.len() != sub_type.spec_bytes_for_dims(
                dims as nat,
            ) {
                Some("embedding data length doesn't match dims")
            } else if sub_type == EmbeddingSubType::Float32 && singles_have_nan(data) {
                Some("NaN is not allowed in float32 embedding")
            } else {
                None
            },
            _ => None,
        }
    }
}

impl Value {
    /// Returns the data type of this value.
    pub fn data_type(&self) -> (res: DataType)
        ensures
            res == self@.data_type(),
    {
        match self {
            Value::Bool(_) => DataType::Bool,
            Value::Int64(_) => DataType::Int64,
            Value::Float64(_) => DataType::Float64,
            Value::Decimal { .. } => DataType::Decimal,
            Value::Text { .. } => DataType::Text,
            Value::Bytes(_) => DataType::Bytes,
            Value::Timestamp(_) => DataType::Timestamp,
            Value::Date(_) => DataType::Date,
            Value::Point { .. } => DataType::Point,
            Value::Embedding { .. } => DataType::Embedding,
            Value::Ref(_) => DataType::Ref,
        }
    }

    /// Validates this value against the rules that hold of every value,
    /// whatever the schema: no NaN, coordinates in range, decimals
    /// normalized, embedding data as long as its dimensions ask.
    ///
    /// Returns a description of the first broken rule, `None` if valid.
    pub fn validate(&self) -> (res: Option<&'static str>)
        ensures
            res == self@.validation(),
    {
        match self {
            Value::Float64(bits) => {
                if is_nan_bits(*bits) {
                    return Some("NaN is not allowed in Float64");
                }
            },
            Value::Decimal { exponent, mantissa } => {
                if mantissa.is_zero() && *exponent != 0 {
                    return Some("zero DECIMAL must have exponent 0");
                }
                if !mantissa.is_zero() && mantissa.has_trailing_zeros() {
                    return Some("DECIMAL mantissa has trailing zeros (not normalized)");
                }
            },
            Value::Point { lat, lon, alt } => {
                if exceeds_bits(*lat, DOUBLE_90) {
                    return Some("latitude out of range [-90, +90]");
                }
                if exceeds_bits(*lon, DOUBLE_180) {
                    return Some("longitude out of range [-180, +180]");
                }
                if is_nan_bits(*lat) || is_nan_bits(*lon) {
                    return Some("NaN is not allowed in Point coordinates");
                }
                if let Some(a) = alt {
                    if is_nan_bits(*a) {
                        return Some("NaN is not allowed in Point coordinates");
                    }
                }
            },
            Value::Embedding { sub_type, dims, data } => {
                match sub_type.checked_bytes_for_dims(*dims) {
                    Some(expected) => {
                        if data.len() != expected {
                            return Some("embedding data length doesn't match dims");
                        }
                    },
                    None => {
                        let len: usize = data.len();
                        assert(len != sub_type.spec_bytes_for_dims(*dims as nat));
                        return Some("embedding data length doesn't match dims");
                    },
                }
                if *sub_type == EmbeddingSubType::Float32 {
                    if has_nan_single(data.as_slice()) {
                        return Some("NaN is not allowed in float32 embedding");
                    }
                }
            },
            _ => {},
        }
        None
    }
}

/// A property-value pair that can be attached to an object.
#[derive(Debug, Clone, PartialEq)]
pub struct PropertyValue {
    /// The property this value is for.
    pub property: Id,
    /// The value.
    pub value: Value,
}

/// The view of a property-value pair.
pub struct PropertyValueView {
    pub property: Seq<u8>,
    pub value: ValueView,
}

impl View for PropertyValue {
    type V = PropertyValueView;

    open spec fn view(&self) -> PropertyValueView {
        PropertyValueView { property: self.property@, value: self.value@ }
    }
}

/// The views of a list of property-value pairs.
pub open spec fn property_values_view(values: Seq<PropertyValue>) -> Seq<PropertyValueView> {
    Seq::new(values.len(), |i: int| values[i]@)
}

/// A property definition in the schema.
#[derive(Debug, Clone, PartialEq, Eq)]
pub struct Property {
    /// The property's unique identifier.
    pub id: Id,
    /// The data type for values of this property.
    pub data_type: DataType,
}

} // verus!
