//! Wire format of property values.
//!
//! Every data type has a payload grammar with canonicalisation rules that the
//! encoder and the decoder both enforce: no NaN, coordinates in range,
//! decimals normalized with minimal mantissas, calendar dates well formed,
//! embedding data as long as its dimensions ask.

use vstd::prelude::*;
use vstd::slice::slice_subrange;
use vstd::slice::slice_to_vec;
use vstd::utf8::encode_utf8;
use vstd::bytes::spec_u64_to_le_bytes;
use crate::codec::primitives::Reader;
use crate::codec::primitives::Writer;
use crate::codec::primitives::Parsed;
use crate::codec::primitives::parsed_view;
use crate::codec::primitives::spec_read_byte;
use crate::codec::primitives::spec_read_bytes;
use crate::codec::primitives::spec_read_varint;
use crate::codec::primitives::spec_read_signed_varint;
use crate::codec::primitives::spec_read_u64_le;
use crate::codec::primitives::spec_read_prefixed;
use crate::codec::primitives::spec_read_string;
use crate::codec::primitives::varint_bytes;
use crate::codec::primitives::signed_varint_bytes;
use crate::codec::primitives::prefixed_bytes;
use crate::codec::primitives::string_bytes;
use crate::error::DecodeError;
use crate::error::EncodeError;
use crate::limits::MAX_BYTES_LEN;
use crate::limits::MAX_EMBEDDING_BYTES;
use crate::limits::MAX_EMBEDDING_DIMS;
use crate::limits::MAX_POSITION_LEN;
use crate::limits::MAX_STRING_LEN;
use crate::model::edit::DictView;
use crate::model::edit::DictionaryBuilder;
use crate::model::edit::WireDictionaries;
use crate::model::id::Id;
use crate::model::ieee::double_is_nan;
use crate::model::ieee::double_exceeds;
use crate::model::ieee::double_normalized;
use crate::model::ieee::singles_have_nan;
use crate::model::ieee::is_nan_bits;
use crate::model::ieee::exceeds_bits;
use crate::model::ieee::normalize_zero_bits;
use crate::model::ieee::has_nan_single;
use crate::model::ieee::DOUBLE_90;
use crate::model::ieee::DOUBLE_180;
use crate::model::op::first_bad_position_char;
use crate::model::op::find_bad_position_char;
use crate::model::value::DataType;
use crate::model::value::DecimalMantissa;
use crate::model::value::EmbeddingSubType;
use crate::model::value::MantissaView;
use crate::model::value::PropertyValue;
use crate::model::value::PropertyValueView;
use crate::model::value::Value;
use crate::model::value::ValueView;
use crate::model::value::decimal_normalized;
use crate::model::value::is_decimal_normalized;
use crate::model::value::is_minimal_mantissa;

verus! {

// ---------------------------------------------------------------------------
// Calendar dates
// ---------------------------------------------------------------------------

/// The index of the first `-` at or behind `from`, or the length of `b`.
pub open spec fn first_dash_from(b: Seq<u8>, from: int) -> int
    decreases b.len() - from,
{
    if from < 0 || from >= b.len() {
        b.len() as int
    } else if b[from] == 0x2D {
        from
    } else {
        first_dash_from(b, from + 1)
    }
}

/// Every byte is an ASCII digit.
pub open spec fn all_digits(b: Seq<u8>) -> bool {
    forall|i: int| 0 <= i < b.len() ==> 0x30 <= #[trigger] b[i] <= 0x39
}

/// Every byte is the digit zero.
pub open spec fn all_zeros(b: Seq<u8>) -> bool {
    forall|i: int| 0 <= i < b.len() ==> #[trigger] b[i] == 0x30
}

/// The year part: at least four digits, and not zero in a BCE date.
pub open spec fn year_check(year: Seq<u8>, is_bce: bool) -> Result<(), &'static str> {
    if year.len() < 4 {
        Err("DATE year must be at least 4 digits")
    } else if !all_digits(year) {
        Err("DATE year contains non-digit characters")
    } else if is_bce && all_zeros(year) {
        Err("DATE -0000 is invalid (use 0000 for 1 BCE)")
    } else {
        Ok(())
    }
}

/// The number that two ASCII digits stand for.
pub open spec fn two_digits(part: Seq<u8>) -> int {
    10 * (part[0] - 0x30) + (part[1] - 0x30)
}

/// The month part: two digits from 01 to 12. Yields the month.
pub open spec fn month_check(month: Seq<u8>) -> Result<int, &'static str> {
    if month.len() != 2 {
        Err("DATE month must be 2 digits")
    } else if !all_digits(month) {
        Err("DATE month is not a valid number")
    } else if !(1 <= two_digits(month) <= 12) {
        Err("DATE month out of range (must be 01-12)")
    } else {
        Ok(two_digits(month))
    }
}

/// The last day of a month; February has 29, whatever the year.
pub open spec fn max_day(month: int) -> int {
    if month == 4 || month == 6 || month == 9 || month == 11 {
        30
    } else if month == 2 {
        29
    } else {
        31
    }
}

/// The day part: two digits from 01 to the last day of the month.
pub open spec fn day_check(day: Seq<u8>, month: int) -> Result<(), &'static str> {
    if day.len() != 2 {
        Err("DATE day must be 2 digits")
    } else if !all_digits(day) {
        Err("DATE day is not a valid number")
    } else if !(1 <= two_digits(day) <= max_day(month)) {
        Err("DATE day out of range")
    } else {
        Ok(())
    }
}

/// An ISO 8601 calendar date in UTF-8: an optional `-` for BCE, then a year,
/// a year and a month, or a year, a month and a day, separated by `-`.
/// Yields the reason for which the bytes are no such date.
pub open spec fn date_check(b: Seq<u8>) -> Result<(), &'static str> {
    if b.len() == 0 {
        Err("DATE string is empty")
    } else {
        let is_bce = b[0] == 0x2D;
        let start: int = if is_bce {
            1
        } else {
            0
        };
        let d1 = first_dash_from(b, start);
        let year = b.subrange(start, d1);
        if d1 == b.len() {
            year_check(year, is_bce)
        } else {
            let d2 = first_dash_from(b, d1 + 1);
            let month = b.subrange(d1 + 1, d2);
            if d2 == b.len() {
                match year_check(year, is_bce) {
                    Err(e) => Err(e),
                    Ok(_) => match month_check(month) {
                        Err(e) => Err(e),
                        Ok(_) => Ok(()),
                    },
                }
            } else {
                let d3 = first_dash_from(b, d2 + 1);
                let day = b.subrange(d2 + 1, b.len() as int);
                if d3 == b.len() {
                    match year_check(year, is_bce) {
                        Err(e) => Err(e),
                        Ok(_) => match month_check(month) {
                            Err(e) => Err(e),
                            Ok(m) => day_check(day, m),
                        },
                    }
                } else {
                    Err("DATE has too many components")
                }
            }
        }
    }
}

/// A string is a calendar date.
pub open spec fn date_valid(s: Seq<char>) -> bool {
    date_check(encode_utf8(s)) is Ok
}

/// The decoder's report of a failed date check.
pub open spec fn date_decode_result(check: Result<(), &'static str>) -> Result<(), DecodeError> {
    match check {
        Ok(_) => Ok(()),
        Err(reason) => Err(DecodeError::MalformedEncoding { context: reason }),
    }
}

/// Finds the first `-` at or behind `from`.
fn find_dash(b: &[u8], from: usize) -> (at: usize)
    requires
        from <= b@.len(),
    ensures
        at == first_dash_from(b@, from as int),
        from <= at <= b@.len(),
{
    let mut i: usize = from;
    while i < b.len()
        invariant
            from <= i <= b@.len(),
            first_dash_from(b@, from as int) == first_dash_from(b@, i as int),
        decreases b.len() - i,
    {
        if b[i] == 0x2D {
            return i;
        }
        i = i + 1;
    }
    i
}

/// Tells whether every byte is an ASCII digit.
fn is_all_digits(b: &[u8]) -> (res: bool)
    ensures
        res == all_digits(b@),
{
    let mut i: usize = 0;
    while i < b.len()
        invariant
            i <= b@.len(),
            forall|j: int| 0 <= j < i ==> 0x30 <= #[trigger] b@[j] <= 0x39,
        decreases b.len() - i,
    {
        if b[i] < 0x30 || b[i] > 0x39 {
            return false;
        }
        i = i + 1;
    }
    true
}

/// Tells whether every byte is the digit zero.
fn is_all_zeros(b: &[u8]) -> (res: bool)
    ensures
        res == all_zeros(b@),
{
    let mut i: usize = 0;
    while i < b.len()
        invariant
            i <= b@.len(),
            forall|j: int| 0 <= j < i ==> #[trigger] b@[j] == 0x30,
        decreases b.len() - i,
    {
        if b[i] != 0x30 {
            return false;
        }
        i = i + 1;
    }
    true
}

/// Validates the year part of a date.
pub fn validate_year_part(s: &[u8], is_bce: bool) -> (res: Result<(), DecodeError>)
    ensures
        res == date_decode_result(year_check(s@, is_bce)),
{
    if s.len() < 4 {
        return Err(DecodeError::MalformedEncoding { context: "DATE year must be at least 4 digits" });
    }
    if !is_all_digits(s) {
        return Err(DecodeError::MalformedEncoding { context: "DATE year contains non-digit characters" });
    }
    if is_bce && is_all_zeros(s) {
        return Err(
            DecodeError::MalformedEncoding { context: "DATE -0000 is invalid (use 0000 for 1 BCE)" },
        );
    }
    Ok(())
}

/// Validates the month part of a date and returns the month.
pub fn validate_month_part(s: &[u8]) -> (res: Result<u32, DecodeError>)
    ensures
        match month_check(s@) {
            Ok(m) => res == Ok::<u32, DecodeError>(m as u32) && 1 <= m <= 12,
            Err(reason) => res == Err::<u32, DecodeError>(DecodeError::MalformedEncoding { context: reason }),
        },
{
    if s.len() != 2 {
        return Err(DecodeError::MalformedEncoding { context: "DATE month must be 2 digits" });
    }
    if !is_all_digits(s) {
        return Err(DecodeError::MalformedEncoding { context: "DATE month is not a valid number" });
    }
    let month: u32 = 10 * ((s[0] - 0x30) as u32) + ((s[1] - 0x30) as u32);
    if month < 1 || month > 12 {
        return Err(DecodeError::MalformedEncoding { context: "DATE month out of range (must be 01-12)" });
    }
    Ok(month)
}

/// Validates the day part of a date against the length of its month and
/// returns the day.
pub fn validate_day_part(s: &[u8], month: u32) -> (res: Result<u32, DecodeError>)
    ensures
        match day_check(s@, month as int) {
            Ok(_) => res == Ok::<u32, DecodeError>(two_digits(s@) as u32),
            Err(reason) => res == Err::<u32, DecodeError>(DecodeError::MalformedEncoding { context: reason }),
        },
{
    if s.len() != 2 {
        return Err(DecodeError::MalformedEncoding { context: "DATE day must be 2 digits" });
    }
    if !is_all_digits(s) {
        return Err(DecodeError::MalformedEncoding { context: "DATE day is not a valid number" });
    }
    let day: u32 = 10 * ((s[0] - 0x30) as u32) + ((s[1] - 0x30) as u32);
    let max: u32 = if month == 4 || month == 6 || month == 9 || month == 11 {
        30
    } else if month == 2 {
        29
    } else {
        31
    };
    if day == 0 || day > max {
        return Err(DecodeError::MalformedEncoding { context: "DATE day out of range" });
    }
    Ok(day)
}

/// Validates the UTF-8 bytes of an ISO 8601 calendar date.
#[verifier::rlimit(50)]
pub fn validate_date_bytes(b: &[u8]) -> (res: Result<(), DecodeError>)
    ensures
        res == date_decode_result(date_check(b@)),
{
    if b.len() == 0 {
        return Err(DecodeError::MalformedEncoding { context: "DATE string is empty" });
    }
    let is_bce: bool = b[0] == 0x2D;
    let start: usize = if is_bce {
        1
    } else {
        0
    };
    let d1: usize = find_dash(b, start);
    let year = slice_subrange(b, start, d1);
    if d1 == b.len() {
        return validate_year_part(year, is_bce);
    }
    let d2: usize = find_dash(b, d1 + 1);
    let month_part = slice_subrange(b, d1 + 1, d2);
    if d2 == b.len() {
        validate_year_part(year, is_bce)?;
        validate_month_part(month_part)?;
        return Ok(());
    }
    let d3: usize = find_dash(b, d2 + 1);
    if d3 != b.len() {
        return Err(DecodeError::MalformedEncoding { context: "DATE has too many components" });
    }
    let day_part = slice_subrange(b, d2 + 1, b.len());
    validate_year_part(year, is_bce)?;
    let month: u32 = validate_month_part(month_part)?;
    validate_day_part(day_part, month)?;
    Ok(())
}

/// Validates an ISO 8601 calendar date string.
///
/// Accepts a year (`2024`, or `-0100` for BCE), a year and a month
/// (`2024-03`), or a full date (`2024-03-15`).
pub fn validate_iso8601_date(s: &str) -> (res: Result<(), DecodeError>)
    ensures
        res == date_decode_result(date_check(encode_utf8(s@))),
        res is Ok <==> date_valid(s@),
{
    validate_date_bytes(s.as_bytes())
}

/// The encoder's report of a failed date check.
pub open spec fn date_encode_result(check: Result<(), &'static str>) -> Result<(), EncodeError> {
    match check {
        Ok(_) => Ok(()),
        Err(reason) => Err(EncodeError::InvalidDate { reason }),
    }
}

/// Validates an ISO 8601 date string for encoding.
pub fn validate_iso8601_date_for_encode(s: &str) -> (res: Result<(), EncodeError>)
    ensures
        res == date_encode_result(date_check(encode_utf8(s@))),
        res is Ok <==> date_valid(s@),
{
    match validate_iso8601_date(s) {
        Ok(_) => Ok(()),
        Err(e) => {
            let reason: &'static str = match e {
                DecodeError::MalformedEncoding { context } => context,
                _ => "invalid format",
            };
            Err(EncodeError::InvalidDate { reason })
        },
    }
}


// ---------------------------------------------------------------------------
// What the encoder accepts
// ---------------------------------------------------------------------------

/// Two to the power `k`, for the bit positions of a byte.
pub open spec fn bit_weight(k: nat) -> nat {
    if k == 0 {
        1
    } else if k == 1 {
        2
    } else if k == 2 {
        4
    } else if k == 3 {
        8
    } else if k == 4 {
        16
    } else if k == 5 {
        32
    } else if k == 6 {
        64
    } else if k == 7 {
        128
    } else {
        256
    }
}

/// In a bit-packed embedding whose dimensions do not fill the last byte, the
/// bits of that byte above the last dimension are zero.
pub open spec fn binary_tail_clear(dims: nat, data: Seq<u8>) -> bool {
    dims % 8 != 0 && data.len() > 0 ==> data.last() < bit_weight(dims % 8)
}

/// Tells whether the unused bits of a bit-packed embedding are zero.
pub fn is_binary_tail_clear(dims: usize, data: &[u8]) -> (res: bool)
    ensures
        res == binary_tail_clear(dims as nat, data@),
{
    let used: usize = dims % 8;
    if used == 0 || data.len() == 0 {
        return true;
    }
    let limit: u8 = if used == 1 {
        2
    } else if used == 2 {
        4
    } else if used == 3 {
        8
    } else if used == 4 {
        16
    } else if used == 5 {
        32
    } else if used == 6 {
        64
    } else {
        128
    };
    data[data.len() - 1] < limit
}

/// What the encoder checks of a decimal.
pub open spec fn spec_check_decimal(exponent: i32, mantissa: MantissaView) -> Result<(), EncodeError> {
    if decimal_normalized(exponent, mantissa) {
        Ok(())
    } else {
        Err(EncodeError::DecimalNotNormalized)
    }
}

/// What the encoder checks of a value before it writes anything: the first
/// rule that the value breaks, in the order of the checks.
pub open spec fn spec_check_value(v: ValueView) -> Result<(), EncodeError> {
    match v {
        ValueView::Float64(bits) => if double_is_nan(bits) {
            Err(EncodeError::FloatIsNan)
        } else {
            Ok(())
        },
        ValueView::Decimal { exponent, mantissa } => spec_check_decimal(exponent, mantissa),
        ValueView::Date(s) => date_encode_result(date_check(encode_utf8(s))),
        ValueView::Point { lat, lon, alt } => if double_exceeds(lon, DOUBLE_180) {
            Err(EncodeError::LongitudeOutOfRange)
        } else if double_exceeds(lat, DOUBLE_90) {
            Err(EncodeError::LatitudeOutOfRange)
        } else if double_is_nan(lat) || double_is_nan(lon) {
            Err(EncodeError::FloatIsNan)
        } else if alt is Some && double_is_nan(alt->0) {
            Err(EncodeError::FloatIsNan)
        } else {
            Ok(())
        },
        ValueView::Embedding { sub_type, dims, data } => if data.len() != sub_type.spec_bytes_for_dims(
            dims as nat,
        ) {
            Err(
                EncodeError::EmbeddingDimensionMismatch {
                    sub_type: sub_type.spec_code(),
                    dims,
                    data_len: data.len() as usize,
                },
            )
        } else if sub_type == EmbeddingSubType::Float32 && singles_have_nan(data) {
            Err(EncodeError::FloatIsNan)
        } else if sub_type == EmbeddingSubType::Binary && !binary_tail_clear(dims as nat, data) {
            Err(
                EncodeError::EmbeddingDimensionMismatch {
                    sub_type: sub_type.spec_code(),
                    dims,
                    data_len: data.len() as usize,
                },
            )
        } else {
            Ok(())
        },
        _ => Ok(()),
    }
}

/// Checks a value as the encoder does, without writing anything.
#[verifier::rlimit(50)]
pub fn check_value(value: &Value) -> (res: Result<(), EncodeError>)
    ensures
        res == spec_check_value(value@),
{
    match value {
        Value::Float64(bits) => {
            if is_nan_bits(*bits) {
                return Err(EncodeError::FloatIsNan);
            }
        },
        Value::Decimal { exponent, mantissa } => {
            if !is_decimal_normalized(*exponent, mantissa) {
                return Err(EncodeError::DecimalNotNormalized);
            }
        },
        Value::Date(s) => {
            return validate_iso8601_date_for_encode(s.as_str());
        },
        Value::Point { lat, lon, alt } => {
            if exceeds_bits(*lon, DOUBLE_180) {
                return Err(EncodeError::LongitudeOutOfRange);
            }
            if exceeds_bits(*lat, DOUBLE_90) {
                return Err(EncodeError::LatitudeOutOfRange);
            }
            if is_nan_bits(*lat) || is_nan_bits(*lon) {
                return Err(EncodeError::FloatIsNan);
            }
            if let Some(a) = alt {
                if is_nan_bits(*a) {
                    return Err(EncodeError::FloatIsNan);
                }
            }
        },
        Value::Embedding { sub_type, dims, data } => {
            let data_len: usize = data.len();
            let fits: bool = match sub_type.checked_bytes_for_dims(*dims) {
                Some(expected) => data_len == expected,
                None => false,
            };
            if !fits {
                return Err(
                    EncodeError::EmbeddingDimensionMismatch { sub_type: sub_type.code(), dims: *dims, data_len },
                );
            }
            if *sub_type == EmbeddingSubType::Float32 {
                if has_nan_single(data.as_slice()) {
                    return Err(EncodeError::FloatIsNan);
                }
            }
            if *sub_type == EmbeddingSubType::Binary {
                if !is_binary_tail_clear(*dims, data.as_slice()) {
                    return Err(
                        EncodeError::EmbeddingDimensionMismatch {
                            sub_type: sub_type.code(),
                            dims: *dims,
                            data_len,
                        },
                    );
                }
            }
        },
        _ => {},
    }
    Ok(())
}

// ---------------------------------------------------------------------------
// Encoding
// ---------------------------------------------------------------------------

/// The payload of a decimal: the exponent, a mantissa tag, and the mantissa
/// as a signed varint (tag 0) or as length-prefixed bytes (tag 1).
pub open spec fn decimal_bytes(exponent: i32, mantissa: MantissaView) -> Seq<u8> {
    signed_varint_bytes(exponent as i64) + (match mantissa {
        MantissaView::I64(v) => seq![0x00u8] + signed_varint_bytes(v),
        MantissaView::Big(bytes) => seq![0x01u8] + prefixed_bytes(bytes),
    })
}

/// The payload of a point: the ordinate count, then longitude, latitude and,
/// if the count is 3, altitude.
pub open spec fn point_bytes(lat: u64, lon: u64, alt: Option<u64>) -> Seq<u8> {
    match alt {
        Some(a) => seq![3u8] + spec_u64_to_le_bytes(lon) + spec_u64_to_le_bytes(lat) + spec_u64_to_le_bytes(a),
        None => seq![2u8] + spec_u64_to_le_bytes(lon) + spec_u64_to_le_bytes(lat),
    }
}

/// The payload of a value, with indices taken from the dictionaries `d`.
pub open spec fn value_bytes(v: ValueView, d: DictView) -> Seq<u8> {
    match v {
        ValueView::Bool(b) => seq![if b {
            0x01u8
        } else {
            0x00u8
        }],
        ValueView::Int64(n) => signed_varint_bytes(n),
        ValueView::Float64(bits) => spec_u64_to_le_bytes(double_normalized(bits)),
        ValueView::Decimal { exponent, mantissa } => decimal_bytes(exponent, mantissa),
        ValueView::Text { value, language } => string_bytes(value) + varint_bytes(
            d.language_index(language) as nat,
        ),
        ValueView::Bytes(bytes) => prefixed_bytes(bytes),
        ValueView::Timestamp(n) => signed_varint_bytes(n),
        ValueView::Date(s) => string_bytes(s),
        ValueView::Point { lat, lon, alt } => point_bytes(lat, lon, alt),
        ValueView::Embedding { sub_type, dims, data } => seq![sub_type.spec_code()] + varint_bytes(dims as nat)
            + data,
        ValueView::Ref(id) => varint_bytes(d.objects.index_of(id) as nat),
    }
}

/// The dictionaries after the identifiers of a value were added.
pub open spec fn intern_value(d: DictView, v: ValueView) -> DictView {
    match v {
        ValueView::Text { value, language } => d.add_language(language),
        ValueView::Ref(id) => d.add_object(id),
        _ => d,
    }
}

/// Writes the payload of a decimal that is normalized.
fn write_decimal(writer: &mut Writer, exponent: i32, mantissa: &DecimalMantissa)
    ensures
        final(writer)@ == old(writer)@ + decimal_bytes(exponent, mantissa@),
{
    writer.write_signed_varint(exponent as i64);
    let ghost mid = writer@;
    match mantissa {
        DecimalMantissa::I64(v) => {
            writer.write_byte(0x00);
            writer.write_signed_varint(*v);
            proof {
                assert(writer@ =~= mid + (seq![0x00u8] + signed_varint_bytes(*v)));
            }
        },
        DecimalMantissa::Big(bytes) => {
            writer.write_byte(0x01);
            writer.write_bytes_prefixed(bytes.as_slice());
            proof {
                assert(writer@ =~= mid + (seq![0x01u8] + prefixed_bytes(bytes@)));
            }
        },
    }
    proof {
        assert(writer@ =~= old(writer)@ + decimal_bytes(exponent, mantissa@));
    }
}

/// Encodes a decimal: checks that it is normalized, then writes its payload.
/// Writes nothing where the check fails.
pub fn encode_decimal(writer: &mut Writer, exponent: i32, mantissa: &DecimalMantissa) -> (res: Result<
    (),
    EncodeError,
>)
    ensures
        res == spec_check_decimal(exponent, mantissa@),
        res is Ok ==> final(writer)@ == old(writer)@ + decimal_bytes(exponent, mantissa@),
        res is Err ==> final(writer)@ == old(writer)@,
{
    if !is_decimal_normalized(exponent, mantissa) {
        return Err(EncodeError::DecimalNotNormalized);
    }
    write_decimal(writer, exponent, mantissa);
    Ok(())
}

/// Adds the identifiers of a value to the dictionaries.
#[verifier::rlimit(50)]
pub fn intern_value_ids(value: &Value, dict_builder: &mut DictionaryBuilder)
    ensures
        final(dict_builder)@ == intern_value(old(dict_builder)@, value@),
        value_resolves(value@, final(dict_builder)@),
{
    match value {
        Value::Text { value: _, language } => {
            let _ = dict_builder.add_language(*language);
            proof {
                if language is Some {
                    assert(dict_builder@.languages.contains(language->0@)) by {
                        let l = old(dict_builder)@.languages;
                        if !l.contains(language->0@) {
                            assert(l.push(language->0@)[l.len() as int] == language->0@);
                        }
                    }
                }
            }
        },
        Value::Ref(id) => {
            let _ = dict_builder.add_object(*id);
            proof {
                let l = old(dict_builder)@.objects;
                if !l.contains(id@) {
                    assert(l.push(id@)[l.len() as int] == id@);
                }
            }
        },
        _ => {},
    }
}

/// Writes the payload of a value whose identifiers the dictionaries hold.
#[verifier::rlimit(50)]
pub(crate) fn put_value(writer: &mut Writer, value: &Value, dicts: &DictionaryBuilder)
    requires
        value_resolves(value@, dicts@),
    ensures
        final(writer)@ == old(writer)@ + value_bytes(value@, dicts@),
{
    match value {
        Value::Bool(v) => {
            writer.write_byte(if *v {
                0x01
            } else {
                0x00
            });
            proof {
                assert(writer@ =~= old(writer)@ + value_bytes(value@, dicts@));
            }
        },
        Value::Int64(n) => {
            writer.write_signed_varint(*n);
        },
        Value::Float64(bits) => {
            writer.write_u64_le(normalize_zero_bits(*bits));
        },
        Value::Decimal { exponent, mantissa } => {
            write_decimal(writer, *exponent, mantissa);
        },
        Value::Text { value: text, language } => {
            writer.write_string(text.as_str());
            let lang_index: usize = match dicts.find_language(language) {
                Some(i) => i,
                None => 0,
            };
            writer.write_varint(lang_index as u64);
            proof {
                assert(writer@ =~= old(writer)@ + value_bytes(value@, dicts@));
            }
        },
        Value::Bytes(bytes) => {
            writer.write_bytes_prefixed(bytes.as_slice());
        },
        Value::Timestamp(n) => {
            writer.write_signed_varint(*n);
        },
        Value::Date(s) => {
            writer.write_string(s.as_str());
        },
        Value::Point { lat, lon, alt } => {
            match alt {
                Some(a) => {
                    writer.write_byte(3);
                    writer.write_u64_le(*lon);
                    writer.write_u64_le(*lat);
                    writer.write_u64_le(*a);
                },
                None => {
                    writer.write_byte(2);
                    writer.write_u64_le(*lon);
                    writer.write_u64_le(*lat);
                },
            }
            proof {
                assert(writer@ =~= old(writer)@ + point_bytes(*lat, *lon, *alt));
            }
        },
        Value::Embedding { sub_type, dims, data } => {
            writer.write_byte(sub_type.code());
            writer.write_varint(*dims as u64);
            writer.write_bytes(data.as_slice());
            proof {
                assert(writer@ =~= old(writer)@ + value_bytes(value@, dicts@));
            }
        },
        Value::Ref(id) => {
            let index: usize = match dicts.find_object(id) {
                Some(i) => i,
                None => 0,
            };
            writer.write_varint(index as u64);
        },
    }
}

/// Encodes a value to the writer.
///
/// The value is checked first; where the check fails nothing is written and
/// the dictionaries stay as they were. Otherwise the identifiers of the value
/// are added to the dictionaries and the payload is written with their
/// indices.
pub fn encode_value(writer: &mut Writer, value: &Value, dict_builder: &mut DictionaryBuilder) -> (res: Result<
    (),
    EncodeError,
>)
    ensures
        res == spec_check_value(value@),
        res is Ok ==> final(dict_builder)@ == intern_value(old(dict_builder)@, value@) && final(writer)@
            == old(writer)@ + value_bytes(value@, final(dict_builder)@),
        res is Ok ==> value_resolves(value@, final(dict_builder)@),
        res is Err ==> final(dict_builder)@ == old(dict_builder)@ && final(writer)@ == old(writer)@,
{
    check_value(value)?;
    intern_value_ids(value, dict_builder);
    put_value(writer, value, dict_builder);
    Ok(())
}

/// The encoding of a property value: the index of the property, then the
/// payload of the value.
pub open spec fn property_value_bytes(pv: PropertyValueView, d: DictView) -> Seq<u8> {
    varint_bytes(d.property_ids.index_of(pv.property) as nat) + value_bytes(pv.value, d)
}

/// The dictionaries after a property value was encoded under `data_type`.
pub open spec fn intern_property_value(d: DictView, pv: PropertyValueView, data_type: DataType) -> DictView {
    intern_value(d.add_property(pv.property, data_type), pv.value)
}

/// The encoding of a property value where the value's own identifiers are
/// added to dictionaries that hold the property already.
pub proof fn lemma_intern_value_keeps_properties(d: DictView, v: ValueView)
    ensures
        intern_value(d, v).property_ids == d.property_ids,
        intern_value(d, v).property_types == d.property_types,
{
}

/// Encodes a property value: the property index, then the value.
///
/// The property is added to the dictionaries under `data_type` unless they
/// hold it already. The value is checked before anything is written.
#[verifier::rlimit(50)]
pub fn encode_property_value(
    writer: &mut Writer,
    pv: &PropertyValue,
    dict_builder: &mut DictionaryBuilder,
    data_type: DataType,
) -> (res: Result<(), EncodeError>)
    ensures
        res == spec_check_value(pv.value@),
        res is Ok ==> final(dict_builder)@ == intern_property_value(old(dict_builder)@, pv@, data_type)
            && final(writer)@ == old(writer)@ + property_value_bytes(pv@, final(dict_builder)@),
        res is Err ==> final(dict_builder)@ == old(dict_builder)@ && final(writer)@ == old(writer)@,
{
    check_value(&pv.value)?;
    let prop_index: usize = dict_builder.add_property(pv.property, data_type);
    writer.write_varint(prop_index as u64);
    let ghost mid = dict_builder@;
    intern_value_ids(&pv.value, dict_builder);
    put_value(writer, &pv.value, dict_builder);
    proof {
        lemma_intern_value_keeps_properties(mid, pv.value@);
        assert(writer@ =~= old(writer)@ + property_value_bytes(pv@, dict_builder@));
    }
    Ok(())
}

// ---------------------------------------------------------------------------
// Grammar of payloads
// ---------------------------------------------------------------------------

/// A boolean: one byte, 0 or 1.
pub open spec fn spec_read_bool(s: Seq<u8>) -> Parsed<ValueView> {
    match spec_read_byte(s, "bool") {
        Err(e) => Err(e),
        Ok((b, rest)) => if b == 0 {
            Ok((ValueView::Bool(false), rest))
        } else if b == 1 {
            Ok((ValueView::Bool(true), rest))
        } else {
            Err(DecodeError::InvalidBool { value: b })
        },
    }
}

/// A 64-bit integer: a signed varint.
pub open spec fn spec_read_int64(s: Seq<u8>) -> Parsed<ValueView> {
    match spec_read_signed_varint(s, "int64") {
        Err(e) => Err(e),
        Ok((n, rest)) => Ok((ValueView::Int64(n), rest)),
    }
}

/// A timestamp: a signed varint.
pub open spec fn spec_read_timestamp(s: Seq<u8>) -> Parsed<ValueView> {
    match spec_read_signed_varint(s, "timestamp") {
        Err(e) => Err(e),
        Ok((n, rest)) => Ok((ValueView::Timestamp(n), rest)),
    }
}

/// A binary64 number: eight little-endian bytes that are not NaN.
pub open spec fn spec_read_float64(s: Seq<u8>) -> Parsed<ValueView> {
    match spec_read_u64_le(s, "float64") {
        Err(e) => Err(e),
        Ok((bits, rest)) => if double_is_nan(bits) {
            Err(DecodeError::FloatIsNan)
        } else {
            Ok((ValueView::Float64(bits), rest))
        },
    }
}

/// A mantissa: a tag byte, then a signed varint (tag 0) or length-prefixed
/// bytes of minimal length (tag 1).
pub open spec fn spec_read_mantissa(s: Seq<u8>) -> Parsed<MantissaView> {
    match spec_read_byte(s, "decimal.mantissa_type") {
        Err(e) => Err(e),
        Ok((tag, rest)) => if tag == 0 {
            match spec_read_signed_varint(rest, "decimal.mantissa") {
                Err(e) => Err(e),
                Ok((v, rest2)) => Ok((MantissaView::I64(v), rest2)),
            }
        } else if tag == 1 {
            match spec_read_prefixed(rest, MAX_BYTES_LEN as nat, "decimal.mantissa_bytes") {
                Err(e) => Err(e),
                Ok((bytes, rest2)) => if is_minimal_mantissa(bytes) {
                    Ok((MantissaView::Big(bytes), rest2))
                } else {
                    Err(DecodeError::DecimalMantissaNotMinimal)
                },
            }
        } else {
            Err(DecodeError::MalformedEncoding { context: "invalid decimal mantissa type" })
        },
    }
}

/// A decimal: an exponent in the range of 32 bits, then a mantissa; the two
/// must be normalized.
pub open spec fn spec_read_decimal(s: Seq<u8>) -> Parsed<ValueView> {
    match spec_read_signed_varint(s, "decimal.exponent") {
        Err(e) => Err(e),
        Ok((e64, rest)) => if e64 < i32::MIN || e64 > i32::MAX {
            Err(DecodeError::MalformedEncoding { context: "decimal exponent out of range" })
        } else {
            match spec_read_mantissa(rest) {
                Err(e) => Err(e),
                Ok((mantissa, rest2)) => if decimal_normalized(e64 as i32, mantissa) {
                    Ok((ValueView::Decimal { exponent: e64 as i32, mantissa }, rest2))
                } else {
                    Err(DecodeError::DecimalNotNormalized)
                },
            }
        },
    }
}

/// The number of wire indices that select a language: one more than the
/// languages, for the default language at index 0.
pub open spec fn language_index_count(d: DictView) -> u64 {
    if d.languages.len() < u64::MAX {
        (d.languages.len() + 1) as u64
    } else {
        u64::MAX
    }
}

/// A text: a string, then a language index, where 0 is the default language
/// and `i >= 1` selects entry `i - 1` of the languages.
pub open spec fn spec_read_text(s: Seq<u8>, d: DictView) -> Parsed<ValueView> {
    match spec_read_string(s, MAX_STRING_LEN as nat, "text") {
        Err(e) => Err(e),
        Ok((value, rest)) => match spec_read_varint(rest, "text.language") {
            Err(e) => Err(e),
            Ok((index, rest2)) => if index == 0 {
                Ok((ValueView::Text { value, language: None }, rest2))
            } else if index - 1 >= d.languages.len() {
                Err(
                    DecodeError::IndexOutOfBounds {
                        dict: "languages",
                        index,
                        size: language_index_count(d),
                    },
                )
            } else {
                Ok((ValueView::Text { value, language: Some(d.languages[index - 1]) }, rest2))
            },
        },
    }
}

/// Opaque bytes behind their length.
pub open spec fn spec_read_bytes_value(s: Seq<u8>) -> Parsed<ValueView> {
    match spec_read_prefixed(s, MAX_BYTES_LEN as nat, "bytes") {
        Err(e) => Err(e),
        Ok((bytes, rest)) => Ok((ValueView::Bytes(bytes), rest)),
    }
}

/// A date: a string that is an ISO 8601 calendar date.
pub open spec fn spec_read_date(s: Seq<u8>) -> Parsed<ValueView> {
    match spec_read_string(s, MAX_STRING_LEN as nat, "date") {
        Err(e) => Err(e),
        Ok((value, rest)) => match date_check(encode_utf8(value)) {
            Err(reason) => Err(DecodeError::MalformedEncoding { context: reason }),
            Ok(_) => Ok((ValueView::Date(value), rest)),
        },
    }
}

/// The altitude of a point, where the ordinate count is 3.
pub open spec fn spec_read_altitude(s: Seq<u8>, count: u8) -> Parsed<Option<u64>> {
    if count == 3 {
        match spec_read_u64_le(s, "point.alt") {
            Err(e) => Err(e),
            Ok((a, rest)) => Ok((Some(a), rest)),
        }
    } else {
        Ok((None, s))
    }
}

/// What the decoder checks of the coordinates of a point.
pub open spec fn spec_check_point(lat: u64, lon: u64, alt: Option<u64>) -> Result<(), DecodeError> {
    if double_exceeds(lon, DOUBLE_180) {
        Err(DecodeError::LongitudeOutOfRange { lon })
    } else if double_exceeds(lat, DOUBLE_90) {
        Err(DecodeError::LatitudeOutOfRange { lat })
    } else if double_is_nan(lon) || double_is_nan(lat) {
        Err(DecodeError::FloatIsNan)
    } else if alt is Some && double_is_nan(alt->0) {
        Err(DecodeError::FloatIsNan)
    } else {
        Ok(())
    }
}

/// A point: an ordinate count of 2 or 3, then longitude, latitude and, with
/// count 3, altitude; the coordinates are in range and not NaN.
pub open spec fn spec_read_point(s: Seq<u8>) -> Parsed<ValueView> {
    match spec_read_byte(s, "point.ordinate_count") {
        Err(e) => Err(e),
        Ok((count, rest)) => if count != 2 && count != 3 {
            Err(DecodeError::MalformedEncoding { context: "POINT ordinate_count must be 2 or 3" })
        } else {
            match spec_read_u64_le(rest, "point.lon") {
                Err(e) => Err(e),
                Ok((lon, rest2)) => match spec_read_u64_le(rest2, "point.lat") {
                    Err(e) => Err(e),
                    Ok((lat, rest3)) => match spec_read_altitude(rest3, count) {
                        Err(e) => Err(e),
                        Ok((alt, rest4)) => match spec_check_point(lat, lon, alt) {
                            Err(e) => Err(e),
                            Ok(_) => Ok((ValueView::Point { lat, lon, alt }, rest4)),
                        },
                    },
                },
            }
        },
    }
}

/// An embedding: a sub-type, the dimensions, and exactly the bytes that the
/// dimensions take; no binary32 element is NaN, and the unused bits of a
/// bit-packed embedding are zero.
pub open spec fn spec_read_embedding(s: Seq<u8>) -> Parsed<ValueView> {
    match spec_read_byte(s, "embedding.sub_type") {
        Err(e) => Err(e),
        Ok((code, rest)) => match EmbeddingSubType::spec_from_u8(code) {
            None => Err(DecodeError::InvalidEmbeddingSubType { sub_type: code }),
            Some(sub_type) => match spec_read_varint(rest, "embedding.dims") {
                Err(e) => Err(e),
                Ok((dims, rest2)) => if dims > MAX_EMBEDDING_DIMS {
                    Err(
                        DecodeError::LengthExceedsLimit {
                            field: "embedding.dims",
                            len: dims,
                            max: MAX_EMBEDDING_DIMS as u64,
                        },
                    )
                } else if sub_type.spec_bytes_for_dims(dims as nat) > MAX_EMBEDDING_BYTES {
                    Err(
                        DecodeError::LengthExceedsLimit {
                            field: "embedding.data",
                            len: sub_type.spec_bytes_for_dims(dims as nat) as u64,
                            max: MAX_EMBEDDING_BYTES as u64,
                        },
                    )
                } else {
                    match spec_read_bytes(rest2, sub_type.spec_bytes_for_dims(dims as nat), "embedding.data") {
                        Err(e) => Err(e),
                        Ok((data, rest3)) => if sub_type == EmbeddingSubType::Float32 && singles_have_nan(
                            data,
                        ) {
                            Err(DecodeError::FloatIsNan)
                        } else if sub_type == EmbeddingSubType::Binary && !binary_tail_clear(
                            dims as nat,
                            data,
                        ) {
                            Err(
                                DecodeError::MalformedEncoding {
                                    context: "binary embedding has non-zero unused bits",
                                },
                            )
                        } else {
                            Ok((ValueView::Embedding { sub_type, dims: dims as usize, data }, rest3))
                        },
                    }
                },
            },
        },
    }
}

/// A reference: an index into the objects.
pub open spec fn spec_read_ref(s: Seq<u8>, d: DictView) -> Parsed<ValueView> {
    match spec_read_varint(s, "ref") {
        Err(e) => Err(e),
        Ok((index, rest)) => if index >= d.objects.len() {
            Err(DecodeError::IndexOutOfBounds { dict: "objects", index, size: d.objects.len() as u64 })
        } else {
            Ok((ValueView::Ref(d.objects[index as int]), rest))
        },
    }
}

/// The payload of a value of the given data type.
pub open spec fn spec_read_value(s: Seq<u8>, data_type: DataType, d: DictView) -> Parsed<ValueView> {
    match data_type {
        DataType::Bool => spec_read_bool(s),
        DataType::Int64 => spec_read_int64(s),
        DataType::Float64 => spec_read_float64(s),
        DataType::Decimal => spec_read_decimal(s),
        DataType::Text => spec_read_text(s, d),
        DataType::Bytes => spec_read_bytes_value(s),
        DataType::Timestamp => spec_read_timestamp(s),
        DataType::Date => spec_read_date(s),
        DataType::Point => spec_read_point(s),
        DataType::Embedding => spec_read_embedding(s),
        DataType::Ref => spec_read_ref(s, d),
    }
}

/// A property value: an index into the properties, then a payload of the
/// data type that the dictionary gives the property.
pub open spec fn spec_read_property_value(s: Seq<u8>, d: DictView) -> Parsed<PropertyValueView> {
    match spec_read_varint(s, "property") {
        Err(e) => Err(e),
        Ok((index, rest)) => if index >= d.property_ids.len() {
            Err(
                DecodeError::IndexOutOfBounds {
                    dict: "properties",
                    index,
                    size: d.property_ids.len() as u64,
                },
            )
        } else {
            match spec_read_value(rest, d.property_types[index as int], d) {
                Err(e) => Err(e),
                Ok((value, rest2)) => Ok(
                    (PropertyValueView { property: d.property_ids[index as int], value }, rest2),
                ),
            }
        },
    }
}

// ---------------------------------------------------------------------------
// Decoding
// ---------------------------------------------------------------------------

fn decode_bool(reader: &mut Reader) -> (res: Result<Value, DecodeError>)
    ensures
        parsed_view(res, final(reader)@, spec_read_bool(old(reader)@)),
{
    let byte: u8 = reader.read_byte("bool")?;
    match byte {
        0x00 => Ok(Value::Bool(false)),
        0x01 => Ok(Value::Bool(true)),
        _ => Err(DecodeError::InvalidBool { value: byte }),
    }
}

fn decode_int64(reader: &mut Reader) -> (res: Result<Value, DecodeError>)
    ensures
        parsed_view(res, final(reader)@, spec_read_int64(old(reader)@)),
{
    let n: i64 = reader.read_signed_varint("int64")?;
    Ok(Value::Int64(n))
}

fn decode_timestamp(reader: &mut Reader) -> (res: Result<Value, DecodeError>)
    ensures
        parsed_view(res, final(reader)@, spec_read_timestamp(old(reader)@)),
{
    let n: i64 = reader.read_signed_varint("timestamp")?;
    Ok(Value::Timestamp(n))
}

fn decode_float64(reader: &mut Reader) -> (res: Result<Value, DecodeError>)
    ensures
        parsed_view(res, final(reader)@, spec_read_float64(old(reader)@)),
{
    let bits: u64 = reader.read_u64_le("float64")?;
    if is_nan_bits(bits) {
        return Err(DecodeError::FloatIsNan);
    }
    Ok(Value::Float64(bits))
}

/// Tells whether two's complement bytes have no redundant leading byte.
pub fn is_mantissa_minimal(bytes: &[u8]) -> (res: bool)
    ensures
        res == is_minimal_mantissa(bytes@),
{
    if bytes.len() >= 2 {
        let first: u8 = bytes[0];
        let second: u8 = bytes[1];
        if (first == 0x00 && second < 128) || (first == 0xFF && second >= 128) {
            return false;
        }
    }
    true
}

#[verifier::rlimit(50)]
fn decode_mantissa(reader: &mut Reader) -> (res: Result<DecimalMantissa, DecodeError>)
    ensures
        parsed_view(res, final(reader)@, spec_read_mantissa(old(reader)@)),
{
    let tag: u8 = reader.read_byte("decimal.mantissa_type")?;
    match tag {
        0x00 => {
            let v: i64 = reader.read_signed_varint("decimal.mantissa")?;
            Ok(DecimalMantissa::I64(v))
        },
        0x01 => {
            let bytes = reader.read_prefixed(MAX_BYTES_LEN, "decimal.mantissa_bytes")?;
            if !is_mantissa_minimal(bytes) {
                return Err(DecodeError::DecimalMantissaNotMinimal);
            }
            Ok(DecimalMantissa::Big(slice_to_vec(bytes)))
        },
        _ => Err(DecodeError::MalformedEncoding { context: "invalid decimal mantissa type" }),
    }
}

#[verifier::rlimit(50)]
fn decode_decimal(reader: &mut Reader) -> (res: Result<Value, DecodeError>)
    ensures
        parsed_view(res, final(reader)@, spec_read_decimal(old(reader)@)),
{
    let e64: i64 = reader.read_signed_varint("decimal.exponent")?;
    if e64 < -2147483648 || e64 > 2147483647 {
        return Err(DecodeError::MalformedEncoding { context: "decimal exponent out of range" });
    }
    let exponent: i32 = e64 as i32;
    let mantissa = decode_mantissa(reader)?;
    if !is_decimal_normalized(exponent, &mantissa) {
        return Err(DecodeError::DecimalNotNormalized);
    }
    Ok(Value::Decimal { exponent, mantissa })
}

#[verifier::rlimit(50)]
fn decode_text(reader: &mut Reader, dicts: &WireDictionaries) -> (res: Result<Value, DecodeError>)
    ensures
        parsed_view(res, final(reader)@, spec_read_text(old(reader)@, dicts@)),
{
    let value = reader.read_string(MAX_STRING_LEN, "text")?;
    let lang_index: u64 = reader.read_varint("text.language")?;
    let count: usize = dicts.languages.len();
    let language: Option<Id> = if lang_index == 0 {
        None
    } else {
        let idx: u64 = lang_index - 1;
        if idx >= count as u64 {
            let size: u64 = if (count as u64) < u64::MAX {
                count as u64 + 1
            } else {
                u64::MAX
            };
            return Err(DecodeError::IndexOutOfBounds { dict: "languages", index: lang_index, size });
        }
        Some(dicts.languages[idx as usize])
    };
    Ok(Value::Text { value, language })
}

fn decode_bytes(reader: &mut Reader) -> (res: Result<Value, DecodeError>)
    ensures
        parsed_view(res, final(reader)@, spec_read_bytes_value(old(reader)@)),
{
    let bytes = reader.read_prefixed(MAX_BYTES_LEN, "bytes")?;
    Ok(Value::Bytes(slice_to_vec(bytes)))
}

fn decode_date(reader: &mut Reader) -> (res: Result<Value, DecodeError>)
    ensures
        parsed_view(res, final(reader)@, spec_read_date(old(reader)@)),
{
    let value = reader.read_string(MAX_STRING_LEN, "date")?;
    validate_iso8601_date(value.as_str())?;
    Ok(Value::Date(value))
}

#[verifier::rlimit(50)]
fn decode_point(reader: &mut Reader) -> (res: Result<Value, DecodeError>)
    ensures
        parsed_view(res, final(reader)@, spec_read_point(old(reader)@)),
{
    let ordinate_count: u8 = reader.read_byte("point.ordinate_count")?;
    if ordinate_count != 2 && ordinate_count != 3 {
        return Err(DecodeError::MalformedEncoding { context: "POINT ordinate_count must be 2 or 3" });
    }
    let lon: u64 = reader.read_u64_le("point.lon")?;
    let lat: u64 = reader.read_u64_le("point.lat")?;
    let alt: Option<u64> = if ordinate_count == 3 {
        Some(reader.read_u64_le("point.alt")?)
    } else {
        None
    };
    if exceeds_bits(lon, DOUBLE_180) {
        return Err(DecodeError::LongitudeOutOfRange { lon });
    }
    if exceeds_bits(lat, DOUBLE_90) {
        return Err(DecodeError::LatitudeOutOfRange { lat });
    }
    if is_nan_bits(lon) || is_nan_bits(lat) {
        return Err(DecodeError::FloatIsNan);
    }
    if let Some(a) = alt {
        if is_nan_bits(a) {
            return Err(DecodeError::FloatIsNan);
        }
    }
    Ok(Value::Point { lat, lon, alt })
}

#[verifier::rlimit(50)]
fn decode_embedding(reader: &mut Reader) -> (res: Result<Value, DecodeError>)
    ensures
        parsed_view(res, final(reader)@, spec_read_embedding(old(reader)@)),
{
    let sub_type_byte: u8 = reader.read_byte("embedding.sub_type")?;
    let sub_type = match EmbeddingSubType::from_u8(sub_type_byte) {
        Some(t) => t,
        None => {
            return Err(DecodeError::InvalidEmbeddingSubType { sub_type: sub_type_byte });
        },
    };
    let dims64: u64 = reader.read_varint("embedding.dims")?;
    if dims64 > MAX_EMBEDDING_DIMS as u64 {
        return Err(
            DecodeError::LengthExceedsLimit {
                field: "embedding.dims",
                len: dims64,
                max: MAX_EMBEDDING_DIMS as u64,
            },
        );
    }
    let dims: usize = dims64 as usize;
    let expected_bytes: usize = sub_type.bytes_for_dims(dims);
    if expected_bytes > MAX_EMBEDDING_BYTES {
        return Err(
            DecodeError::LengthExceedsLimit {
                field: "embedding.data",
                len: expected_bytes as u64,
                max: MAX_EMBEDDING_BYTES as u64,
            },
        );
    }
    let data = reader.read_bytes(expected_bytes, "embedding.data")?;
    if sub_type == EmbeddingSubType::Float32 {
        if has_nan_single(data) {
            return Err(DecodeError::FloatIsNan);
        }
    }
    if sub_type == EmbeddingSubType::Binary {
        if !is_binary_tail_clear(dims, data) {
            return Err(
                DecodeError::MalformedEncoding { context: "binary embedding has non-zero unused bits" },
            );
        }
    }
    Ok(Value::Embedding { sub_type, dims, data: slice_to_vec(data) })
}

fn decode_ref(reader: &mut Reader, dicts: &WireDictionaries) -> (res: Result<Value, DecodeError>)
    ensures
        parsed_view(res, final(reader)@, spec_read_ref(old(reader)@, dicts@)),
{
    let index: u64 = reader.read_varint("ref")?;
    let count: usize = dicts.objects.len();
    if index >= count as u64 {
        return Err(DecodeError::IndexOutOfBounds { dict: "objects", index, size: count as u64 });
    }
    Ok(Value::Ref(dicts.objects[index as usize]))
}

/// Decodes the payload of a value of the given data type.
#[verifier::rlimit(50)]
pub fn decode_value(reader: &mut Reader, data_type: DataType, dicts: &WireDictionaries) -> (res: Result<
    Value,
    DecodeError,
>)
    ensures
        parsed_view(res, final(reader)@, spec_read_value(old(reader)@, data_type, dicts@)),
{
    match data_type {
        DataType::Bool => decode_bool(reader),
        DataType::Int64 => decode_int64(reader),
        DataType::Float64 => decode_float64(reader),
        DataType::Decimal => decode_decimal(reader),
        DataType::Text => decode_text(reader, dicts),
        DataType::Bytes => decode_bytes(reader),
        DataType::Timestamp => decode_timestamp(reader),
        DataType::Date => decode_date(reader),
        DataType::Point => decode_point(reader),
        DataType::Embedding => decode_embedding(reader),
        DataType::Ref => decode_ref(reader, dicts),
    }
}

/// Decodes a property value: the property index, then a value of the type
/// that the dictionary gives the property.
#[verifier::rlimit(50)]
pub fn decode_property_value(reader: &mut Reader, dicts: &WireDictionaries) -> (res: Result<
    PropertyValue,
    DecodeError,
>)
    ensures
        parsed_view(res, final(reader)@, spec_read_property_value(old(reader)@, dicts@)),
{
    let prop_index: u64 = reader.read_varint("property")?;
    let count: usize = dicts.properties.len();
    if prop_index >= count as u64 {
        return Err(DecodeError::IndexOutOfBounds { dict: "properties", index: prop_index, size: count as u64 });
    }
    let (property, data_type) = dicts.properties[prop_index as usize];
    let value = decode_value(reader, data_type, dicts)?;
    Ok(PropertyValue { property, value })
}

// ---------------------------------------------------------------------------
// Position strings
// ---------------------------------------------------------------------------

/// What the encoder checks of a position string.
pub open spec fn spec_check_position(s: Seq<char>) -> Result<(), EncodeError> {
    if encode_utf8(s).len() > MAX_POSITION_LEN {
        Err(EncodeError::PositionTooLong)
    } else if first_bad_position_char(s, 0) is Some {
        Err(EncodeError::InvalidPositionChar)
    } else {
        Ok(())
    }
}

/// Validates a position string: at most 64 bytes, only `0-9`, `A-Z`, `a-z`.
pub fn validate_position(pos: &str) -> (res: Result<(), EncodeError>)
    ensures
        res == spec_check_position(pos@),
{
    if pos.as_bytes().len() > MAX_POSITION_LEN {
        return Err(EncodeError::PositionTooLong);
    }
    match find_bad_position_char(pos) {
        Some(_) => Err(EncodeError::InvalidPositionChar),
        None => Ok(()),
    }
}

/// A position string: a string of at most 64 bytes, all position characters.
pub open spec fn spec_read_position(s: Seq<u8>) -> Parsed<Seq<char>> {
    match spec_read_string(s, MAX_POSITION_LEN as nat, "position") {
        Err(e) => Err(e),
        Ok((pos, rest)) => match first_bad_position_char(pos, 0) {
            Some(c) => Err(DecodeError::InvalidPositionChar { char: c }),
            None => Ok((pos, rest)),
        },
    }
}

/// Decodes a position string and validates it.
pub fn decode_position(reader: &mut Reader) -> (res: Result<String, DecodeError>)
    ensures
        parsed_view(res, final(reader)@, spec_read_position(old(reader)@)),
{
    let pos = reader.read_string(MAX_POSITION_LEN, "position")?;
    match find_bad_position_char(pos.as_str()) {
        Some(c) => Err(DecodeError::InvalidPositionChar { char: c }),
        None => Ok(pos),
    }
}


// ---------------------------------------------------------------------------
// Canonical payload
// ---------------------------------------------------------------------------

/// The 64-bit two's complement pattern of an integer.
pub open spec fn int64_bits(n: i64) -> u64 {
    if n >= 0 {
        n as u64
    } else {
        (n + 0x1_0000_0000_0000_0000) as u64
    }
}

/// The canonical payload of a value: the bytes that stand for the value in
/// its identity hash.
///
/// Integers and timestamps are eight little-endian bytes; binary64 numbers
/// are their eight bytes with negative zero as positive zero; a decimal is
/// its exponent as a signed varint and its mantissa as a signed varint or
/// as its two's complement bytes; text, dates and bytes are their raw
/// bytes; a point is latitude, longitude and, if it has one, altitude; an
/// embedding is its sub-type code, its dimensions as four little-endian
/// bytes and its data; a reference is the sixteen bytes of its identifier.
/// An embedding of more than 2^32 - 1 dimensions has no canonical payload.
pub open spec fn spec_canonical_payload(v: ValueView) -> Option<Seq<u8>> {
    match v {
        ValueView::Bool(b) => Some(seq![if b {
            1u8
        } else {
            0u8
        }]),
        ValueView::Int64(n) => Some(spec_u64_to_le_bytes(int64_bits(n))),
        ValueView::Float64(bits) => Some(spec_u64_to_le_bytes(double_normalized(bits))),
        ValueView::Decimal { exponent, mantissa } => Some(
            signed_varint_bytes(exponent as i64) + (match mantissa {
                MantissaView::I64(m) => signed_varint_bytes(m),
                MantissaView::Big(bytes) => bytes,
            }),
        ),
        ValueView::Text { value, language } => Some(encode_utf8(value)),
        ValueView::Bytes(bytes) => Some(bytes),
        ValueView::Timestamp(n) => Some(spec_u64_to_le_bytes(int64_bits(n))),
        ValueView::Date(s) => Some(encode_utf8(s)),
        ValueView::Point { lat, lon, alt } => Some(
            spec_u64_to_le_bytes(double_normalized(lat)) + spec_u64_to_le_bytes(double_normalized(lon)) + (match alt {
                Some(a) => spec_u64_to_le_bytes(double_normalized(a)),
                None => Seq::empty(),
            }),
        ),
        ValueView::Embedding { sub_type, dims, data } => if dims > u32::MAX {
            None
        } else {
            Some(seq![sub_type.spec_code()] + vstd::bytes::spec_u32_to_le_bytes(dims as u32) + data)
        },
        ValueView::Ref(id) => Some(id),
    }
}

/// The 64-bit two's complement pattern of an integer.
pub fn bits_of_int64(n: i64) -> (bits: u64)
    ensures
        bits == int64_bits(n),
{
    if n >= 0 {
        n as u64
    } else {
        ((n - i64::MIN) as u64) + 0x8000_0000_0000_0000
    }
}

/// Computes the canonical payload of a value.
#[verifier::rlimit(50)]
pub fn canonical_payload(value: &Value) -> (res: Option<Vec<u8>>)
    ensures
        match spec_canonical_payload(value@) {
            Some(bytes) => res is Some && res->0@ == bytes,
            None => res is None,
        },
{
    let mut writer = Writer::new();
    match value {
        Value::Bool(b) => {
            writer.write_byte(if *b {
                1
            } else {
                0
            });
            proof {
                assert(writer@ =~= spec_canonical_payload(value@)->0);
            }
        },
        Value::Int64(n) => {
            writer.write_u64_le(bits_of_int64(*n));
            proof {
                assert(writer@ =~= spec_canonical_payload(value@)->0);
            }
        },
        Value::Float64(bits) => {
            writer.write_u64_le(normalize_zero_bits(*bits));
            proof {
                assert(writer@ =~= spec_canonical_payload(value@)->0);
            }
        },
        Value::Decimal { exponent, mantissa } => {
            writer.write_signed_varint(*exponent as i64);
            match mantissa {
                DecimalMantissa::I64(m) => {
                    writer.write_signed_varint(*m);
                },
                DecimalMantissa::Big(bytes) => {
                    writer.write_bytes(bytes.as_slice());
                },
            }
            proof {
                assert(writer@ =~= spec_canonical_payload(value@)->0);
            }
        },
        Value::Text { value: text, language: _ } => {
            writer.write_bytes(text.as_str().as_bytes());
            proof {
                assert(writer@ =~= spec_canonical_payload(value@)->0);
            }
        },
        Value::Bytes(bytes) => {
            writer.write_bytes(bytes.as_slice());
            proof {
                assert(writer@ =~= spec_canonical_payload(value@)->0);
            }
        },
        Value::Timestamp(n) => {
            writer.write_u64_le(bits_of_int64(*n));
            proof {
                assert(writer@ =~= spec_canonical_payload(value@)->0);
            }
        },
        Value::Date(s) => {
            writer.write_bytes(s.as_str().as_bytes());
            proof {
                assert(writer@ =~= spec_canonical_payload(value@)->0);
            }
        },
        Value::Point { lat, lon, alt } => {
            writer.write_u64_le(normalize_zero_bits(*lat));
            writer.write_u64_le(normalize_zero_bits(*lon));
            match alt {
                Some(a) => {
                    writer.write_u64_le(normalize_zero_bits(*a));
                },
                None => {},
            }
            proof {
                assert(writer@ =~= spec_canonical_payload(value@)->0);
            }
        },
        Value::Embedding { sub_type, dims, data } => {
            if *dims > 0xFFFF_FFFF {
                return None;
            }
            writer.write_byte(sub_type.code());
            let dims_bytes = vstd::bytes::u32_to_le_bytes(*dims as u32);
            writer.write_bytes(dims_bytes.as_slice());
            writer.write_bytes(data.as_slice());
            proof {
                assert(writer@ =~= spec_canonical_payload(value@)->0);
            }
        },
        Value::Ref(id) => {
            writer.write_id(id);
            proof {
                assert(writer@ =~= spec_canonical_payload(value@)->0);
            }
        },
    }
    Some(writer.into_bytes())
}

/// The identity of a value of a property: the hash of the property and the
/// canonical payload, and for a text also of its language.
pub open spec fn spec_value_identity(property: Seq<u8>, v: ValueView) -> Option<Seq<u8>> {
    match spec_canonical_payload(v) {
        None => None,
        Some(payload) => match v {
            ValueView::Text { value, language } => Some(
                crate::model::id::spec_text_value_id(property, payload, language),
            ),
            _ => Some(crate::model::id::spec_value_id(property, payload)),
        },
    }
}

/// Computes the identity of a value of a property, where the value has a
/// canonical payload.
pub fn value_identity(property: &Id, value: &Value) -> (res: Option<Id>)
    ensures
        match spec_value_identity(property@, value@) {
            Some(id) => res is Some && res->0@ == id,
            None => res is None,
        },
{
    let payload = match canonical_payload(value) {
        Some(p) => p,
        None => {
            return None;
        },
    };
    match value {
        Value::Text { value: _, language } => {
            let id: Id = match language {
                Some(l) => crate::model::id::text_value_id(property, payload.as_slice(), Some(l)),
                None => crate::model::id::text_value_id(property, payload.as_slice(), None),
            };
            Some(id)
        },
        _ => Some(crate::model::id::value_id(property, payload.as_slice())),
    }
}

// ---------------------------------------------------------------------------
// Laws
// ---------------------------------------------------------------------------

/// The value that decoding yields for an encoded value: the value itself,
/// but for a binary64 negative zero, which the encoder writes as positive zero.
pub open spec fn canonical_value(v: ValueView) -> ValueView {
    match v {
        ValueView::Float64(bits) => ValueView::Float64(double_normalized(bits)),
        _ => v,
    }
}

/// The lengths of a value are within the limits that the decoder enforces,
/// a big mantissa has minimal length, and a language has sixteen bytes.
pub open spec fn value_in_limits(v: ValueView) -> bool {
    match v {
        ValueView::Decimal { exponent, mantissa } => match mantissa {
            MantissaView::Big(bytes) => is_minimal_mantissa(bytes) && bytes.len() <= MAX_BYTES_LEN,
            MantissaView::I64(_) => true,
        },
        ValueView::Text { value, language } => encode_utf8(value).len() <= MAX_STRING_LEN,
        ValueView::Bytes(bytes) => bytes.len() <= MAX_BYTES_LEN,
        ValueView::Date(s) => encode_utf8(s).len() <= MAX_STRING_LEN,
        ValueView::Embedding { sub_type, dims, data } => dims <= MAX_EMBEDDING_DIMS,
        _ => true,
    }
}

/// Tells whether the lengths of a value are within the limits that the
/// decoder enforces and a big mantissa has minimal length.
pub fn is_value_in_limits(value: &Value) -> (res: bool)
    ensures
        res == value_in_limits(value@),
{
    match value {
        Value::Decimal { exponent: _, mantissa } => match mantissa {
            DecimalMantissa::Big(bytes) => is_mantissa_minimal(bytes.as_slice()) && bytes.len() <= MAX_BYTES_LEN,
            DecimalMantissa::I64(_) => true,
        },
        Value::Text { value: text, language: _ } => text.as_str().as_bytes().len() <= MAX_STRING_LEN,
        Value::Bytes(bytes) => bytes.len() <= MAX_BYTES_LEN,
        Value::Date(s) => s.as_str().as_bytes().len() <= MAX_STRING_LEN,
        Value::Embedding { sub_type: _, dims, data: _ } => *dims <= MAX_EMBEDDING_DIMS,
        _ => true,
    }
}

/// The dictionaries hold the identifiers that the value refers to by index.
pub open spec fn value_resolves(v: ValueView, d: DictView) -> bool {
    match v {
        ValueView::Text { value, language } => language is Some ==> d.languages.contains(language->0),
        ValueView::Ref(id) => d.objects.contains(id),
        _ => true,
    }
}

/// A value that the encoder accepts breaks none of the rules that
/// `Value::validate` checks.
pub proof fn lemma_encodable_is_valid(v: ValueView)
    requires
        spec_check_value(v) is Ok,
    ensures
        v.validation() is None,
{
}

/// Reading a byte from an input that starts with it gives it back.
pub proof fn lemma_byte_roundtrip(b: u8, rest: Seq<u8>, context: &'static str)
    ensures
        spec_read_byte(seq![b] + rest, context) == Ok::<(u8, Seq<u8>), DecodeError>((b, rest)),
{
    assert((seq![b] + rest).skip(1) =~= rest);
}

/// Decoding an encoded decimal gives it back.
#[verifier::rlimit(50)]
pub proof fn lemma_decimal_roundtrip(exponent: i32, mantissa: MantissaView, rest: Seq<u8>)
    requires
        decimal_normalized(exponent, mantissa),
        value_in_limits(ValueView::Decimal { exponent, mantissa }),
    ensures
        spec_read_decimal(decimal_bytes(exponent, mantissa) + rest) == Ok::<(ValueView, Seq<u8>), DecodeError>(
            (ValueView::Decimal { exponent, mantissa }, rest),
        ),
{
    let tail = match mantissa {
        MantissaView::I64(v) => seq![0x00u8] + signed_varint_bytes(v),
        MantissaView::Big(bytes) => seq![0x01u8] + prefixed_bytes(bytes),
    };
    assert(decimal_bytes(exponent, mantissa) + rest =~= signed_varint_bytes(exponent as i64) + (tail + rest));
    crate::codec::primitives::lemma_signed_varint_roundtrip(exponent as i64, tail + rest, "decimal.exponent");
    match mantissa {
        MantissaView::I64(v) => {
            assert(tail + rest =~= seq![0x00u8] + (signed_varint_bytes(v) + rest));
            lemma_byte_roundtrip(0x00u8, signed_varint_bytes(v) + rest, "decimal.mantissa_type");
            crate::codec::primitives::lemma_signed_varint_roundtrip(v, rest, "decimal.mantissa");
        },
        MantissaView::Big(bytes) => {
            assert(tail + rest =~= seq![0x01u8] + (prefixed_bytes(bytes) + rest));
            lemma_byte_roundtrip(0x01u8, prefixed_bytes(bytes) + rest, "decimal.mantissa_type");
            crate::codec::primitives::lemma_prefixed_roundtrip(
                bytes,
                MAX_BYTES_LEN as nat,
                rest,
                "decimal.mantissa_bytes",
            );
        },
    }
}

/// Decoding an encoded point gives it back.
#[verifier::rlimit(50)]
pub proof fn lemma_point_roundtrip(lat: u64, lon: u64, alt: Option<u64>, rest: Seq<u8>)
    requires
        spec_check_value(ValueView::Point { lat, lon, alt }) is Ok,
    ensures
        spec_read_point(point_bytes(lat, lon, alt) + rest) == Ok::<(ValueView, Seq<u8>), DecodeError>(
            (ValueView::Point { lat, lon, alt }, rest),
        ),
{
    let lon_b = spec_u64_to_le_bytes(lon);
    let lat_b = spec_u64_to_le_bytes(lat);
    match alt {
        Some(a) => {
            let alt_b = spec_u64_to_le_bytes(a);
            assert(point_bytes(lat, lon, alt) + rest =~= seq![3u8] + (lon_b + (lat_b + (alt_b + rest))));
            lemma_byte_roundtrip(3u8, lon_b + (lat_b + (alt_b + rest)), "point.ordinate_count");
            crate::codec::primitives::lemma_u64_le_roundtrip(lon, lat_b + (alt_b + rest), "point.lon");
            crate::codec::primitives::lemma_u64_le_roundtrip(lat, alt_b + rest, "point.lat");
            crate::codec::primitives::lemma_u64_le_roundtrip(a, rest, "point.alt");
        },
        None => {
            assert(point_bytes(lat, lon, alt) + rest =~= seq![2u8] + (lon_b + (lat_b + rest)));
            lemma_byte_roundtrip(2u8, lon_b + (lat_b + rest), "point.ordinate_count");
            crate::codec::primitives::lemma_u64_le_roundtrip(lon, lat_b + rest, "point.lon");
            crate::codec::primitives::lemma_u64_le_roundtrip(lat, rest, "point.lat");
        },
    }
}

/// Decoding an encoded embedding gives it back.
#[verifier::rlimit(50)]
pub proof fn lemma_embedding_roundtrip(sub_type: EmbeddingSubType, dims: usize, data: Seq<u8>, rest: Seq<u8>)
    requires
        spec_check_value(ValueView::Embedding { sub_type, dims, data }) is Ok,
        dims <= MAX_EMBEDDING_DIMS,
    ensures
        spec_read_embedding(value_bytes(ValueView::Embedding { sub_type, dims, data }, DictView::empty()) + rest)
            == Ok::<(ValueView, Seq<u8>), DecodeError>((ValueView::Embedding { sub_type, dims, data }, rest)),
{
    let v = ValueView::Embedding { sub_type, dims, data };
    let after_code = varint_bytes(dims as nat) + (data + rest);
    assert(value_bytes(v, DictView::empty()) + rest =~= seq![sub_type.spec_code()] + after_code);
    lemma_byte_roundtrip(sub_type.spec_code(), after_code, "embedding.sub_type");
    crate::codec::primitives::lemma_varint_roundtrip(dims as u64, data + rest, "embedding.dims");
    crate::codec::primitives::lemma_bytes_roundtrip(data, rest, "embedding.data");
}

/// Decoding an encoded text gives it back.
#[verifier::rlimit(50)]
pub proof fn lemma_text_roundtrip(value: Seq<char>, language: Option<Seq<u8>>, d: DictView, rest: Seq<u8>)
    requires
        encode_utf8(value).len() <= MAX_STRING_LEN,
        language is Some ==> d.languages.contains(language->0),
        d.languages.len() < u64::MAX,
    ensures
        spec_read_text(value_bytes(ValueView::Text { value, language }, d) + rest, d) == Ok::<
            (ValueView, Seq<u8>),
            DecodeError,
        >((ValueView::Text { value, language }, rest)),
{
    let index = d.language_index(language);
    let v = ValueView::Text { value, language };
    if language is Some {
        let i = d.languages.index_of(language->0);
        assert(0 <= i < d.languages.len() && d.languages[i] == language->0);
    }
    assert(value_bytes(v, d) + rest =~= string_bytes(value) + (varint_bytes(index as nat) + rest));
    crate::codec::primitives::lemma_string_roundtrip(
        value,
        MAX_STRING_LEN as nat,
        varint_bytes(index as nat) + rest,
        "text",
    );
    crate::codec::primitives::lemma_varint_roundtrip(index as u64, rest, "text.language");
}

/// Decoding under its own data type what the encoder wrote for a value gives
/// the value back, and the input that follows it.
///
/// This holds of every value that the encoder accepts, whose lengths are
/// within the decoder's limits and whose identifiers the dictionaries hold.
/// A binary64 negative zero comes back as positive zero.
#[verifier::rlimit(50)]
pub proof fn lemma_value_roundtrip(v: ValueView, d: DictView, rest: Seq<u8>)
    requires
        spec_check_value(v) is Ok,
        value_in_limits(v),
        value_resolves(v, d),
        d.languages.len() < u64::MAX,
        d.objects.len() <= u64::MAX,
    ensures
        spec_read_value(value_bytes(v, d) + rest, v.data_type(), d) == Ok::<(ValueView, Seq<u8>), DecodeError>(
            (canonical_value(v), rest),
        ),
{
    match v {
        ValueView::Bool(b) => {
            lemma_byte_roundtrip(
                if b {
                    0x01u8
                } else {
                    0x00u8
                },
                rest,
                "bool",
            );
        },
        ValueView::Int64(n) => {
            crate::codec::primitives::lemma_signed_varint_roundtrip(n, rest, "int64");
        },
        ValueView::Float64(bits) => {
            crate::codec::primitives::lemma_u64_le_roundtrip(double_normalized(bits), rest, "float64");
        },
        ValueView::Decimal { exponent, mantissa } => {
            lemma_decimal_roundtrip(exponent, mantissa, rest);
        },
        ValueView::Text { value, language } => {
            lemma_text_roundtrip(value, language, d, rest);
        },
        ValueView::Bytes(bytes) => {
            crate::codec::primitives::lemma_prefixed_roundtrip(bytes, MAX_BYTES_LEN as nat, rest, "bytes");
        },
        ValueView::Timestamp(n) => {
            crate::codec::primitives::lemma_signed_varint_roundtrip(n, rest, "timestamp");
        },
        ValueView::Date(s) => {
            crate::codec::primitives::lemma_string_roundtrip(s, MAX_STRING_LEN as nat, rest, "date");
        },
        ValueView::Point { lat, lon, alt } => {
            lemma_point_roundtrip(lat, lon, alt, rest);
        },
        ValueView::Embedding { sub_type, dims, data } => {
            lemma_embedding_roundtrip(sub_type, dims, data, rest);
        },
        ValueView::Ref(id) => {
            let i = d.objects.index_of(id);
            assert(0 <= i < d.objects.len() && d.objects[i] == id);
            crate::codec::primitives::lemma_varint_roundtrip(i as u64, rest, "ref");
        },
    }
}

/// Decoding what the encoder wrote for a property value gives it back,
/// where the dictionaries hold the property under the value's data type.
#[verifier::rlimit(50)]
pub proof fn lemma_property_value_roundtrip(pv: PropertyValueView, d: DictView, rest: Seq<u8>)
    requires
        spec_check_value(pv.value) is Ok,
        value_in_limits(pv.value),
        value_resolves(pv.value, d),
        d.property_ids.contains(pv.property),
        d.property_types[d.property_ids.index_of(pv.property)] == pv.value.data_type(),
        d.property_ids.len() == d.property_types.len(),
        d.property_ids.len() <= u64::MAX,
        d.languages.len() < u64::MAX,
        d.objects.len() <= u64::MAX,
    ensures
        spec_read_property_value(property_value_bytes(pv, d) + rest, d) == Ok::<
            (PropertyValueView, Seq<u8>),
            DecodeError,
        >((PropertyValueView { property: pv.property, value: canonical_value(pv.value) }, rest)),
{
    let i = d.property_ids.index_of(pv.property);
    assert(0 <= i < d.property_ids.len() && d.property_ids[i] == pv.property);
    assert(property_value_bytes(pv, d) + rest =~= varint_bytes(i as nat) + (value_bytes(pv.value, d) + rest));
    crate::codec::primitives::lemma_varint_roundtrip(i as u64, value_bytes(pv.value, d) + rest, "property");
    lemma_value_roundtrip(pv.value, d, rest);
}

} // verus!
