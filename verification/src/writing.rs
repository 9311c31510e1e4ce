//! Writing field values as the bytes that a record holds.

use crate::endian::{i32_to_le_bytes, u64_to_le_bytes};
use crate::error::Error;
use crate::endian::{lemma_i32_le_roundtrip, lemma_u64_le_roundtrip};
use crate::record::datetime::{
    date_text, datetime_bytes, datetime_in_range, is_valid_date, lemma_ascii_char_boundaries,
    lemma_datetime_bytes_roundtrip, lemma_date_text_digits, lemma_date_text_roundtrip, time_word,
    Date, DateTime,
};
use crate::record::field::{
    all_chars, field_in_range, field_value_of, read_len, value_type, FieldType, FieldValue,
    FieldValueView,
};
use crate::text::{
    ascii_chars, is_ascii_bytes, is_digit, is_trimmed, lemma_ascii_decode, lemma_trim_of_trimmed,
    trim, utf8_lossy,
};
use vstd::bytes::*;
use vstd::prelude::*;
use vstd::string::StringSliceAdditionalSpecFns;
use vstd::utf8::*;

verus! {

/// A value that can be written as the contents of a field.
pub trait WritableDbaseField {
    /// The field type that the value is written as.
    spec fn dbase_field_type(&self) -> FieldType;

    /// Whether writing the value stays clear of what panics.
    spec fn can_write(&self) -> bool;

    /// The bytes that are written.
    spec fn dbase_bytes(&self) -> Seq<u8>;

    fn field_type(&self) -> (r: FieldType)
        ensures
            r == self.dbase_field_type(),
    ;

    fn write_to(&self, dst: &mut Vec<u8>)
        requires
            self.can_write(),
        ensures
            final(dst)@ == old(dst)@ + self.dbase_bytes(),
    ;
}

/// A value that can be written as a field of a given type.
pub trait WritableAsDbaseField {
    /// Whether writing the value as `field_type` stays clear of what panics or does
    /// not return.
    spec fn can_write_as(&self, field_type: FieldType) -> bool;

    /// The bytes written for the value as `field_type`, or `None` when the value
    /// cannot be written as that type.
    spec fn written_as(&self, field_type: FieldType) -> Option<Seq<u8>>;

    fn write_as(&self, field_type: FieldType, dst: &mut Vec<u8>) -> (r: Result<(), Error>)
        requires
            self.can_write_as(field_type),
        ensures
            match self.written_as(field_type) {
                Some(b) => r is Ok && final(dst)@ == old(dst)@ + b,
                None => r == Err::<(), Error>(Error::IncompatibleType) && final(dst)@ == old(dst)@,
            },
    ;
}

/// The byte that a logical value is written as: `t` or `f`.
pub open spec fn bool_byte(b: bool) -> u8 {
    if b {
        0x74
    } else {
        0x66
    }
}

/// The bytes of an optional text: its UTF-8 encoding, or nothing.
pub open spec fn opt_text_bytes(o: Option<Seq<char>>) -> Seq<u8> {
    match o {
        Some(s) => encode_utf8(s),
        None => Seq::empty(),
    }
}

/// The bytes that [`WritableDbaseField::write_to`] writes for a field value.
pub open spec fn value_bytes(v: FieldValueView) -> Seq<u8> {
    match v {
        FieldValueView::Character(o) => opt_text_bytes(o),
        FieldValueView::Numeric(o) => opt_text_bytes(o),
        FieldValueView::Float(o) => opt_text_bytes(o),
        FieldValueView::Logical(o) => match o {
            Some(b) => seq![bool_byte(b)],
            None => seq![0x3fu8],
        },
        FieldValueView::Date(o) => match o {
            Some(d) => date_text(d),
            None => Seq::new(8, |i: int| 0x20u8),
        },
        FieldValueView::Double(d) => spec_u64_to_le_bytes(d),
        FieldValueView::Integer(i) => spec_u32_to_le_bytes(i as u32),
        FieldValueView::Memo(_) => Seq::empty(),
        FieldValueView::Currency(c) => spec_u64_to_le_bytes(c),
        FieldValueView::DateTime(dt) => datetime_bytes(dt),
    }
}

/// Whether [`WritableDbaseField::write_to`] can write a field value: not a memo,
/// and a date-time only within range.
pub open spec fn value_writable(v: FieldValueView) -> bool {
    match v {
        FieldValueView::Memo(_) => false,
        FieldValueView::DateTime(dt) => datetime_in_range(dt),
        _ => true,
    }
}

/// The bytes that [`WritableAsDbaseField::write_as`] writes for a field value of its
/// own type: as [`value_bytes`], except that nothing is written for an unknown
/// logical or an empty date.
pub open spec fn value_bytes_as(v: FieldValueView) -> Seq<u8> {
    match v {
        FieldValueView::Logical(None) => Seq::empty(),
        FieldValueView::Date(None) => Seq::empty(),
        _ => value_bytes(v),
    }
}

/// Whether [`WritableAsDbaseField::write_as`] returns for a field value of its own
/// type: a memo panics, and a known `Numeric` value recurses without end.
pub open spec fn value_writable_as(v: FieldValueView) -> bool {
    match v {
        FieldValueView::Memo(_) => false,
        FieldValueView::Numeric(Some(_)) => false,
        FieldValueView::DateTime(dt) => datetime_in_range(dt),
        _ => true,
    }
}

/// Appends the UTF-8 bytes of `s`.
fn push_str(s: &str, dst: &mut Vec<u8>)
    ensures
        final(dst)@ == old(dst)@ + encode_utf8(s@),
{
    let b = s.as_bytes();
    dst.extend_from_slice(b);
    assert(final(dst)@ =~= old(dst)@ + encode_utf8(s@));
}

/// Appends the bytes of an optional text.
fn push_opt_string(o: &Option<String>, dst: &mut Vec<u8>)
    ensures
        final(dst)@ == old(dst)@ + opt_text_bytes(crate::record::field::opt_string_view(*o)),
{
    match o {
        Some(s) => push_str(s.as_str(), dst),
        None => {
            assert(old(dst)@ + Seq::<u8>::empty() =~= old(dst)@);
        },
    }
}

/// Appends the little-endian bytes of an `i32`.
fn push_i32_le(n: i32, dst: &mut Vec<u8>)
    ensures
        final(dst)@ == old(dst)@ + spec_u32_to_le_bytes(n as u32),
{
    let mut b = i32_to_le_bytes(n);
    dst.append(&mut b);
}

/// Appends the little-endian bytes of a `u64`.
fn push_u64_le(n: u64, dst: &mut Vec<u8>)
    ensures
        final(dst)@ == old(dst)@ + spec_u64_to_le_bytes(n),
{
    let mut b = u64_to_le_bytes(n);
    dst.append(&mut b);
}

impl WritableDbaseField for FieldValue {
    open spec fn dbase_field_type(&self) -> FieldType {
        value_type(self@)
    }

    open spec fn can_write(&self) -> bool {
        value_writable(self@)
    }

    open spec fn dbase_bytes(&self) -> Seq<u8> {
        value_bytes(self@)
    }

    fn field_type(&self) -> (r: FieldType) {
        FieldValue::field_type(self)
    }

    fn write_to(&self, dst: &mut Vec<u8>) {
        match self {
            FieldValue::Character(value) => push_opt_string(value, dst),
            FieldValue::Numeric(value) => push_opt_string(value, dst),
            FieldValue::Float(value) => push_opt_string(value, dst),
            FieldValue::Logical(value) => value.write_to(dst),
            FieldValue::Date(value) => match value {
                Some(d) => d.write_to(dst),
                None => {
                    let ghost start = dst@;
                    let mut i: usize = 0;
                    while i < 8
                        invariant
                            i <= 8,
                            dst@ == start + Seq::new(i as nat, |j: int| 0x20u8),
                        decreases 8 - i,
                    {
                        dst.push(0x20);
                        i = i + 1;
                        assert(dst@ =~= start + Seq::new(i as nat, |j: int| 0x20u8));
                    }
                },
            },
            FieldValue::Double(d) => push_u64_le(*d, dst),
            FieldValue::Integer(i) => push_i32_le(*i, dst),
            FieldValue::Memo(_text) => {
                assert(false);
            },
            FieldValue::Currency(c) => push_u64_le(*c, dst),
            FieldValue::DateTime(dt) => dt.write_to(dst),
        }
    }
}

impl WritableDbaseField for Date {
    open spec fn dbase_field_type(&self) -> FieldType {
        FieldType::Date
    }

    open spec fn can_write(&self) -> bool {
        true
    }

    open spec fn dbase_bytes(&self) -> Seq<u8> {
        date_text(self@)
    }

    fn field_type(&self) -> (r: FieldType) {
        FieldType::Date
    }

    fn write_to(&self, dst: &mut Vec<u8>) {
        self.push_text(dst);
    }
}

impl WritableDbaseField for Option<Date> {
    open spec fn dbase_field_type(&self) -> FieldType {
        FieldType::Date
    }

    open spec fn can_write(&self) -> bool {
        true
    }

    open spec fn dbase_bytes(&self) -> Seq<u8> {
        match self {
            Some(d) => date_text(d@),
            None => Seq::empty(),
        }
    }

    fn field_type(&self) -> (r: FieldType) {
        FieldType::Date
    }

    fn write_to(&self, dst: &mut Vec<u8>) {
        match self {
            Some(d) => d.push_text(dst),
            None => {
                assert(old(dst)@ + Seq::<u8>::empty() =~= old(dst)@);
            },
        }
    }
}

impl WritableDbaseField for bool {
    open spec fn dbase_field_type(&self) -> FieldType {
        FieldType::Logical
    }

    open spec fn can_write(&self) -> bool {
        true
    }

    open spec fn dbase_bytes(&self) -> Seq<u8> {
        seq![bool_byte(*self)]
    }

    fn field_type(&self) -> (r: FieldType) {
        FieldType::Logical
    }

    fn write_to(&self, dst: &mut Vec<u8>) {
        if *self {
            dst.push(0x74);
        } else {
            dst.push(0x66);
        }
        assert(final(dst)@ =~= old(dst)@ + seq![bool_byte(*self)]);
    }
}

impl WritableDbaseField for Option<bool> {
    open spec fn dbase_field_type(&self) -> FieldType {
        FieldType::Logical
    }

    open spec fn can_write(&self) -> bool {
        true
    }

    open spec fn dbase_bytes(&self) -> Seq<u8> {
        match self {
            Some(b) => seq![bool_byte(*b)],
            None => seq![0x3fu8],
        }
    }

    fn field_type(&self) -> (r: FieldType) {
        FieldType::Logical
    }

    fn write_to(&self, dst: &mut Vec<u8>) {
        match self {
            Some(value) => value.write_to(dst),
            None => {
                dst.push(0x3f);
                assert(final(dst)@ =~= old(dst)@ + seq![0x3fu8]);
            },
        }
    }
}

impl<'a> WritableDbaseField for &'a str {
    open spec fn dbase_field_type(&self) -> FieldType {
        FieldType::Character
    }

    open spec fn can_write(&self) -> bool {
        true
    }

    open spec fn dbase_bytes(&self) -> Seq<u8> {
        encode_utf8(self@)
    }

    fn field_type(&self) -> (r: FieldType) {
        FieldType::Character
    }

    fn write_to(&self, dst: &mut Vec<u8>) {
        push_str(*self, dst);
    }
}

impl WritableDbaseField for String {
    open spec fn dbase_field_type(&self) -> FieldType {
        FieldType::Character
    }

    open spec fn can_write(&self) -> bool {
        true
    }

    open spec fn dbase_bytes(&self) -> Seq<u8> {
        encode_utf8(self@)
    }

    fn field_type(&self) -> (r: FieldType) {
        FieldType::Character
    }

    fn write_to(&self, dst: &mut Vec<u8>) {
        push_str(self.as_str(), dst);
    }
}

impl WritableDbaseField for Option<String> {
    open spec fn dbase_field_type(&self) -> FieldType {
        FieldType::Character
    }

    open spec fn can_write(&self) -> bool {
        true
    }

    open spec fn dbase_bytes(&self) -> Seq<u8> {
        opt_text_bytes(crate::record::field::opt_string_view(*self))
    }

    fn field_type(&self) -> (r: FieldType) {
        FieldType::Character
    }

    fn write_to(&self, dst: &mut Vec<u8>) {
        push_opt_string(self, dst);
    }
}

impl WritableDbaseField for DateTime {
    open spec fn dbase_field_type(&self) -> FieldType {
        FieldType::DateTime
    }

    open spec fn can_write(&self) -> bool {
        datetime_in_range(self@)
    }

    open spec fn dbase_bytes(&self) -> Seq<u8> {
        datetime_bytes(self@)
    }

    fn field_type(&self) -> (r: FieldType) {
        FieldType::DateTime
    }

    fn write_to(&self, dst: &mut Vec<u8>) {
        DateTime::write_to(self, dst);
    }
}


impl WritableAsDbaseField for FieldValue {
    open spec fn can_write_as(&self, field_type: FieldType) -> bool {
        value_type(self@) == field_type ==> value_writable_as(self@)
    }

    open spec fn written_as(&self, field_type: FieldType) -> Option<Seq<u8>> {
        if value_type(self@) != field_type {
            None
        } else {
            Some(value_bytes_as(self@))
        }
    }

    fn write_as(&self, field_type: FieldType, dst: &mut Vec<u8>) -> (r: Result<(), Error>) {
        if self.field_type() != field_type {
            return Err(Error::IncompatibleType);
        }
        match self {
            FieldValue::Character(value) => value.write_as(field_type, dst),
            FieldValue::Numeric(value) => {
                match value {
                    Some(_) => {
                        assert(false);
                    },
                    None => {},
                }
                assert(final(dst)@ =~= old(dst)@ + Seq::<u8>::empty());
                Ok(())
            },
            FieldValue::Logical(value) => value.write_as(field_type, dst),
            FieldValue::Date(value) => value.write_as(field_type, dst),
            FieldValue::Float(value) => {
                push_opt_string(value, dst);
                Ok(())
            },
            FieldValue::Integer(value) => value.write_as(field_type, dst),
            FieldValue::Currency(value) => {
                push_u64_le(*value, dst);
                Ok(())
            },
            FieldValue::DateTime(value) => value.write_as(field_type, dst),
            FieldValue::Double(value) => {
                push_u64_le(*value, dst);
                Ok(())
            },
            FieldValue::Memo(_) => {
                assert(false);
                Ok(())
            },
        }
    }
}

impl WritableAsDbaseField for Date {
    open spec fn can_write_as(&self, field_type: FieldType) -> bool {
        true
    }

    open spec fn written_as(&self, field_type: FieldType) -> Option<Seq<u8>> {
        if field_type == FieldType::Date {
            Some(date_text(self@))
        } else {
            None
        }
    }

    fn write_as(&self, field_type: FieldType, dst: &mut Vec<u8>) -> (r: Result<(), Error>) {
        if field_type == FieldType::Date {
            self.push_text(dst);
            Ok(())
        } else {
            Err(Error::IncompatibleType)
        }
    }
}

impl WritableAsDbaseField for Option<Date> {
    open spec fn can_write_as(&self, field_type: FieldType) -> bool {
        true
    }

    open spec fn written_as(&self, field_type: FieldType) -> Option<Seq<u8>> {
        if field_type == FieldType::Date {
            Some(
                match self {
                    Some(d) => date_text(d@),
                    None => Seq::empty(),
                },
            )
        } else {
            None
        }
    }

    fn write_as(&self, field_type: FieldType, dst: &mut Vec<u8>) -> (r: Result<(), Error>) {
        if field_type == FieldType::Date {
            match self {
                Some(date) => {
                    date.write_as(field_type, dst)?;
                },
                None => {
                    assert(final(dst)@ =~= old(dst)@ + Seq::<u8>::empty());
                },
            }
            Ok(())
        } else {
            Err(Error::IncompatibleType)
        }
    }
}

impl WritableAsDbaseField for String {
    open spec fn can_write_as(&self, field_type: FieldType) -> bool {
        true
    }

    open spec fn written_as(&self, field_type: FieldType) -> Option<Seq<u8>> {
        if field_type == FieldType::Character {
            Some(encode_utf8(self@))
        } else {
            None
        }
    }

    fn write_as(&self, field_type: FieldType, dst: &mut Vec<u8>) -> (r: Result<(), Error>) {
        if field_type == FieldType::Character {
            push_str(self.as_str(), dst);
            Ok(())
        } else {
            Err(Error::IncompatibleType)
        }
    }
}

impl WritableAsDbaseField for Option<String> {
    open spec fn can_write_as(&self, field_type: FieldType) -> bool {
        true
    }

    open spec fn written_as(&self, field_type: FieldType) -> Option<Seq<u8>> {
        if field_type == FieldType::Character {
            Some(opt_text_bytes(crate::record::field::opt_string_view(*self)))
        } else {
            None
        }
    }

    fn write_as(&self, field_type: FieldType, dst: &mut Vec<u8>) -> (r: Result<(), Error>) {
        if field_type == FieldType::Character {
            match self {
                Some(s) => {
                    s.write_as(field_type, dst)?;
                },
                None => {
                    assert(final(dst)@ =~= old(dst)@ + Seq::<u8>::empty());
                },
            }
            Ok(())
        } else {
            Err(Error::IncompatibleType)
        }
    }
}

impl<'a> WritableAsDbaseField for &'a str {
    open spec fn can_write_as(&self, field_type: FieldType) -> bool {
        true
    }

    open spec fn written_as(&self, field_type: FieldType) -> Option<Seq<u8>> {
        if field_type == FieldType::Character {
            Some(encode_utf8(self@))
        } else {
            None
        }
    }

    fn write_as(&self, field_type: FieldType, dst: &mut Vec<u8>) -> (r: Result<(), Error>) {
        if field_type == FieldType::Character {
            push_str(*self, dst);
            Ok(())
        } else {
            Err(Error::IncompatibleType)
        }
    }
}

impl WritableAsDbaseField for bool {
    open spec fn can_write_as(&self, field_type: FieldType) -> bool {
        true
    }

    open spec fn written_as(&self, field_type: FieldType) -> Option<Seq<u8>> {
        if field_type == FieldType::Logical {
            Some(seq![bool_byte(*self)])
        } else {
            None
        }
    }

    fn write_as(&self, field_type: FieldType, dst: &mut Vec<u8>) -> (r: Result<(), Error>) {
        if field_type == FieldType::Logical {
            if *self {
                dst.push(0x74);
            } else {
                dst.push(0x66);
            }
            assert(final(dst)@ =~= old(dst)@ + seq![bool_byte(*self)]);
            Ok(())
        } else {
            Err(Error::IncompatibleType)
        }
    }
}

impl WritableAsDbaseField for Option<bool> {
    open spec fn can_write_as(&self, field_type: FieldType) -> bool {
        true
    }

    open spec fn written_as(&self, field_type: FieldType) -> Option<Seq<u8>> {
        if field_type == FieldType::Logical {
            Some(
                match self {
                    Some(b) => seq![bool_byte(*b)],
                    None => Seq::empty(),
                },
            )
        } else {
            None
        }
    }

    fn write_as(&self, field_type: FieldType, dst: &mut Vec<u8>) -> (r: Result<(), Error>) {
        if field_type == FieldType::Logical {
            match self {
                Some(v) => {
                    v.write_as(field_type, dst)?;
                },
                None => {
                    assert(final(dst)@ =~= old(dst)@ + Seq::<u8>::empty());
                },
            }
            Ok(())
        } else {
            Err(Error::IncompatibleType)
        }
    }
}

impl WritableAsDbaseField for i32 {
    open spec fn can_write_as(&self, field_type: FieldType) -> bool {
        true
    }

    open spec fn written_as(&self, field_type: FieldType) -> Option<Seq<u8>> {
        if field_type == FieldType::Integer {
            Some(spec_u32_to_le_bytes(*self as u32))
        } else {
            None
        }
    }

    fn write_as(&self, field_type: FieldType, dst: &mut Vec<u8>) -> (r: Result<(), Error>) {
        if field_type == FieldType::Integer {
            push_i32_le(*self, dst);
            Ok(())
        } else {
            Err(Error::IncompatibleType)
        }
    }
}

impl WritableAsDbaseField for DateTime {
    open spec fn can_write_as(&self, field_type: FieldType) -> bool {
        field_type == FieldType::DateTime ==> datetime_in_range(self@)
    }

    open spec fn written_as(&self, field_type: FieldType) -> Option<Seq<u8>> {
        if field_type == FieldType::DateTime {
            Some(datetime_bytes(self@))
        } else {
            None
        }
    }

    fn write_as(&self, field_type: FieldType, dst: &mut Vec<u8>) -> (r: Result<(), Error>) {
        if field_type == FieldType::DateTime {
            DateTime::write_to(self, dst);
            Ok(())
        } else {
            Err(Error::IncompatibleType)
        }
    }
}


/// Whether a field value is read back from the bytes it is written as: a text
/// neither blank nor padded with whitespace (and, for a number, not all `*`) that
/// fits in a field; a date of at most four year digits and two month and day
/// digits; a Gregorian date-time from the year 1 to the year 1000000 in whole
/// minutes and seconds; any logical or binary value. A memo is not written.
pub open spec fn reads_back(v: FieldValueView) -> bool {
    match v {
        FieldValueView::Character(Some(s)) => s.len() > 0 && is_trimmed(s) && encode_utf8(s).len()
            <= 255,
        FieldValueView::Numeric(Some(s)) => s.len() > 0 && is_trimmed(s) && !all_chars(s, '*')
            && encode_utf8(s).len() <= 255,
        FieldValueView::Float(Some(s)) => s.len() > 0 && is_trimmed(s) && !all_chars(s, '*')
            && encode_utf8(s).len() <= 255,
        FieldValueView::Date(Some(d)) => d.year <= 9999 && d.month <= 99 && d.day <= 99,
        FieldValueView::DateTime(dt) => {
            &&& is_valid_date(dt.date)
            &&& 1 <= dt.date.year <= 1_000_000
            &&& dt.time.minutes < 60
            &&& dt.time.seconds < 60
            &&& time_word(dt.time) <= i32::MAX
        },
        FieldValueView::Memo(_) => false,
        _ => true,
    }
}

/// What is written is read back: the bytes that a field value is written as,
/// read as a field of the value's type whose length is the number of bytes
/// written, give back the value, and the read takes all of those bytes.
pub proof fn lemma_written_value_reads_back(v: FieldValueView)
    requires
        reads_back(v),
    ensures
        value_writable(v),
        value_bytes(v).len() <= 255,
        read_len(value_type(v), value_bytes(v).len() as u8) == value_bytes(v).len(),
        field_in_range(value_bytes(v), value_type(v), value_bytes(v).len() as u8, None),
        field_value_of(value_bytes(v), value_type(v), value_bytes(v).len() as u8, None) == Ok::<
            FieldValueView,
            Error,
        >(v),
{
    let b = value_bytes(v);
    match v {
        FieldValueView::Character(o) => lemma_text_reads_back(o),
        FieldValueView::Numeric(o) => lemma_text_reads_back(o),
        FieldValueView::Float(o) => lemma_text_reads_back(o),
        FieldValueView::Logical(o) => {
            assert((0x74u8 as char) == 't');
            assert((0x66u8 as char) == 'f');
            assert((0x3fu8 as char) == '?');
        },
        FieldValueView::Date(o) => {
            match o {
                Some(d) => {
                    lemma_date_text_roundtrip(d);
                    lemma_date_text_digits(d);
                    lemma_ascii_decode(b);
                    lemma_ascii_char_boundaries(b, 4);
                    lemma_ascii_char_boundaries(b, 6);
                    lemma_ascii_char_boundaries(b, 8);
                    let chars = ascii_chars(b);
                    assert(is_digit(b[0]));
                    assert(chars[0] != ' ');
                },
                None => {
                    assert(is_ascii_bytes(b));
                    lemma_ascii_decode(b);
                },
            }
        },
        FieldValueView::Integer(i) => {
            lemma_i32_le_roundtrip(i);
            assert(b.subrange(0, 4) =~= b);
        },
        FieldValueView::Double(x) => {
            lemma_u64_le_roundtrip(x);
            assert(b.subrange(0, 8) =~= b);
        },
        FieldValueView::Currency(x) => {
            lemma_u64_le_roundtrip(x);
            assert(b.subrange(0, 8) =~= b);
        },
        FieldValueView::DateTime(dt) => {
            lemma_datetime_bytes_roundtrip(dt);
        },
        FieldValueView::Memo(_) => {},
    }
}

/// An optional text as the `reads_back` conditions ask is read back as it was
/// written.
proof fn lemma_text_reads_back(o: Option<Seq<char>>)
    requires
        o matches Some(s) ==> s.len() > 0 && is_trimmed(s) && encode_utf8(s).len() <= 255,
    ensures
        ({
            let b = opt_text_bytes(o);
            &&& b.len() <= 255
            &&& valid_utf8(b)
            &&& utf8_lossy(b) == (match o {
                Some(s) => s,
                None => Seq::<char>::empty(),
            })
            &&& trim(utf8_lossy(b)) == utf8_lossy(b)
        }),
{
    match o {
        Some(s) => {
            encode_utf8_valid_utf8(s);
            encode_utf8_decode_utf8(s);
            lemma_trim_of_trimmed(s);
        },
        None => {
            assert(decode_utf8(Seq::<u8>::empty()) =~= Seq::<char>::empty());
        },
    }
}


/// What `write_as` writes for a field value as its own type is read back as that
/// value: the bytes, read as a field of that type whose length is the number of
/// bytes written, give back the value. An unknown logical and an empty date write
/// nothing, and a known `Numeric` value does not return, so they are left out.
pub proof fn lemma_write_as_reads_back(v: FieldValue)
    requires
        reads_back(v@),
        !(v@ matches FieldValueView::Logical(None)),
        !(v@ matches FieldValueView::Date(None)),
        !(v@ matches FieldValueView::Numeric(Some(_))),
    ensures
        v.can_write_as(value_type(v@)),
        v.written_as(value_type(v@)) matches Some(bytes) && bytes.len() <= 255 && field_value_of(
            bytes,
            value_type(v@),
            bytes.len() as u8,
            None,
        ) == Ok::<FieldValueView, Error>(v@),
{
    lemma_written_value_reads_back(v@);
}

/// A field value written as another field type is refused and nothing is written;
/// as its own type it is written.
pub proof fn lemma_write_as_refuses_other_types(v: FieldValue, t: FieldType)
    ensures
        v.written_as(t) is None <==> t != value_type(v@),
{
}

/// A `bool` is written, by `write_to` and by `write_as` as a `Logical`, as the
/// byte of the logical field value it stands for, which reads back as it.
pub proof fn lemma_bool_written(b: bool)
    ensures
        b.dbase_bytes() == value_bytes(FieldValueView::Logical(Some(b))),
        b.written_as(FieldType::Logical) == Some(b.dbase_bytes()),
        field_value_of(b.dbase_bytes(), FieldType::Logical, 1, None) == Ok::<FieldValueView, Error>(
            FieldValueView::Logical(Some(b)),
        ),
{
    lemma_written_value_reads_back(FieldValueView::Logical(Some(b)));
}

/// An optional `bool` is written by `write_to` as the logical field value it stands
/// for, which reads back as it; `write_as` writes a known value the same way.
pub proof fn lemma_opt_bool_written(o: Option<bool>)
    ensures
        o.dbase_bytes() == value_bytes(FieldValueView::Logical(o)),
        field_value_of(o.dbase_bytes(), FieldType::Logical, 1, None) == Ok::<FieldValueView, Error>(
            FieldValueView::Logical(o),
        ),
        o is Some ==> o.written_as(FieldType::Logical) == Some(o.dbase_bytes()),
{
    lemma_written_value_reads_back(FieldValueView::Logical(o));
}

/// An `i32` is written as an `Integer` field, which reads back as it.
pub proof fn lemma_i32_written(n: i32)
    ensures
        n.written_as(FieldType::Integer) == Some(value_bytes(FieldValueView::Integer(n))),
        field_value_of(value_bytes(FieldValueView::Integer(n)), FieldType::Integer, 4, None)
            == Ok::<FieldValueView, Error>(FieldValueView::Integer(n)),
{
    lemma_written_value_reads_back(FieldValueView::Integer(n));
}

/// A date is written, by `write_to` and by `write_as` as a `Date`, as the date
/// field value it stands for; with at most four year digits and two month and day
/// digits it reads back as it from its eight bytes.
pub proof fn lemma_date_written(d: Date)
    ensures
        d.dbase_bytes() == value_bytes(FieldValueView::Date(Some(d@))),
        d.written_as(FieldType::Date) == Some(d.dbase_bytes()),
        d@.year <= 9999 && d@.month <= 99 && d@.day <= 99 ==> {
            &&& d.dbase_bytes().len() == 8
            &&& field_value_of(d.dbase_bytes(), FieldType::Date, 8, None) == Ok::<
                FieldValueView,
                Error,
            >(FieldValueView::Date(Some(d@)))
        },
{
    if d@.year <= 9999 && d@.month <= 99 && d@.day <= 99 {
        lemma_written_value_reads_back(FieldValueView::Date(Some(d@)));
        lemma_date_text_roundtrip(d@);
    }
}

/// A text is written, by `write_to` and by `write_as` as a `Character`, as its
/// UTF-8 bytes; a text that is neither blank nor padded reads back as it.
pub proof fn lemma_string_written(s: String)
    ensures
        s.dbase_bytes() == value_bytes(FieldValueView::Character(Some(s@))),
        s.written_as(FieldType::Character) == Some(s.dbase_bytes()),
        reads_back(FieldValueView::Character(Some(s@))) ==> field_value_of(
            s.dbase_bytes(),
            FieldType::Character,
            s.dbase_bytes().len() as u8,
            None,
        ) == Ok::<FieldValueView, Error>(FieldValueView::Character(Some(s@))),
{
    if reads_back(FieldValueView::Character(Some(s@))) {
        lemma_written_value_reads_back(FieldValueView::Character(Some(s@)));
    }
}

/// A date and time is written, by `write_to` and by `write_as` as a `DateTime`, as
/// the date-time field value it stands for, which reads back as it for a Gregorian
/// date from the year 1 to the year 1000000 in whole minutes and seconds.
pub proof fn lemma_datetime_written(dt: DateTime)
    ensures
        dt.dbase_bytes() == value_bytes(FieldValueView::DateTime(dt@)),
        dt.written_as(FieldType::DateTime) == Some(dt.dbase_bytes()),
        reads_back(FieldValueView::DateTime(dt@)) ==> field_value_of(
            dt.dbase_bytes(),
            FieldType::DateTime,
            8,
            None,
        ) == Ok::<FieldValueView, Error>(FieldValueView::DateTime(dt@)),
{
    if reads_back(FieldValueView::DateTime(dt@)) {
        lemma_written_value_reads_back(FieldValueView::DateTime(dt@));
    }
}
} // verus!
