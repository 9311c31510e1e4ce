//! Field types and field values: how each value is read from the bytes of a
//! record and written back.

use crate::endian::{read_i32_le, read_u32_le, read_u64_le};
use crate::error::{Error, IntErrorKind, IoErrorKind, ParseIntError};
use crate::reader::ByteReader;
use crate::record::datetime::{
    date_text_in_bounds, datetime_bytes_in_range, datetime_from_bytes, parse_date_text, Date,
    DateTime, DateTimeView, DateView,
};
use crate::record::memo::{memo_read, memo_read_in_range, MemoReader, MemoReaderView};
use crate::record::FieldInfo;
use crate::text::{
    ascii_chars, decimal_digits, decimal_len, is_ascii_bytes, is_digit, lemma_ascii_decode,
    lemma_decimal_digits, is_trimmed, is_whitespace, lemma_trim_empty, lemma_trim_shape, parse_u32, spec_parse_u32, str_trim, string_from_utf8_lossy,
    trim, utf8_lossy,
};
use vstd::bytes::*;
use vstd::prelude::*;
use vstd::slice::slice_subrange;
use vstd::std_specs::convert::{FromSpecImpl, TryFromSpecImpl};
use vstd::string::{StrSliceExecFns, StringSliceAdditionalSpecFns};
use vstd::utf8::*;

verus! {

/// The type of a field, as its descriptor names it with one character.
#[derive(Debug, Copy, Clone, PartialEq, Eq, Structural)]
pub enum FieldType {
    // dBASE III
    Character,
    Date,
    Float,
    Numeric,
    Logical,
    // Visual FoxPro
    Currency,
    DateTime,
    Integer,
    // Unknown
    Double,
    Memo,
}

/// The character that names a field type in a field descriptor.
pub open spec fn type_code(t: FieldType) -> char {
    match t {
        FieldType::Character => 'C',
        FieldType::Date => 'D',
        FieldType::Float => 'F',
        FieldType::Numeric => 'N',
        FieldType::Logical => 'L',
        FieldType::Currency => 'Y',
        FieldType::DateTime => 'T',
        FieldType::Integer => 'I',
        FieldType::Double => 'B',
        FieldType::Memo => 'M',
    }
}

/// The field type that the character `c` names, if any.
pub open spec fn field_type_of(c: char) -> Option<FieldType> {
    if c == 'C' {
        Some(FieldType::Character)
    } else if c == 'D' {
        Some(FieldType::Date)
    } else if c == 'F' {
        Some(FieldType::Float)
    } else if c == 'N' {
        Some(FieldType::Numeric)
    } else if c == 'L' {
        Some(FieldType::Logical)
    } else if c == 'Y' {
        Some(FieldType::Currency)
    } else if c == 'T' {
        Some(FieldType::DateTime)
    } else if c == 'I' {
        Some(FieldType::Integer)
    } else if c == 'B' {
        Some(FieldType::Double)
    } else if c == 'M' {
        Some(FieldType::Memo)
    } else {
        None
    }
}

/// The size in bytes of the field types whose size is fixed.
pub open spec fn fixed_size(t: FieldType) -> Option<u8> {
    match t {
        FieldType::Logical => Some(1u8),
        FieldType::Date => Some(8u8),
        FieldType::Integer => Some(4u8),
        FieldType::Currency => Some(8u8),
        FieldType::DateTime => Some(8u8),
        FieldType::Double => Some(8u8),
        _ => None,
    }
}

impl From<FieldType> for u8 {
    fn from(t: FieldType) -> (r: Self) {
        let v = match t {
            FieldType::Character => 'C',
            FieldType::Date => 'D',
            FieldType::Float => 'F',
            FieldType::Numeric => 'N',
            FieldType::Logical => 'L',
            FieldType::Currency => 'Y',
            FieldType::DateTime => 'T',
            FieldType::Integer => 'I',
            FieldType::Double => 'B',
            FieldType::Memo => 'M',
        };
        v as u8
    }
}

impl FromSpecImpl<FieldType> for u8 {
    open spec fn obeys_from_spec() -> bool {
        true
    }

    open spec fn from_spec(t: FieldType) -> u8 {
        type_code(t) as u8
    }
}

impl FieldType {
    /// The field type named by `c`, or `None` for a character that names none.
    pub fn from(c: char) -> (r: Option<FieldType>)
        ensures
            r == field_type_of(c),
    {
        match c {
            // dBASE III field types
            // All stored as strings
            'C' => Some(FieldType::Character),
            'D' => Some(FieldType::Date),
            'F' => Some(FieldType::Float),
            'N' => Some(FieldType::Numeric),
            'L' => Some(FieldType::Logical),
            // Visual FoxPro field types
            // stored in binary formats
            'Y' => Some(FieldType::Currency),
            'T' => Some(FieldType::DateTime),
            'I' => Some(FieldType::Integer),
            // unknown version
            'B' => Some(FieldType::Double),
            'M' => Some(FieldType::Memo),
            _ => None,
        }
    }

    /// The size in bytes of a field of this type, when the type fixes it.
    pub fn size(self) -> (r: Option<u8>)
        ensures
            r == fixed_size(self),
    {
        match self {
            FieldType::Logical => Some(1),
            FieldType::Date => Some(8),
            FieldType::Integer => Some(4),
            FieldType::Currency => Some(8),
            FieldType::DateTime => Some(8),
            FieldType::Double => Some(8),
            _ => None,
        }
    }
}

impl TryFrom<char> for FieldType {
    type Error = Error;

    fn try_from(c: char) -> (r: Result<Self, Self::Error>) {
        match Self::from(c) {
            Some(t) => Ok(t),
            None => Err(Error::InvalidFieldType(c)),
        }
    }
}

impl TryFromSpecImpl<char> for FieldType {
    open spec fn obeys_try_from_spec() -> bool {
        true
    }

    open spec fn try_from_spec(c: char) -> Result<Self, Error> {
        match field_type_of(c) {
            Some(t) => Ok(t),
            None => Err(Error::InvalidFieldType(c)),
        }
    }
}

/// Every field type is named by its code, and its code names it.
pub proof fn lemma_type_code_roundtrip(t: FieldType)
    ensures
        field_type_of(type_code(t)) == Some(t),
        (type_code(t) as u8) as char == type_code(t),
{
}

/// A character names a field type only if it is that type's code.
pub proof fn lemma_type_code_unique(c: char)
    ensures
        field_type_of(c) matches Some(t) ==> type_code(t) == c,
{
}


/// The value of a field.
///
/// Text fields keep their text; `Numeric` and `Float` keep the text of the number,
/// and `Currency` and `Double` the bits of the 64-bit float, as stored.
#[derive(Debug, PartialEq)]
pub enum FieldValue {
    // dBase III fields
    // Stored as strings, fully padded (ie only space char) strings
    // are interpreted as None
    Character(Option<String>),
    Numeric(Option<String>),
    Logical(Option<bool>),
    Date(Option<Date>),
    Float(Option<String>),
    //Visual FoxPro fields
    Integer(i32),
    Currency(u64),
    DateTime(DateTime),
    Double(u64),
    Memo(String),
}

/// A [`FieldValue`] with its strings and dates as their views.
pub enum FieldValueView {
    Character(Option<Seq<char>>),
    Numeric(Option<Seq<char>>),
    Logical(Option<bool>),
    Date(Option<DateView>),
    Float(Option<Seq<char>>),
    Integer(i32),
    Currency(u64),
    DateTime(DateTimeView),
    Double(u64),
    Memo(Seq<char>),
}

/// The view of an optional string.
pub open spec fn opt_string_view(o: Option<String>) -> Option<Seq<char>> {
    match o {
        Some(s) => Some(s@),
        None => None,
    }
}

/// The view of an optional date.
pub open spec fn opt_date_view(o: Option<Date>) -> Option<DateView> {
    match o {
        Some(d) => Some(d@),
        None => None,
    }
}

impl View for FieldValue {
    type V = FieldValueView;

    open spec fn view(&self) -> FieldValueView {
        match self {
            FieldValue::Character(o) => FieldValueView::Character(opt_string_view(*o)),
            FieldValue::Numeric(o) => FieldValueView::Numeric(opt_string_view(*o)),
            FieldValue::Logical(o) => FieldValueView::Logical(*o),
            FieldValue::Date(o) => FieldValueView::Date(opt_date_view(*o)),
            FieldValue::Float(o) => FieldValueView::Float(opt_string_view(*o)),
            FieldValue::Integer(i) => FieldValueView::Integer(*i),
            FieldValue::Currency(c) => FieldValueView::Currency(*c),
            FieldValue::DateTime(dt) => FieldValueView::DateTime(dt@),
            FieldValue::Double(d) => FieldValueView::Double(*d),
            FieldValue::Memo(m) => FieldValueView::Memo(m@),
        }
    }
}

/// The field type of a value.
pub open spec fn value_type(v: FieldValueView) -> FieldType {
    match v {
        FieldValueView::Character(_) => FieldType::Character,
        FieldValueView::Numeric(_) => FieldType::Numeric,
        FieldValueView::Logical(_) => FieldType::Logical,
        FieldValueView::Integer(_) => FieldType::Integer,
        FieldValueView::Float(_) => FieldType::Float,
        FieldValueView::Double(_) => FieldType::Double,
        FieldValueView::Date(_) => FieldType::Date,
        FieldValueView::Memo(_) => FieldType::Memo,
        FieldValueView::Currency(_) => FieldType::Currency,
        FieldValueView::DateTime(_) => FieldType::DateTime,
    }
}

/// Whether every character of `s` is `c` (true of the empty text).
pub open spec fn all_chars(s: Seq<char>, c: char) -> bool {
    forall|i: int| 0 <= i < s.len() ==> s[i] == c
}

/// The value of a `Logical` field byte: `' '` and `'?'` are unknown; `'1'`, `'0'`,
/// `'T'`, `'t'`, `'Y'`, `'y'` are true; `'N'`, `'n'`, `'F'`, `'f'` are false; any
/// other byte is unknown.
pub open spec fn logical_value(b: u8) -> Option<bool> {
    let c = b as char;
    if c == ' ' || c == '?' {
        None
    } else if c == '1' || c == '0' || c == 'T' || c == 't' || c == 'Y' || c == 'y' {
        Some(true)
    } else if c == 'N' || c == 'n' || c == 'F' || c == 'f' {
        Some(false)
    } else {
        None
    }
}

/// The value of a `Character` field whose decoded text is `v`: the text trimmed,
/// or `None` when nothing but whitespace is left.
pub open spec fn character_of_text(v: Seq<char>) -> Option<Seq<char>> {
    let t = trim(v);
    if t.len() == 0 {
        None
    } else {
        Some(t)
    }
}

/// The value of a `Character` field whose bytes are `b`.
pub open spec fn character_value(b: Seq<u8>) -> Option<Seq<char>> {
    character_of_text(utf8_lossy(b))
}

/// The number text of a `Numeric` or `Float` field whose decoded text is `v`: the
/// text trimmed, or `None` when it is blank or all `*` (an overflowed number).
pub open spec fn number_of_text(v: Seq<char>) -> Option<Seq<char>> {
    let t = trim(v);
    if t.len() == 0 || all_chars(v, '*') {
        None
    } else {
        Some(t)
    }
}

/// The number text of a `Numeric` or `Float` field whose bytes are `b`.
pub open spec fn number_text(b: Seq<u8>) -> Option<Seq<char>> {
    number_of_text(utf8_lossy(b))
}

/// The value of a `Date` field whose decoded text is `v`: `None` when the text is
/// all spaces, else the date read from `YYYYMMDD`.
pub open spec fn date_of_text(v: Seq<char>) -> Result<Option<DateView>, Error> {
    if all_chars(v, ' ') {
        Ok(None)
    } else {
        match parse_date_text(encode_utf8(v)) {
            Ok(d) => Ok(Some(d)),
            Err(k) => Err(Error::ParseIntError(ParseIntError { kind: k })),
        }
    }
}

/// Whether reading a date from the text `v` stays clear of slicing it off a
/// character boundary, which panics.
pub open spec fn date_text_readable(v: Seq<char>) -> bool {
    !all_chars(v, ' ') ==> date_text_in_bounds(encode_utf8(v))
}

/// The value of a `Date` field whose bytes are `b`.
pub open spec fn date_value(b: Seq<u8>) -> Result<Option<DateView>, Error> {
    date_of_text(utf8_lossy(b))
}

/// Whether reading a `Date` field from `b` stays clear of slicing its text off a
/// character boundary, which panics.
pub open spec fn date_value_in_range(b: Seq<u8>) -> bool {
    date_text_readable(utf8_lossy(b))
}

/// The block index written as the decoded text `v` of a memo field: the trimmed
/// text read as a decimal `u32`, or `None` when it is blank.
pub open spec fn memo_index_of_text(v: Seq<char>) -> Result<Option<u32>, Error> {
    let t = trim(v);
    if t.len() == 0 {
        Ok(None)
    } else {
        match spec_parse_u32(encode_utf8(t)) {
            Ok(i) => Ok(Some(i)),
            Err(k) => Err(Error::ParseIntError(ParseIntError { kind: k })),
        }
    }
}

/// The block index that a `Memo` field of length `len` holds in `b`: written as
/// decimal text in fields longer than four bytes, else a little-endian `u32`.
pub open spec fn memo_index(b: Seq<u8>, len: u8) -> Result<Option<u32>, Error> {
    if len > 4 {
        memo_index_of_text(utf8_lossy(b))
    } else {
        Ok(Some(spec_u32_from_le_bytes(b.subrange(0, 4))))
    }
}

/// A `Character` field reads as `None` exactly when its decoded text is nothing
/// but whitespace (an empty field included).
pub proof fn lemma_blank_character_is_none(b: Seq<u8>)
    ensures
        character_value(b) is None <==> forall|i: int|
            0 <= i < utf8_lossy(b).len() ==> is_whitespace(#[trigger] utf8_lossy(b)[i]),
{
    lemma_trim_empty(utf8_lossy(b));
}

/// The number of record bytes that reading a field takes.
pub open spec fn read_len(t: FieldType, len: u8) -> nat {
    match t {
        FieldType::Logical => 1,
        FieldType::Integer => 4,
        FieldType::Double => 8,
        FieldType::Currency => 8,
        FieldType::DateTime => 8,
        FieldType::Memo => if len > 4 {
            len as nat
        } else {
            4
        },
        _ => len as nat,
    }
}

/// The view of an optional memo reader.
pub open spec fn memo_view(m: Option<MemoReader>) -> Option<MemoReaderView> {
    match m {
        Some(r) => Some(r@),
        None => None,
    }
}

/// The value that the field bytes `b` hold for a field of type `t` and length
/// `len`, with the memo file `memo` for memo fields.
pub open spec fn field_value_of(
    b: Seq<u8>,
    t: FieldType,
    len: u8,
    memo: Option<MemoReaderView>,
) -> Result<FieldValueView, Error> {
    match t {
        FieldType::Logical => Ok(FieldValueView::Logical(logical_value(b[0]))),
        FieldType::Character => Ok(FieldValueView::Character(character_value(b))),
        FieldType::Numeric => Ok(FieldValueView::Numeric(number_text(b))),
        FieldType::Float => Ok(FieldValueView::Float(number_text(b))),
        FieldType::Date => match date_value(b) {
            Ok(d) => Ok(FieldValueView::Date(d)),
            Err(e) => Err(e),
        },
        FieldType::Integer => Ok(
            FieldValueView::Integer(spec_u32_from_le_bytes(b.subrange(0, 4)) as i32),
        ),
        FieldType::Double => Ok(FieldValueView::Double(spec_u64_from_le_bytes(b.subrange(0, 8)))),
        FieldType::Currency => Ok(
            FieldValueView::Currency(spec_u64_from_le_bytes(b.subrange(0, 8))),
        ),
        FieldType::DateTime => Ok(FieldValueView::DateTime(datetime_from_bytes(b))),
        FieldType::Memo => match memo_index(b, len) {
            Err(e) => Err(e),
            Ok(None) => Ok(FieldValueView::Memo(Seq::empty())),
            Ok(Some(i)) => match memo {
                None => Err(Error::MissingMemoFile),
                Some(m) => match memo_read(m, i).1 {
                    Err(e) => Err(e),
                    Ok(d) => Ok(FieldValueView::Memo(utf8_lossy(d))),
                },
            },
        },
    }
}

/// The memo file after reading a field: moved by the memo read for a memo field
/// that points into it, unchanged otherwise.
pub open spec fn memo_after(
    b: Seq<u8>,
    t: FieldType,
    len: u8,
    memo: Option<MemoReaderView>,
) -> Option<MemoReaderView> {
    match (t, memo_index(b, len), memo) {
        (FieldType::Memo, Ok(Some(i)), Some(m)) => Some(memo_read(m, i).0),
        _ => memo,
    }
}

/// Whether reading the field bytes `b` stays clear of what panics.
pub open spec fn field_in_range(
    b: Seq<u8>,
    t: FieldType,
    len: u8,
    memo: Option<MemoReaderView>,
) -> bool {
    match t {
        FieldType::Date => date_value_in_range(b),
        FieldType::DateTime => datetime_bytes_in_range(b),
        FieldType::Memo => match (memo_index(b, len), memo) {
            (Ok(Some(i)), Some(m)) => memo_read_in_range(m, i),
            _ => true,
        },
        _ => true,
    }
}

/// The view of the result of a read.
pub open spec fn read_result_view(r: Result<FieldValue, Error>) -> Result<FieldValueView, Error> {
    match r {
        Ok(v) => Ok(v@),
        Err(e) => Err(e),
    }
}

/// Reads `len` bytes and decodes them as `String::from_utf8_lossy` does.
pub fn read_string_of_len(source: &mut ByteReader, len: u8) -> (r: Result<String, Error>)
    ensures
        final(source).bytes() == old(source).bytes(),
        final(source).pos() == old(source).pos_after(len as nat),
        match r {
            Ok(s) => old(source).can_read(len as nat) && s@ == utf8_lossy(old(source).peek(len as nat)),
            Err(e) => !old(source).can_read(len as nat) && e == Error::IoError(
                IoErrorKind::UnexpectedEof,
            ),
        },
{
    let bytes = source.read_exact(len as usize)?;
    Ok(string_from_utf8_lossy(bytes.as_slice()))
}

/// Whether every character of `s` is `c`.
fn all_chars_are(s: &str, c: char) -> (r: bool)
    ensures
        r == all_chars(s@, c),
{
    let n = s.unicode_len();
    let mut i: usize = 0;
    while i < n
        invariant
            i <= n,
            n == s@.len(),
            forall|j: int| 0 <= j < i ==> s@[j] == c,
        decreases n - i,
    {
        if s.get_char(i) != c {
            return false;
        }
        i = i + 1;
    }
    true
}

/// Whether reading the field described by `info` from `src`, with the memo file
/// `memo`, stays clear of what panics.
pub open spec fn read_field_pre(src: ByteReader, info: FieldInfo, memo: Option<MemoReaderView>) -> bool {
    let n = read_len(info.field_type, info.field_length);
    src.can_read(n) ==> field_in_range(src.peek(n), info.field_type, info.field_length, memo)
}

/// What reading the field described by `info` does: the source moves past the
/// field's bytes (or to its end when they are missing), the value is the one its
/// bytes hold, and the memo file moves only for a memo that points into it.
pub open spec fn read_field_post(
    src0: ByteReader,
    src1: ByteReader,
    info: FieldInfo,
    memo0: Option<MemoReaderView>,
    memo1: Option<MemoReaderView>,
    r: Result<FieldValueView, Error>,
) -> bool {
    let t = info.field_type;
    let len = info.field_length;
    let n = read_len(t, len);
    let b = src0.peek(n);
    &&& src1.bytes() == src0.bytes()
    &&& src1.pos() == src0.pos_after(n)
    &&& if src0.can_read(n) {
        &&& r == field_value_of(b, t, len, memo0)
        &&& memo1 == memo_after(b, t, len, memo0)
    } else {
        &&& r == Err::<FieldValueView, Error>(Error::IoError(IoErrorKind::UnexpectedEof))
        &&& memo1 == memo0
    }
}

/// The value of a `Character` field whose decoded text is `text`: the text
/// trimmed, or `None` when nothing but whitespace is left.
pub fn character_from_text(text: &str) -> (r: Option<String>)
    ensures
        opt_string_view(r) == character_of_text(text@),
{
    let trimmed_value = str_trim(text);
    if trimmed_value.is_empty() {
        None
    } else {
        Some(trimmed_value.to_owned())
    }
}

/// The number text of a `Numeric` or `Float` field whose decoded text is `text`:
/// the text trimmed, or `None` when it is blank or all `*`.
pub fn number_from_text(text: &str) -> (r: Option<String>)
    ensures
        opt_string_view(r) == number_of_text(text@),
{
    let trimmed_value = str_trim(text);
    if trimmed_value.is_empty() || all_chars_are(text, '*') {
        None
    } else {
        Some(trimmed_value.to_owned())
    }
}

/// The value of a `Date` field whose decoded text is `text`: `None` when it is all
/// spaces, else the date read from `YYYYMMDD`.
pub fn date_from_text(text: &str) -> (r: Result<Option<Date>, Error>)
    requires
        date_text_readable(text@),
    ensures
        match date_of_text(text@) {
            Ok(Some(v)) => r matches Ok(Some(d)) && d@ == v,
            Ok(None) => r matches Ok(None),
            Err(e) => r == Err::<Option<Date>, Error>(e),
        },
{
    if all_chars_are(text, ' ') {
        Ok(None)
    } else {
        match Date::from_str(text) {
            Ok(d) => Ok(Some(d)),
            Err(e) => Err(Error::ParseIntError(e)),
        }
    }
}

/// Whether [`date_from_text`] can read `text` without slicing it off a character
/// boundary.
pub fn date_text_is_readable(text: &str) -> (r: bool)
    ensures
        r == date_text_readable(text@),
{
    all_chars_are(text, ' ') || Date::text_in_bounds(text)
}

/// The block index written as the decoded text `text` of a memo field: the
/// trimmed text read as a decimal `u32`, or `None` when it is blank.
pub fn memo_index_from_text(text: &str) -> (r: Result<Option<u32>, Error>)
    ensures
        r == memo_index_of_text(text@),
{
    let trimmed_str = str_trim(text);
    if trimmed_str.is_empty() {
        Ok(None)
    } else {
        match parse_u32(trimmed_str.as_bytes()) {
            Ok(i) => Ok(Some(i)),
            Err(e) => Err(Error::ParseIntError(e)),
        }
    }
}

/// Reads a `Logical` field.
fn read_logical(source: &mut ByteReader, field_info: &FieldInfo) -> (r: Result<FieldValue, Error>)
    requires
        field_info.field_type == FieldType::Logical,
    ensures
        read_field_post(*old(source), *final(source), *field_info, None, None, read_result_view(r)),
{
    let ghost s0 = *source;
    let b = source.read_u8()?;
    proof {
        assert(s0.peek(1)[0] == b);
    }
    let value = match b as char {
        ' ' | '?' => FieldValue::Logical(None),
        '1' | '0' | 'T' | 't' | 'Y' | 'y' => FieldValue::Logical(Some(true)),
        'N' | 'n' | 'F' | 'f' => FieldValue::Logical(Some(false)),
        _ => FieldValue::Logical(None),
    };
    Ok(value)
}

/// Reads a `Character` field.
fn read_character(source: &mut ByteReader, field_info: &FieldInfo) -> (r: Result<FieldValue, Error>)
    requires
        field_info.field_type == FieldType::Character,
    ensures
        read_field_post(*old(source), *final(source), *field_info, None, None, read_result_view(r)),
{
    let value = read_string_of_len(source, field_info.field_length)?;
    Ok(FieldValue::Character(character_from_text(value.as_str())))
}

/// Reads the text of a `Numeric` or `Float` field.
fn read_number_text(source: &mut ByteReader, len: u8) -> (r: Result<Option<String>, Error>)
    ensures
        final(source).bytes() == old(source).bytes(),
        final(source).pos() == old(source).pos_after(len as nat),
        match r {
            Ok(o) => old(source).can_read(len as nat) && opt_string_view(o) == number_text(
                old(source).peek(len as nat),
            ),
            Err(e) => !old(source).can_read(len as nat) && e == Error::IoError(
                IoErrorKind::UnexpectedEof,
            ),
        },
{
    let value = read_string_of_len(source, len)?;
    Ok(number_from_text(value.as_str()))
}

/// Reads a `Date` field.
fn read_date(source: &mut ByteReader, field_info: &FieldInfo) -> (r: Result<FieldValue, Error>)
    requires
        field_info.field_type == FieldType::Date,
        read_field_pre(*old(source), *field_info, None),
    ensures
        read_field_post(*old(source), *final(source), *field_info, None, None, read_result_view(r)),
{
    let value = read_string_of_len(source, field_info.field_length)?;
    let d = date_from_text(value.as_str())?;
    Ok(FieldValue::Date(d))
}

/// Reads a field of one of the binary types: `Integer`, `Double`, `Currency`,
/// `DateTime`.
fn read_binary(source: &mut ByteReader, field_info: &FieldInfo) -> (r: Result<FieldValue, Error>)
    requires
        field_info.field_type == FieldType::Integer || field_info.field_type == FieldType::Double
            || field_info.field_type == FieldType::Currency || field_info.field_type
            == FieldType::DateTime,
        read_field_pre(*old(source), *field_info, None),
    ensures
        read_field_post(*old(source), *final(source), *field_info, None, None, read_result_view(r)),
{
    match field_info.field_type {
        FieldType::Integer => {
            let b = source.read_exact(4)?;
            proof {
                assert(b@.subrange(0, 4) =~= b@);
            }
            Ok(FieldValue::Integer(read_i32_le(b.as_slice())))
        },
        FieldType::Double => {
            let b = source.read_exact(8)?;
            proof {
                assert(b@.subrange(0, 8) =~= b@);
            }
            Ok(FieldValue::Double(read_u64_le(b.as_slice())))
        },
        FieldType::Currency => {
            let b = source.read_exact(8)?;
            proof {
                assert(b@.subrange(0, 8) =~= b@);
            }
            Ok(FieldValue::Currency(read_u64_le(b.as_slice())))
        },
        _ => {
            let dt = DateTime::read_from(source)?;
            Ok(FieldValue::DateTime(dt))
        },
    }
}

/// The block index that the bytes `b` of a memo field of length `len` hold, as
/// [`memo_index`] gives it.
fn memo_index_of(b: &[u8], len: u8) -> (r: Result<Option<u32>, Error>)
    requires
        b@.len() == read_len(FieldType::Memo, len),
    ensures
        r == memo_index(b@, len),
{
    if len > 4 {
        let string = string_from_utf8_lossy(b);
        memo_index_from_text(string.as_str())
    } else {
        proof {
            assert(b@.subrange(0, 4) =~= b@);
        }
        Ok(Some(read_u32_le(b)))
    }
}

/// Reads a `Memo` field: the block index, then the memo at that block.
fn read_memo(
    source: &mut ByteReader,
    memo_reader: &mut Option<MemoReader>,
    field_info: &FieldInfo,
) -> (r: Result<FieldValue, Error>)
    requires
        field_info.field_type == FieldType::Memo,
        read_field_pre(*old(source), *field_info, memo_view(*old(memo_reader))),
    ensures
        read_field_post(
            *old(source),
            *final(source),
            *field_info,
            memo_view(*old(memo_reader)),
            memo_view(*final(memo_reader)),
            read_result_view(r),
        ),
{
    let len = field_info.field_length;
    let n: usize = if len > 4 {
        len as usize
    } else {
        4
    };
    let b = source.read_exact(n)?;
    let index_in_memo = match memo_index_of(b.as_slice(), len)? {
        None => {
            return Ok(FieldValue::Memo(String::new()));
        },
        Some(i) => i,
    };
    match memo_reader {
        Some(memo_reader) => {
            let data_from_memo = memo_reader.read_data_at(index_in_memo)?;
            Ok(FieldValue::Memo(string_from_utf8_lossy(data_from_memo.as_slice())))
        },
        None => Err(Error::MissingMemoFile),
    }
}

impl FieldValue {
    /// Reads the value of the field described by `field_info` from `source`; a memo
    /// field is read from `memo_reader`.
    pub fn read_from(
        source: &mut ByteReader,
        memo_reader: &mut Option<MemoReader>,
        field_info: &FieldInfo,
    ) -> (r: Result<Self, Error>)
        requires
            read_field_pre(*old(source), *field_info, memo_view(*old(memo_reader))),
        ensures
            read_field_post(
                *old(source),
                *final(source),
                *field_info,
                memo_view(*old(memo_reader)),
                memo_view(*final(memo_reader)),
                read_result_view(r),
            ),
    {
        let ghost m0 = memo_view(*memo_reader);
        let ghost s0 = *source;
        match field_info.field_type {
            FieldType::Logical => {
                let r = read_logical(source, field_info);
                assert(read_field_post(s0, *source, *field_info, m0, m0, read_result_view(r)));
                r
            },
            FieldType::Character => {
                let r = read_character(source, field_info);
                assert(read_field_post(s0, *source, *field_info, m0, m0, read_result_view(r)));
                r
            },
            FieldType::Numeric => {
                let o = read_number_text(source, field_info.field_length)?;
                Ok(FieldValue::Numeric(o))
            },
            FieldType::Float => {
                let o = read_number_text(source, field_info.field_length)?;
                Ok(FieldValue::Float(o))
            },
            FieldType::Date => {
                let r = read_date(source, field_info);
                assert(read_field_post(s0, *source, *field_info, m0, m0, read_result_view(r)));
                r
            },
            FieldType::Memo => read_memo(source, memo_reader, field_info),
            _ => {
                let r = read_binary(source, field_info);
                assert(read_field_post(s0, *source, *field_info, m0, m0, read_result_view(r)));
                r
            },
        }
    }

    /// The number of record bytes that reading the field described by `field_info`
    /// takes.
    pub fn bytes_to_read(field_info: &FieldInfo) -> (r: usize)
        ensures
            r == read_len(field_info.field_type, field_info.field_length),
    {
        let len = field_info.field_length;
        match field_info.field_type {
            FieldType::Logical => 1,
            FieldType::Integer => 4,
            FieldType::Double | FieldType::Currency | FieldType::DateTime => 8,
            FieldType::Memo => if len > 4 {
                len as usize
            } else {
                4
            },
            _ => len as usize,
        }
    }

    /// Whether reading the field described by `field_info` from `source`, with the
    /// memo file `memo_reader`, stays clear of what panics: a date text sliced off a
    /// character boundary, a date-time word that overflows, a memo read out of range.
    pub fn read_in_range(
        source: &ByteReader,
        memo_reader: &Option<MemoReader>,
        field_info: &FieldInfo,
    ) -> (r: bool)
        ensures
            r == read_field_pre(*source, *field_info, memo_view(*memo_reader)),
    {
        let len = field_info.field_length;
        let n = Self::bytes_to_read(field_info);
        let b = match source.peek_exact(n) {
            Some(b) => b,
            None => {
                return true;
            },
        };
        match field_info.field_type {
            FieldType::Date => {
                let value = string_from_utf8_lossy(b.as_slice());
                date_text_is_readable(value.as_str())
            },
            FieldType::DateTime => {
                proof {
                    assert(b@.subrange(0, 4).subrange(0, 4) =~= b@.subrange(0, 4));
                    assert(b@.subrange(4, 8).subrange(0, 4) =~= b@.subrange(4, 8));
                }
                let jdn = read_i32_le(slice_subrange(b.as_slice(), 0, 4));
                let word = read_i32_le(slice_subrange(b.as_slice(), 4, 8));
                Date::julian_day_number_in_range(jdn) && word > -60_000
            },
            FieldType::Memo => match (memo_index_of(b.as_slice(), len), memo_reader) {
                (Ok(Some(i)), Some(m)) => m.data_at_in_range(i),
                _ => true,
            },
            _ => true,
        }
    }

    /// The field type of the value.
    pub fn field_type(&self) -> (r: FieldType)
        ensures
            r == value_type(self@),
    {
        match self {
            FieldValue::Character(_) => FieldType::Character,
            FieldValue::Numeric(_) => FieldType::Numeric,
            FieldValue::Logical(_) => FieldType::Logical,
            FieldValue::Integer(_) => FieldType::Integer,
            FieldValue::Float(_) => FieldType::Float,
            FieldValue::Double(_) => FieldType::Double,
            FieldValue::Date(_) => FieldType::Date,
            FieldValue::Memo(_) => FieldType::Memo,
            FieldValue::Currency(_) => FieldType::Currency,
            FieldValue::DateTime(_) => FieldType::DateTime,
        }
    }
}


/// The code letters of the field types, as field descriptors write them: `C`
/// Character, `D` Date, `F` Float, `N` Numeric, `L` Logical, `Y` Currency, `T`
/// DateTime, `I` Integer, `B` Double, `M` Memo. Every other character names no
/// field type.
pub proof fn lemma_field_type_codes(c: char)
    ensures
        field_type_of(c) == Some(FieldType::Character) <==> c == 'C',
        field_type_of(c) == Some(FieldType::Date) <==> c == 'D',
        field_type_of(c) == Some(FieldType::Float) <==> c == 'F',
        field_type_of(c) == Some(FieldType::Numeric) <==> c == 'N',
        field_type_of(c) == Some(FieldType::Logical) <==> c == 'L',
        field_type_of(c) == Some(FieldType::Currency) <==> c == 'Y',
        field_type_of(c) == Some(FieldType::DateTime) <==> c == 'T',
        field_type_of(c) == Some(FieldType::Integer) <==> c == 'I',
        field_type_of(c) == Some(FieldType::Double) <==> c == 'B',
        field_type_of(c) == Some(FieldType::Memo) <==> c == 'M',
        field_type_of(c) is None <==> !(c == 'C' || c == 'D' || c == 'F' || c == 'N' || c == 'L'
            || c == 'Y' || c == 'T' || c == 'I' || c == 'B' || c == 'M'),
{
}

/// The byte that names each field type in a field descriptor (what `u8::from`
/// gives): the ASCII code of its letter.
pub proof fn lemma_field_type_bytes(t: FieldType)
    ensures
        (type_code(t) as u8 == 0x43) <==> t == FieldType::Character,
        (type_code(t) as u8 == 0x44) <==> t == FieldType::Date,
        (type_code(t) as u8 == 0x46) <==> t == FieldType::Float,
        (type_code(t) as u8 == 0x4e) <==> t == FieldType::Numeric,
        (type_code(t) as u8 == 0x4c) <==> t == FieldType::Logical,
        (type_code(t) as u8 == 0x59) <==> t == FieldType::Currency,
        (type_code(t) as u8 == 0x54) <==> t == FieldType::DateTime,
        (type_code(t) as u8 == 0x49) <==> t == FieldType::Integer,
        (type_code(t) as u8 == 0x42) <==> t == FieldType::Double,
        (type_code(t) as u8 == 0x4d) <==> t == FieldType::Memo,
{
}

/// Every value reports the field type of its own variant.
pub proof fn lemma_value_type_is_variant(v: FieldValueView)
    ensures
        value_type(v) == FieldType::Character <==> v is Character,
        value_type(v) == FieldType::Numeric <==> v is Numeric,
        value_type(v) == FieldType::Logical <==> v is Logical,
        value_type(v) == FieldType::Date <==> v is Date,
        value_type(v) == FieldType::Float <==> v is Float,
        value_type(v) == FieldType::Integer <==> v is Integer,
        value_type(v) == FieldType::Currency <==> v is Currency,
        value_type(v) == FieldType::DateTime <==> v is DateTime,
        value_type(v) == FieldType::Double <==> v is Double,
        value_type(v) == FieldType::Memo <==> v is Memo,
{
}

/// A field of type `t` that is read successfully gives a value whose field type
/// is `t`.
pub proof fn lemma_read_value_has_field_type(
    b: Seq<u8>,
    t: FieldType,
    len: u8,
    memo: Option<MemoReaderView>,
)
    ensures
        field_value_of(b, t, len, memo) matches Ok(v) ==> value_type(v) == t,
{
}

/// A memo field of at most four bytes holds its block index as a little-endian
/// `u32`: the index found is the one whose little-endian bytes are the field's
/// four bytes.
pub proof fn lemma_short_memo_index_is_le(b: Seq<u8>, len: u8)
    requires
        len <= 4,
        b.len() == 4,
    ensures
        memo_index(b, len) matches Ok(Some(i)) && spec_u32_to_le_bytes(i) == b,
{
    lemma_auto_spec_u32_to_from_le_bytes();
    assert(b.subrange(0, 4) =~= b);
}

/// The bytes of a `Logical` field: `1`, `0`, `T`, `t`, `Y`, `y` read as true; `N`,
/// `n`, `F`, `f` as false; every other byte (`?` and space among them) as unknown.
pub proof fn lemma_logical_bytes(b: u8)
    ensures
        logical_value(b) == Some(true) <==> (b == 0x31 || b == 0x30 || b == 0x54 || b == 0x74
            || b == 0x59 || b == 0x79),
        logical_value(b) == Some(false) <==> (b == 0x4e || b == 0x6e || b == 0x46 || b == 0x66),
        logical_value(b) is None <==> !(b == 0x31 || b == 0x30 || b == 0x54 || b == 0x74 || b
            == 0x59 || b == 0x79 || b == 0x4e || b == 0x6e || b == 0x46 || b == 0x66),
{
    assert((0x31u8 as char) == '1' && (0x30u8 as char) == '0' && (0x54u8 as char) == 'T');
    assert((0x74u8 as char) == 't' && (0x59u8 as char) == 'Y' && (0x79u8 as char) == 'y');
    assert((0x4eu8 as char) == 'N' && (0x6eu8 as char) == 'n' && (0x46u8 as char) == 'F');
    assert((0x66u8 as char) == 'f' && (0x20u8 as char) == ' ' && (0x3fu8 as char) == '?');
}

/// A `Character` field reads as the run of its decoded text that is left when the
/// whitespace around it is removed: a non-empty text that neither starts nor ends
/// with whitespace, found in the field with only whitespace before and after it.
pub proof fn lemma_character_value_is_trimmed_text(b: Seq<u8>)
    ensures
        character_value(b) matches Some(t) ==> {
            let v = utf8_lossy(b);
            &&& t.len() > 0
            &&& is_trimmed(t)
            &&& exists|i: int|
                0 <= i && i + t.len() <= v.len() && #[trigger] v.subrange(i, i + t.len()) == t
                    && (forall|k: int| 0 <= k < i ==> is_whitespace(#[trigger] v[k])) && (forall|k: int|
                    i + t.len() <= k < v.len() ==> is_whitespace(#[trigger] v[k]))
        },
{
    let v = utf8_lossy(b);
    let (i, j) = lemma_trim_shape(v);
    if let Some(t) = character_value(b) {
        assert(v.subrange(i, i + t.len()) == t);
    }
}

/// A `Numeric` or `Float` field reads as the run of its decoded text left when the
/// whitespace around it is removed, unless that run is empty or the whole text is
/// `*` (an overflowed number), which read as `None`.
pub proof fn lemma_number_text_is_trimmed_text(b: Seq<u8>)
    ensures
        number_text(b) matches Some(t) ==> {
            let v = utf8_lossy(b);
            &&& t.len() > 0
            &&& is_trimmed(t)
            &&& !all_chars(v, '*')
            &&& exists|i: int|
                0 <= i && i + t.len() <= v.len() && #[trigger] v.subrange(i, i + t.len()) == t
                    && (forall|k: int| 0 <= k < i ==> is_whitespace(#[trigger] v[k])) && (forall|k: int|
                    i + t.len() <= k < v.len() ==> is_whitespace(#[trigger] v[k]))
        },
        number_text(b) is None <==> (all_chars(utf8_lossy(b), '*') || forall|k: int|
            0 <= k < utf8_lossy(b).len() ==> is_whitespace(#[trigger] utf8_lossy(b)[k])),
{
    let v = utf8_lossy(b);
    let (i, j) = lemma_trim_shape(v);
    lemma_trim_empty(v);
    if let Some(t) = number_text(b) {
        assert(v.subrange(i, i + t.len()) == t);
    }
}

/// A `Date` field that reads as a date holds the year in its bytes 0..4, the month
/// in 4..6 and the day in 6..8, each a decimal number; a field of spaces reads as
/// no date.
pub proof fn lemma_date_value_fields(b: Seq<u8>)
    ensures
        date_value(b) matches Ok(Some(d)) ==> {
            let e = encode_utf8(utf8_lossy(b));
            &&& spec_parse_u32(e.subrange(0, 4)) == Ok::<u32, IntErrorKind>(d.year)
            &&& spec_parse_u32(e.subrange(4, 6)) == Ok::<u32, IntErrorKind>(d.month)
            &&& spec_parse_u32(e.subrange(6, 8)) == Ok::<u32, IntErrorKind>(d.day)
        },
        all_chars(utf8_lossy(b), ' ') ==> date_value(b) == Ok::<Option<DateView>, Error>(None),
{
}

/// A memo field longer than four bytes holds its block index as decimal digits
/// with spaces before and after them: such a field reads as that index.
pub proof fn lemma_long_memo_index_is_decimal(i: u32, before: nat, after: nat)
    requires
        before + decimal_len(i as nat) + after > 4,
        before + decimal_len(i as nat) + after <= 255,
    ensures
        ({
            let b = Seq::new(before, |k: int| 0x20u8) + decimal_digits(i as nat) + Seq::new(
                after,
                |k: int| 0x20u8,
            );
            memo_index(b, b.len() as u8) == Ok::<Option<u32>, Error>(Some(i))
        }),
{
    lemma_decimal_digits(i as nat);
    let digits = decimal_digits(i as nat);
    let n = digits.len() as int;
    let b = Seq::new(before, |k: int| 0x20u8) + digits + Seq::new(after, |k: int| 0x20u8);
    assert forall|k: int| 0 <= k < b.len() implies #[trigger] b[k] < 0x80 by {
        if before <= k < before + n {
            assert(b[k] == digits[k - before]);
            assert(is_digit(digits[k - before]));
        }
    }
    assert(is_ascii_bytes(b));
    lemma_ascii_decode(b);
    let v = ascii_chars(b);
    assert(utf8_lossy(b) == v);
    let (i0, j0) = lemma_trim_shape(v);
    assert forall|k: int| 0 <= k < v.len() implies (is_whitespace(#[trigger] v[k]) <==> !(before
        <= k < before + n)) by {
        if before <= k < before + n {
            assert(b[k] == digits[k - before]);
            assert(is_digit(digits[k - before]));
        } else {
            assert(b[k] == 0x20u8);
            assert((0x20u8 as char) == ' ');
        }
    }
    assert(!is_whitespace(v[before as int]));
    assert(!is_whitespace(v[before + n - 1]));
    assert(i0 <= before);
    assert(j0 >= before + n);
    assert(i0 == before) by {
        if i0 < before {
            assert(trim(v)[0] == v[i0]);
        }
    }
    assert(j0 == before + n) by {
        if j0 > before + n {
            assert(trim(v)[j0 - i0 - 1] == v[j0 - 1]);
        }
    }
    let t = trim(v);
    assert(t =~= ascii_chars(digits));
    assert(is_ascii_bytes(digits)) by {
        assert forall|k: int| 0 <= k < digits.len() implies #[trigger] digits[k] < 0x80 by {
            assert(is_digit(digits[k]));
        }
    }
    lemma_ascii_decode(digits);
    assert(is_digit(digits[0]));
}
} // verus!
