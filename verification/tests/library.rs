use dbase::record::field::FieldValue as Value;
use dbase::record::field::{
    character_from_text, date_from_text, date_text_is_readable, memo_index_from_text,
    number_from_text,
};
use dbase::text::parse_u32;
use dbase::{
    ByteReader, Date, DateTime, Error, FieldInfo, FieldType, IntErrorKind, IoErrorKind,
    MemoFileType, MemoReader, ParseIntError, Time, WritableAsDbaseField, WritableDbaseField,
};

fn info(field_type: FieldType, len: u8) -> FieldInfo {
    FieldInfo::new(String::from("F"), field_type, len)
}

fn read(bytes: &[u8], field_type: FieldType, len: u8) -> Result<Value, Error> {
    let mut source = ByteReader::new(bytes.to_vec());
    let mut memo: Option<MemoReader> = None;
    checked_read(&mut source, &mut memo, &info(field_type, len))
}

fn checked_read(
    source: &mut ByteReader,
    memo: &mut Option<MemoReader>,
    info: &FieldInfo,
) -> Result<Value, Error> {
    assert!(Value::read_in_range(source, memo, info));
    Value::read_from(source, memo, info)
}

#[test]
fn field_type_codes_round_trip() {
    let all = [
        FieldType::Character,
        FieldType::Date,
        FieldType::Float,
        FieldType::Numeric,
        FieldType::Logical,
        FieldType::Currency,
        FieldType::DateTime,
        FieldType::Integer,
        FieldType::Double,
        FieldType::Memo,
    ];
    for t in all.iter() {
        let code = u8::from(*t);
        assert_eq!(FieldType::from(code as char), Some(*t));
    }
    assert_eq!(u8::from(FieldType::Character), b'C');
    assert_eq!(u8::from(FieldType::Double), b'B');
    assert_eq!(FieldType::from('X'), None);
    assert_eq!(FieldType::try_from('T'), Ok(FieldType::DateTime));
    assert_eq!(FieldType::try_from('x'), Err(Error::InvalidFieldType('x')));
}

#[test]
fn field_type_sizes() {
    assert_eq!(FieldType::Logical.size(), Some(1));
    assert_eq!(FieldType::Date.size(), Some(8));
    assert_eq!(FieldType::Integer.size(), Some(4));
    assert_eq!(FieldType::Currency.size(), Some(8));
    assert_eq!(FieldType::DateTime.size(), Some(8));
    assert_eq!(FieldType::Double.size(), Some(8));
    assert_eq!(FieldType::Character.size(), None);
    assert_eq!(FieldType::Memo.size(), None);
}

#[test]
fn logical_bytes() {
    for b in [b'1', b'0', b'T', b't', b'Y', b'y'].iter() {
        assert_eq!(read(&[*b], FieldType::Logical, 1), Ok(Value::Logical(Some(true))));
    }
    for b in [b'N', b'n', b'F', b'f'].iter() {
        assert_eq!(read(&[*b], FieldType::Logical, 1), Ok(Value::Logical(Some(false))));
    }
    for b in [b' ', b'?', b'x'].iter() {
        assert_eq!(read(&[*b], FieldType::Logical, 1), Ok(Value::Logical(None)));
    }
    assert_eq!(
        read(&[], FieldType::Logical, 1),
        Err(Error::IoError(IoErrorKind::UnexpectedEof))
    );
}

#[test]
fn logical_write_to_and_write_as() {
    let mut out = Vec::new();
    Value::Logical(None).write_to(&mut out);
    assert_eq!(out, b"?".to_vec());
    let mut out = Vec::new();
    Value::Logical(None).write_as(FieldType::Logical, &mut out).unwrap();
    assert!(out.is_empty());
    let mut out = Vec::new();
    Value::Logical(Some(true)).write_as(FieldType::Logical, &mut out).unwrap();
    Value::Logical(Some(false)).write_to(&mut out);
    assert_eq!(out, b"tf".to_vec());
}

#[test]
fn character_is_trimmed() {
    assert_eq!(
        read(b"  abc   ", FieldType::Character, 8),
        Ok(Value::Character(Some(String::from("abc"))))
    );
    let text = "\u{3000}x y\u{a0}";
    assert_eq!(
        read(text.as_bytes(), FieldType::Character, text.len() as u8),
        Ok(Value::Character(Some(String::from("x y"))))
    );
    assert_eq!(read(b"    ", FieldType::Character, 4), Ok(Value::Character(None)));
}

#[test]
fn character_invalid_utf8_is_replaced() {
    assert_eq!(
        read(&[0x61, 0xff, 0x62], FieldType::Character, 3),
        Ok(Value::Character(Some(String::from("a\u{FFFD}b"))))
    );
}

#[test]
fn character_short_source_fails() {
    let mut source = ByteReader::new(b"abc".to_vec());
    let mut memo: Option<MemoReader> = None;
    let r = Value::read_from(&mut source, &mut memo, &info(FieldType::Character, 5));
    assert_eq!(r, Err(Error::IoError(IoErrorKind::UnexpectedEof)));
    assert_eq!(source.position(), 3);
}

#[test]
fn numeric_text() {
    assert_eq!(
        read(b"  12.50", FieldType::Numeric, 7),
        Ok(Value::Numeric(Some(String::from("12.50"))))
    );
    assert_eq!(read(b"*****", FieldType::Numeric, 5), Ok(Value::Numeric(None)));
    assert_eq!(read(b"     ", FieldType::Float, 5), Ok(Value::Float(None)));
    assert_eq!(read(b" -1e3", FieldType::Float, 5), Ok(Value::Float(Some(String::from("-1e3")))));
}

#[test]
fn date_fields() {
    assert_eq!(
        read(b"20190720", FieldType::Date, 8),
        Ok(Value::Date(Some(Date::new(20, 7, 2019).unwrap())))
    );
    assert_eq!(read(b"        ", FieldType::Date, 8), Ok(Value::Date(None)));
    assert_eq!(
        read(b"2019ab20", FieldType::Date, 8),
        Err(Error::ParseIntError(ParseIntError { kind: IntErrorKind::InvalidDigit }))
    );
    // `+` is accepted in front of a number, as `u32::from_str` accepts it.
    assert_eq!(
        read(b"+2010102", FieldType::Date, 8),
        Ok(Value::Date(Some(Date::new(2, 1, 201).unwrap())))
    );
}

#[test]
fn date_text_off_a_char_boundary_is_refused_before_reading() {
    let bytes = "201é0101".as_bytes().to_vec();
    let source = ByteReader::new(bytes.clone());
    let memo: Option<MemoReader> = None;
    assert!(!Value::read_in_range(&source, &memo, &info(FieldType::Date, bytes.len() as u8)));
}

#[test]
fn integer_and_double_fields() {
    assert_eq!(read(&[0xb1, 0x05, 0, 0], FieldType::Integer, 4), Ok(Value::Integer(1457)));
    assert_eq!(read(&[0xff, 0xff, 0xff, 0xff], FieldType::Integer, 4), Ok(Value::Integer(-1)));
    let bits = 12.5f64.to_bits();
    assert_eq!(read(&bits.to_le_bytes(), FieldType::Double, 8), Ok(Value::Double(bits)));
    assert_eq!(read(&bits.to_le_bytes(), FieldType::Currency, 8), Ok(Value::Currency(bits)));
    let mut out = Vec::new();
    Value::Currency(bits).write_to(&mut out);
    assert_eq!(out, bits.to_le_bytes().to_vec());
}

#[test]
fn datetime_field_round_trip() {
    let mut bytes = Vec::new();
    bytes.extend_from_slice(&2458685i32.to_le_bytes());
    bytes.extend_from_slice(&3_723_000i32.to_le_bytes());
    let expected = DateTime::new(Date::new(20, 7, 2019).unwrap(), Time::new(1, 2, 3));
    assert_eq!(read(&bytes, FieldType::DateTime, 8), Ok(Value::DateTime(expected)));

    let mut out = Vec::new();
    assert!(expected.in_range());
    Value::DateTime(expected).write_to(&mut out);
    assert_eq!(out, bytes);
}

#[test]
fn time_words() {
    assert_eq!(Time::from_word(3_723_999), Time::new(1, 2, 3));
    assert_eq!(Time::new(1, 2, 3).to_time_word(), 3_723_000);
    assert_eq!(Time::new(24, 0, 0).to_time_word(), 86_400_000);
    assert_eq!(Time::from_word(-999), Time::new(0, 0, 0));
}

#[test]
fn julian_day_numbers() {
    let d = Date::julian_day_number_to_gregorian_date(2451545);
    assert_eq!((d.year(), d.month(), d.day()), (2000, 1, 1));
    assert_eq!(Date::new(1, 1, 2000).unwrap().to_julian_day_number(), 2451545);
    assert_eq!(Date::new(29, 2, 2000).unwrap().to_julian_day_number(), 2451604);
    let d = Date::julian_day_number_to_gregorian_date(2451604);
    assert_eq!((d.year(), d.month(), d.day()), (2000, 2, 29));
    assert!(Date::julian_day_number_in_range(2451545));
    assert!(!Date::julian_day_number_in_range(i32::MAX));
}

#[test]
fn date_new_checks_month_and_day() {
    assert_eq!(Date::new(32, 1, 2000), Err(Error::InvalidDate));
    assert_eq!(Date::new(1, 13, 2000), Err(Error::InvalidDate));
    let d = Date::new(31, 12, 2000).unwrap();
    assert_eq!((d.year(), d.month(), d.day()), (2000, 12, 31));
}

#[test]
fn date_text_round_trip() {
    let d = Date::new(5, 3, 7).unwrap();
    assert_eq!(d.to_string(), "00070305");
    assert!(Date::text_in_bounds("00070305"));
    assert_eq!(Date::from_str(&d.to_string()), Ok(d));
    assert_eq!(
        Date::from_str("        "),
        Err(ParseIntError { kind: IntErrorKind::InvalidDigit })
    );
}

#[test]
fn write_as_checks_the_type() {
    let mut out = Vec::new();
    assert_eq!(
        Value::Integer(7).write_as(FieldType::Date, &mut out),
        Err(Error::IncompatibleType)
    );
    assert!(out.is_empty());
    assert_eq!(Value::Integer(7).write_as(FieldType::Integer, &mut out), Ok(()));
    assert_eq!(out, vec![7, 0, 0, 0]);
    let mut out = Vec::new();
    assert_eq!(Value::Date(None).write_as(FieldType::Date, &mut out), Ok(()));
    assert!(out.is_empty());
    assert_eq!(true.write_as(FieldType::Character, &mut out), Err(Error::IncompatibleType));
    assert_eq!("abc".write_as(FieldType::Character, &mut out), Ok(()));
    assert_eq!(out, b"abc".to_vec());
}

#[test]
fn writable_field_types() {
    assert_eq!(WritableDbaseField::field_type(&true), FieldType::Logical);
    assert_eq!(WritableDbaseField::field_type(&String::from("a")), FieldType::Character);
    assert_eq!(WritableDbaseField::field_type(&Value::Numeric(None)), FieldType::Numeric);
    let mut out = Vec::new();
    Some(Date::new(1, 2, 2003).unwrap()).write_to(&mut out);
    let none: Option<Date> = None;
    none.write_to(&mut out);
    assert_eq!(out, b"20030201".to_vec());
}

fn dbase3_memo_file() -> Vec<u8> {
    let mut file = vec![0u8; 512 * 3];
    file[0..4].copy_from_slice(&3u32.to_le_bytes());
    // block size 0 stands for 512
    file[512..518].copy_from_slice(b"hello\x1a");
    file[1024..1029].copy_from_slice(b"world");
    file[1029] = 0x1a;
    file
}

#[test]
fn dbase3_memo() {
    let mut memo = MemoReader::new(MemoFileType::DbaseMemo, ByteReader::new(dbase3_memo_file())).unwrap();
    assert_eq!(memo.header().block_size, 512);
    assert_eq!(memo.header().next_available_block_index, 3);
    assert!(memo.data_at_in_range(1));
    assert_eq!(memo.read_data_at(1).unwrap(), b"hello".to_vec());
    assert_eq!(memo.read_data_at(2).unwrap(), b"world".to_vec());
}

#[test]
fn dbase3_memo_field_points_into_the_memo_file() {
    let memo = MemoReader::new(MemoFileType::DbaseMemo, ByteReader::new(dbase3_memo_file())).unwrap();
    let mut memo = Some(memo);
    let mut source = ByteReader::new(b"         2".to_vec());
    let value = checked_read(&mut source, &mut memo, &info(FieldType::Memo, 10)).unwrap();
    assert_eq!(value, Value::Memo(String::from("world")));
}

#[test]
fn fox_memo() {
    let mut file = vec![0u8; 64 * 2];
    file[0..4].copy_from_slice(&2u32.to_le_bytes());
    file[6..8].copy_from_slice(&64u16.to_be_bytes());
    file[64..68].copy_from_slice(&1u32.to_be_bytes());
    file[68..72].copy_from_slice(&8u32.to_be_bytes());
    file[72..75].copy_from_slice(b"abc");
    let mut memo = MemoReader::new(MemoFileType::FoxBaseMemo, ByteReader::new(file)).unwrap();
    assert_eq!(memo.header().block_size, 64);
    assert_eq!(memo.read_data_at(1).unwrap(), b"abc".to_vec());
}

#[test]
fn dbase4_memo() {
    let mut file = vec![0u8; 64 * 2];
    file[0..4].copy_from_slice(&2u32.to_le_bytes());
    file[4..6].copy_from_slice(&64u16.to_le_bytes());
    file[68..72].copy_from_slice(&10u32.to_le_bytes());
    file[72..82].copy_from_slice(b"memo text\x1f");
    let mut memo = MemoReader::new(MemoFileType::DbaseMemo4, ByteReader::new(file)).unwrap();
    assert!(memo.data_at_in_range(1));
    assert_eq!(memo.read_data_at(1).unwrap(), b"memo text".to_vec());
}

#[test]
fn memo_header_too_short() {
    let r = MemoReader::new(MemoFileType::FoxBaseMemo, ByteReader::new(vec![0u8; 7]));
    assert!(matches!(r, Err(Error::IoError(IoErrorKind::UnexpectedEof))));
}

#[test]
fn memo_fields_without_memo_file() {
    assert_eq!(read(b"          ", FieldType::Memo, 10), Ok(Value::Memo(String::new())));
    assert_eq!(read(&[1, 0, 0, 0], FieldType::Memo, 4), Err(Error::MissingMemoFile));
    assert_eq!(
        read(b"      12a ", FieldType::Memo, 10),
        Err(Error::ParseIntError(ParseIntError { kind: IntErrorKind::InvalidDigit }))
    );
}

#[test]
fn byte_reader_positions() {
    let mut r = ByteReader::new(vec![1, 2, 3]);
    assert_eq!(r.read_exact(2), Ok(vec![1, 2]));
    assert_eq!(r.position(), 2);
    assert_eq!(r.read_exact(2), Err(Error::IoError(IoErrorKind::UnexpectedEof)));
    assert_eq!(r.position(), 3);
    r.set_position(10);
    assert_eq!(r.read_exact(0), Ok(vec![]));
    assert_eq!(r.read_u8(), Err(Error::IoError(IoErrorKind::UnexpectedEof)));
    assert_eq!(r.position(), 10);
}

#[test]
fn decimal_text() {
    assert_eq!(parse_u32(b""), Err(ParseIntError { kind: IntErrorKind::Empty }));
    assert_eq!(parse_u32(b"+"), Err(ParseIntError { kind: IntErrorKind::InvalidDigit }));
    assert_eq!(parse_u32(b"-5"), Err(ParseIntError { kind: IntErrorKind::InvalidDigit }));
    assert_eq!(parse_u32(b"4294967295"), Ok(u32::MAX));
    assert_eq!(parse_u32(b"4294967296"), Err(ParseIntError { kind: IntErrorKind::PosOverflow }));
    assert_eq!(parse_u32(b"+0042"), Ok(42));
    let mut out = Vec::new();
    dbase::text::push_zero_padded(7, 3, &mut out);
    dbase::text::push_zero_padded(12345, 2, &mut out);
    assert_eq!(out, b"00712345".to_vec());
}

#[test]
fn values_from_decoded_text() {
    assert_eq!(character_from_text("  ab  "), Some(String::from("ab")));
    assert_eq!(character_from_text("\u{3000}x\t"), Some(String::from("x")));
    assert_eq!(character_from_text("   "), None);
    assert_eq!(character_from_text(""), None);

    assert_eq!(number_from_text(" 12.5 "), Some(String::from("12.5")));
    assert_eq!(number_from_text("****"), None);
    assert_eq!(number_from_text("    "), None);
    assert_eq!(number_from_text(" * "), Some(String::from("*")));

    assert_eq!(
        date_from_text("20190720"),
        Ok(Some(Date::new(20, 7, 2019).unwrap()))
    );
    assert_eq!(date_from_text("        "), Ok(None));
    assert_eq!(
        date_from_text("2019ab01"),
        Err(Error::ParseIntError(ParseIntError { kind: IntErrorKind::InvalidDigit }))
    );
    assert!(date_text_is_readable("20190720"));
    assert!(date_text_is_readable("  "));
    assert!(!date_text_is_readable("abc\u{e9}5678"));

    assert_eq!(memo_index_from_text("  12 "), Ok(Some(12)));
    assert_eq!(memo_index_from_text("    "), Ok(None));
    assert_eq!(
        memo_index_from_text(" x "),
        Err(Error::ParseIntError(ParseIntError { kind: IntErrorKind::InvalidDigit }))
    );
}
