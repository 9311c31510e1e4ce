use dbase::{ByteReader, Date, FieldInfo, FieldType, FieldValue, MemoReader, WritableDbaseField};

fn create_temp_record_field_info(field_type: FieldType, len: u8) -> FieldInfo {
    FieldInfo::new("".to_owned(), field_type, len)
}

fn read_back(bytes: Vec<u8>, info: &FieldInfo) -> FieldValue {
    let mut source = ByteReader::new(bytes);
    let mut memo: Option<MemoReader> = None;
    FieldValue::read_from(&mut source, &mut memo, info).unwrap()
}

#[test]
fn write_read_date() {
    let date = FieldValue::Date(Some(Date::new(01, 01, 2019).unwrap()));

    let mut out = Vec::<u8>::new();
    date.write_to(&mut out);
    assert_eq!(out.len() as u64, u64::from(FieldType::Date.size().unwrap()));

    let record_info = create_temp_record_field_info(FieldType::Date, out.len() as u8);

    match read_back(out, &record_info) {
        FieldValue::Date(Some(read_date)) => {
            assert_eq!(read_date.year(), 2019);
            assert_eq!(read_date.month(), 1);
            assert_eq!(read_date.day(), 1);
        }
        _ => assert!(false, "Did not read a date ??"),
    }
}

#[test]
fn test_write_read_empty_date() {
    let date = FieldValue::Date(None);

    let mut out = Vec::<u8>::new();
    date.write_to(&mut out);
    assert_eq!(out.len() as u64, u64::from(FieldType::Date.size().unwrap()));

    let record_info = create_temp_record_field_info(FieldType::Date, out.len() as u8);

    match read_back(out, &record_info) {
        FieldValue::Date(maybe_date) => assert!(maybe_date.is_none()),
        _ => assert!(false, "Did not read a date ??"),
    }
}

#[test]
fn write_read_ascii_char() {
    let field = FieldValue::Character(Some(String::from("Only ASCII")));
    let mut out = Vec::<u8>::new();
    field.write_to(&mut out);

    let record_info = create_temp_record_field_info(FieldType::Character, out.len() as u8);

    match read_back(out, &record_info) {
        FieldValue::Character(s) => {
            assert_eq!(s, Some(String::from("Only ASCII")));
        }
        _ => assert!(false, "Did not read a Character field ??"),
    }
}

#[test]
fn write_read_utf8_char() {
    let field = FieldValue::Character(Some(String::from("🤔")));

    let mut out = Vec::<u8>::new();
    field.write_to(&mut out);

    let record_info = create_temp_record_field_info(FieldType::Character, out.len() as u8);

    match read_back(out, &record_info) {
        FieldValue::Character(s) => {
            assert_eq!(s, Some(String::from("🤔")));
        }
        _ => assert!(false, "Did not read a Character field ??"),
    }
}

#[test]
fn test_from_julian_day_number() {
    let date = Date::julian_day_number_to_gregorian_date(2458685);
    assert_eq!(date.year(), 2019);
    assert_eq!(date.month(), 07);
    assert_eq!(date.day(), 20);
}

#[test]
fn test_to_julian_day_number() {
    let date = Date::new(20, 07, 2019).unwrap();
    assert_eq!(date.to_julian_day_number(), 2458685);
}

#[test]
fn write_read_float() {
    // A float field holds the text of its number.
    let field = FieldValue::Float(Some(format!("{}", 12.43f32)));

    let mut out = Vec::<u8>::new();
    field.write_to(&mut out);

    let record_info = create_temp_record_field_info(FieldType::Float, out.len() as u8);

    match read_back(out, &record_info) {
        FieldValue::Float(s) => {
            assert_eq!(s.map(|t| t.parse::<f32>().unwrap()), Some(12.43));
        }
        _ => assert!(false, "Did not read a Float field ??"),
    }
}

#[test]
fn test_write_read_date() {
    let date = Date::new(12, 05, 2015).unwrap();

    let mut out = Vec::<u8>::new();
    <Date as WritableDbaseField>::write_to(&date, &mut out);

    let field_info = FieldInfo::new(
        String::from("Date"),
        FieldType::Date,
        FieldType::Date.size().unwrap(),
    );
    let read_date = match read_back(out, &field_info) {
        FieldValue::Date(Some(d)) => d,
        _ => panic!("Did not read a Date"),
    };

    assert_eq!(date, read_date);
}

#[test]
fn test_write_read_date_via_enum() {
    let date = FieldValue::Date(Some(Date::new(12, 05, 2015).unwrap()));

    let mut out = Vec::<u8>::new();
    date.write_to(&mut out);

    let field_info = FieldInfo::new(
        String::from("Date"),
        FieldType::Date,
        FieldType::Date.size().unwrap(),
    );
    let read_date = read_back(out, &field_info);

    assert_eq!(date, read_date);
}

#[test]
fn test_write_read_integer_via_enum() {
    let value = FieldValue::Integer(1457);

    let mut out = Vec::<u8>::new();
    value.write_to(&mut out);

    let field_info = FieldInfo::new(
        String::from("Integer"),
        FieldType::Integer,
        FieldType::Integer.size().unwrap(),
    );
    let read_date = read_back(out, &field_info);

    assert_eq!(read_date, value);
}
