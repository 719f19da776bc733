use h2gb::data::enums::Enums;
use h2gb::data::h2bitmasks::H2Bitmasks;
use h2gb::data::store::Data;
use h2gb::error::Error;
use h2gb::number::character::CharacterReader;
use h2gb::number::context::{Context, Endian};
use h2gb::number::format::{DefaultFormatter, HexFormatter};
use h2gb::number::integer_reader::IntegerReader;
use h2gb::number::renderer::{CharacterRenderer, IntegerRenderer};
use h2gb::types::alignment::Alignment;
use h2gb::types::h2type::{H2Array, H2Struct, H2Type};
use h2gb::types::named::{H2Bitmask, H2Enum};
use h2gb::types::network::{IPv4, IPv6, MacAddress, MacAddress8};
use h2gb::types::numeric::{H2Character, H2Integer};
use h2gb::types::simple::{H2Blob, Rgb, H2UUID};
use h2gb::types::strings::{H2String, LPString, NTString};

#[test]
fn test_none() -> Result<(), Error> {
    assert_eq!(0..1, Alignment::NoAlignment.align(0..1)?);
    assert_eq!(1..2, Alignment::NoAlignment.align(1..2)?);
    assert_eq!(1000..2000, Alignment::NoAlignment.align(1000..2000)?);
    Ok(())
}

#[test]
fn test_loose() -> Result<(), Error> {
    assert_eq!(0..0, Alignment::Loose(4).align(0..0)?);
    assert_eq!(0..4, Alignment::Loose(4).align(0..1)?);
    assert_eq!(0..4, Alignment::Loose(4).align(0..4)?);
    assert_eq!(0..8, Alignment::Loose(4).align(0..5)?);
    assert_eq!(1..5, Alignment::Loose(4).align(1..2)?);
    assert_eq!(1..5, Alignment::Loose(4).align(1..5)?);
    assert_eq!(1..9, Alignment::Loose(4).align(1..6)?);
    assert_eq!(3..3, Alignment::Loose(0).align(3..3)?);
    assert_eq!(3..7, Alignment::Loose(0).align(3..7)?);
    Ok(())
}

#[test]
fn test_strict() -> Result<(), Error> {
    assert_eq!(0..4, Alignment::Strict(4).align(0..1)?);
    assert_eq!(4..8, Alignment::Strict(4).align(4..5)?);
    assert_eq!(Err(Error::Unaligned), Alignment::Strict(4).align(1..2));
    assert_eq!(Err(Error::Unaligned), Alignment::Strict(4).align(3..4));
    Ok(())
}

#[test]
fn alignment_range_ends_before_start() {
    assert_eq!(Err(Error::RangeEndsBeforeStart), Alignment::NoAlignment.align(5..4));
    assert_eq!(Err(Error::RangeEndsBeforeStart), Alignment::Loose(4).align(5..4));
    assert_eq!(Err(Error::RangeEndsBeforeStart), Alignment::Strict(4).align(5..4));
}

#[test]
fn alignment_is_idempotent() -> Result<(), Error> {
    let once = Alignment::Loose(8).align(7..9)?;
    assert_eq!(7..15, once);
    assert_eq!(once, Alignment::Loose(8).align(once.clone())?);
    Ok(())
}

#[test]
fn test_blob() -> Result<(), Error> {
    let b = H2Blob::new(16, IntegerRenderer::from(DefaultFormatter::new()))?;
    assert_eq!("Binary blob (16 bytes)", b.to_display());
    assert_eq!(16, b.base_size());

    let b = H2Blob::new(16, HexFormatter::new(false, true, false))?;
    assert_eq!("Binary blob (0x10 bytes)", b.to_display());
    assert_eq!(16, b.base_size());

    Ok(())
}

#[test]
fn test_zero_length_blob() -> Result<(), Error> {
    assert!(H2Blob::new(0, IntegerRenderer::from(DefaultFormatter::new())).is_err());
    assert!(H2Blob::new(1, IntegerRenderer::from(DefaultFormatter::new())).is_ok());

    Ok(())
}

#[test]
fn blob_zero_length_error_kind() {
    assert_eq!(
        Err(Error::ZeroLength),
        H2Blob::new(0, IntegerRenderer::from(DefaultFormatter::new())).map(|b| b.base_size())
    );
}

#[test]
fn test_uuid() -> Result<(), Error> {
    let tests = vec![
        (
            b"\x85\xf8\x6f\xca\x66\x8e\x11\xec\x90\xd6\x02\x42\xac\x12\x00\x03".to_vec(),
            "85f86fca-668e-11ec-90d6-0242ac120003",
            "UUIDv1 / MAC",
        ),
        (
            b"\x45\xa1\x13\xac\xc7\xf2\x30\xb0\x90\xa5\xa3\x99\xab\x91\x27\x16".to_vec(),
            "45a113ac-c7f2-30b0-90a5-a399ab912716",
            "UUIDv3 / MD5",
        ),
        (
            b"\x29\x5c\xf0\x7f\xeb\xf2\x4d\x87\xa8\x1c\x0f\x64\xa0\xe2\xe0\x2f".to_vec(),
            "295cf07f-ebf2-4d87-a81c-0f64a0e2e02f",
            "UUIDv4 / Random",
        ),
        (
            b"\x4b\xe0\x64\x3f\x1d\x98\x57\x3b\x97\xcd\xca\x98\xa6\x53\x47\xdd".to_vec(),
            "4be0643f-1d98-573b-97cd-ca98a65347dd",
            "UUIDv5 / SHA1",
        ),
        (
            b"\x00\x00\x00\x00\x00\x00\x00\x00\x00\x00\x00\x00\x00\x00\x00\x00".to_vec(),
            "00000000-0000-0000-0000-000000000000",
            "Nil UUID",
        ),
        (
            b"\x00\x00\x00\x00\x00\x00\x00\x00\x00\x00\x00\x00\x00\x00\x00\x01".to_vec(),
            "00000000-0000-0000-0000-000000000001",
            "Invalid UUID",
        ),
    ];

    for (data, uuid, version) in tests {
        let context = Context::new(&data);

        assert_eq!(uuid, H2UUID::new(Endian::Big, false).to_display(context)?);
        assert_eq!(format!("{} ({})", uuid, version), H2UUID::new(Endian::Big, true).to_display(context)?);
    }

    Ok(())
}

#[test]
fn uuid_too_short() {
    let data = b"\x00\x01\x02".to_vec();
    assert_eq!(Err(Error::OutOfBounds), H2UUID::new(Endian::Big, true).to_display(Context::new(&data)));
}

#[test]
fn uuid_little_endian() -> Result<(), Error> {
    let data = b"\x03\x00\x12\xac\x42\x02\xd6\x90\xec\x11\x8e\x66\xca\x6f\xf8\x85".to_vec();
    assert_eq!(
        "85f86fca-668e-11ec-90d6-0242ac120003 (UUIDv1 / MAC)",
        H2UUID::new(Endian::Little, true).to_display(Context::new(&data))?
    );
    Ok(())
}

#[test]
fn test_ipv4() -> Result<(), Error> {
    let data = b"\x7f\x00\x00\x01".to_vec();
    let context = Context::new(&data);

    assert_eq!("127.0.0.1", IPv4::new(Endian::Big).to_display(context)?);

    Ok(())
}

#[test]
fn test_ipv4_little() -> Result<(), Error> {
    let data = b"\x01\x02\x02\x04".to_vec();
    let context = Context::new(&data);

    assert_eq!("4.2.2.1", IPv4::new(Endian::Little).to_display(context)?);

    Ok(())
}

#[test]
fn test_ipv4_error() -> Result<(), Error> {
    let data = b"\x7f\x00\x00".to_vec();
    let context = Context::new(&data);

    assert!(IPv4::new(Endian::Big).to_display(context).is_err());

    Ok(())
}

#[test]
fn test_ipv6() -> Result<(), Error> {
    let data = b"\x00\x00\x00\x00\x00\x00\x00\x00\x00\x00\x00\x00\x00\x00\x00\x00".to_vec();
    let context = Context::new(&data);
    assert_eq!("::", IPv6::new(Endian::Big).to_display(context)?);

    let data = b"\x00\x01\x02\x03\x04\x05\x06\x07\x08\x09\x0a\x0b\x0c\x0d\x0e\x0f".to_vec();
    let context = Context::new(&data);
    assert_eq!("1:203:405:607:809:a0b:c0d:e0f", IPv6::new(Endian::Big).to_display(context)?);

    Ok(())
}

#[test]
fn test_ipv6_little() -> Result<(), Error> {
    let data = b"\x01\x00\x00\x00\x00\x00\x00\x00\x00\x00\x00\x00\x00\x00\x00\x00".to_vec();
    let context = Context::new(&data);

    assert_eq!("::1", IPv6::new(Endian::Little).to_display(context)?);

    Ok(())
}

#[test]
fn test_ipv6_error() -> Result<(), Error> {
    let data = b"\x00\x00\x00\x00\x00\x00\x00\x00\x00\x00\x00\x00\x00\x00\x00".to_vec();
    let context = Context::new(&data);

    assert!(IPv6::new(Endian::Big).to_display(context).is_err());

    Ok(())
}

#[test]
fn network_sizes() {
    assert_eq!(4, IPv4::new(Endian::Big).base_size());
    assert_eq!(16, IPv6::new(Endian::Big).base_size());
    assert_eq!(6, MacAddress::new().base_size());
    assert_eq!(8, MacAddress8::new().base_size());
    assert_eq!(Some(Alignment::Loose(4)), IPv4::new_aligned(Some(Alignment::Loose(4)), Endian::Big).alignment());
}

#[test]
fn mac_address_test_mac() -> Result<(), Error> {
    let data = b"\x01\x23\x45\x67\x89\xab".to_vec();
    let context = Context::new(&data);

    assert_eq!("01:23:45:67:89:AB", MacAddress::new().to_display(context)?);

    Ok(())
}

#[test]
fn mac_address8_test_mac() -> Result<(), Error> {
    let data = b"\x01\x23\x45\x67\x89\xab\xcd\xef".to_vec();
    let context = Context::new(&data);

    assert_eq!("01:23:45:67:89:AB:CD:EF", MacAddress8::new().to_display(context)?);

    Ok(())
}

#[test]
fn mac_address_too_short() {
    let data = b"\x01\x23\x45\x67\x89".to_vec();
    assert_eq!(Err(Error::OutOfBounds), MacAddress::new().to_display(Context::new(&data)));
    assert_eq!(Err(Error::OutOfBounds), MacAddress8::new().to_display(Context::new(&data)));
}

#[test]
fn test_rgb() -> Result<(), Error> {
    let data = b"\x41\x42\x43".to_vec();
    let context = Context::new(&data);

    assert_eq!("#414243", Rgb::new().to_display(context)?);
    assert_eq!(3, Rgb::new().base_size());

    Ok(())
}

#[test]
fn rgb_leading_zeroes() -> Result<(), Error> {
    let data = b"\x00\x0a\xff".to_vec();
    assert_eq!("#000aff", Rgb::new().to_display(Context::new(&data))?);
    Ok(())
}

#[test]
fn h2integer_display() -> Result<(), Error> {
    let data = b"\x00\x00\x7f\xff\x80\x00\xff\xff".to_vec();
    let context = Context::new(&data);

    let t = H2Integer::new(IntegerReader::I16(Endian::Big), IntegerRenderer::from(DefaultFormatter::new()));
    assert_eq!(2, t.base_size());
    assert_eq!("0", t.to_display(context.at(0))?);
    assert_eq!("32767", t.to_display(context.at(2))?);
    assert_eq!("-32768", t.to_display(context.at(4))?);
    assert_eq!("-1", t.to_display(context.at(6))?);

    let t = H2Integer::new(IntegerReader::U8, HexFormatter::pretty());
    assert_eq!("0x7f", t.to_display(context.at(2))?);
    assert_eq!("0xff", t.to_display(context.at(6))?);

    Ok(())
}

#[test]
fn h2character_display_and_size() -> Result<(), Error> {
    let data = b"\x41\x42\xE2\x9D\x84".to_vec();
    let t = H2Character::new(CharacterReader::UTF8, CharacterRenderer::default());

    assert_eq!("A", t.to_display(Context::new_at(&data, 0))?);
    assert_eq!(1, t.base_size(Context::new_at(&data, 0))?);
    assert_eq!("\u{2744}", t.to_display(Context::new_at(&data, 2))?);
    assert_eq!(3, t.base_size(Context::new_at(&data, 2))?);

    Ok(())
}

#[test]
fn test_utf8_lstring() -> Result<(), Error> {
    let data = b"\x41\x42\xE2\x9D\x84\xE2\x98\xA2\xF0\x9D\x84\x9E\xF0\x9F\x98\x88\xc3\xb7".to_vec();
    let context = Context::new(&data);

    let a = H2String::new(7, CharacterReader::UTF8, CharacterRenderer::default())?;
    assert_eq!("\"AB❄☢𝄞😈÷\"", a.to_display(context)?);
    assert_eq!(18, a.base_size(context)?);

    Ok(())
}

#[test]
fn test_zero_length_utf8_lstring() -> Result<(), Error> {
    assert!(H2String::new(0, CharacterReader::UTF8, CharacterRenderer::default()).is_err());

    Ok(())
}

#[test]
fn test_too_long_lstring() -> Result<(), Error> {
    let data = b"A".to_vec();
    let context = Context::new(&data);

    let a = H2String::new(2, CharacterReader::UTF8, CharacterRenderer::default())?;
    assert!(a.to_display(context).is_err());

    Ok(())
}

#[test]
fn test_utf8_string() -> Result<(), Error> {
    let data = b"\x41\x42\xE2\x9D\x84\xE2\x98\xA2\xF0\x9D\x84\x9E\xF0\x9F\x98\x88\xc3\xb7\x00".to_vec();
    let offset = Context::new(&data);

    let a = NTString::new(CharacterReader::UTF8, CharacterRenderer::default());
    assert_eq!("\"AB❄☢𝄞😈÷\"", a.to_display(offset)?);

    Ok(())
}

#[test]
fn test_zero_length_utf8_string() -> Result<(), Error> {
    let data = b"\x00".to_vec();
    let offset = Context::new(&data);

    let a = NTString::new(CharacterReader::UTF8, CharacterRenderer::default());
    assert_eq!("\"\"", a.to_display(offset)?);

    Ok(())
}

#[test]
fn test_blank_string() -> Result<(), Error> {
    let data = b"".to_vec();
    let offset = Context::new(&data);

    let a = NTString::new(CharacterReader::UTF8, CharacterRenderer::default());
    assert!(a.to_display(offset).is_err());

    Ok(())
}

#[test]
fn test_missing_terminator() -> Result<(), Error> {
    let data = b"\x41\x42\xE2\x9D\x84\xE2\x98\xA2\xF0\x9D\x84\x9E\xF0\x9F\x98\x88\xc3\xb7".to_vec();
    let offset = Context::new(&data);

    let a = NTString::new(CharacterReader::UTF8, CharacterRenderer::default());
    assert!(a.to_display(offset).is_err());

    Ok(())
}

#[test]
fn ntstring_test_utf8_to_array() -> Result<(), Error> {
    let data = b"\x41\x42\xE2\x9D\x84\xE2\x98\xA2\xF0\x9D\x84\x9E\xF0\x9F\x98\x88\xc3\xb7\x00".to_vec();
    let offset = Context::new(&data);

    let a = H2Type::NTString(NTString::new(CharacterReader::UTF8, CharacterRenderer::default()));
    let array = a.resolve(offset, None, &Data::default())?;

    // Should just have one child - the array
    assert_eq!("AB❄☢𝄞😈÷", array.as_string.unwrap());
    assert_eq!("\"AB❄☢𝄞😈÷\"", array.display);

    Ok(())
}

#[test]
fn ntstring_test_starting_non_zero_offset() -> Result<(), Error> {
    let data = b"hi\0bye\0test\0".to_vec();
    let offset = Context::new(&data);

    let t = H2Type::H2Array(H2Array::new(3, H2Type::NTString(NTString::new(
        CharacterReader::ASCII,
        CharacterRenderer::default(),
    )))?);

    assert_eq!(12, t.base_size(offset, &Data::default()).unwrap());

    assert_eq!("[ \"hi\", \"bye\", \"test\" ]", t.to_display(offset, &Data::default()).unwrap());

    Ok(())
}

#[test]
fn test_utf8_lpstring() -> Result<(), Error> {
    let data = b"\x00\x07\x41\x42\xE2\x9D\x84\xE2\x98\xA2\xF0\x9D\x84\x9E\xF0\x9F\x98\x88\xc3\xb7".to_vec();
    let offset = Context::new(&data);

    let a = LPString::new(IntegerReader::U16(Endian::Big), CharacterReader::UTF8, CharacterRenderer::default())?;
    assert_eq!("\"AB❄☢𝄞😈÷\"", a.to_display(offset)?);
    assert_eq!(20, a.base_size(offset)?);

    Ok(())
}

#[test]
fn test_zero_length_utf8_lpstring() -> Result<(), Error> {
    let data = b"\x00\x41".to_vec();
    let offset = Context::new(&data);

    let a = LPString::new(IntegerReader::U8, CharacterReader::UTF8, CharacterRenderer::default())?;
    assert_eq!("\"\"", a.to_display(offset)?);
    assert_eq!(1, a.base_size(offset)?);

    Ok(())
}

#[test]
fn test_blank_lpstring() -> Result<(), Error> {
    let data = b"".to_vec();
    let offset = Context::new(&data);

    let a = LPString::new(IntegerReader::U8, CharacterReader::UTF8, CharacterRenderer::default())?;
    assert!(a.to_display(offset).is_err());

    Ok(())
}

#[test]
fn lpstring_test_starting_non_zero_offset() -> Result<(), Error> {
    let data = b"\x02hi\x03bye\x04test".to_vec();
    let offset = Context::new(&data);

    let t = LPString::new(IntegerReader::U8, CharacterReader::ASCII, CharacterRenderer::default())?;
    assert_eq!(3, t.base_size(offset.at(0))?);
    assert_eq!("\"hi\"", t.to_display(offset.at(0))?);
    assert_eq!(4, t.base_size(offset.at(3))?);
    assert_eq!("\"bye\"", t.to_display(offset.at(3))?);
    assert_eq!(5, t.base_size(offset.at(7))?);
    assert_eq!("\"test\"", t.to_display(offset.at(7))?);

    Ok(())
}

#[test]
fn lpstring_refuses_negative_length_type() {
    assert!(matches!(
        LPString::new(IntegerReader::I8, CharacterReader::ASCII, CharacterRenderer::default()),
        Err(Error::NotNumeric)
    ));
}

#[test]
fn composite_zero_length() {
    let field = H2Type::Rgb(Rgb::new());
    assert!(matches!(H2Array::new(0, field), Err(Error::ZeroLength)));
    assert!(H2Array::new(2, H2Type::Rgb(Rgb::new())).is_ok());
    assert!(matches!(H2Struct::new(vec![]), Err(Error::ZeroLength)));
    assert!(H2Struct::new(vec![("a".to_string(), H2Type::Rgb(Rgb::new()))]).is_ok());
}

#[test]
fn test_bitmask_reader() -> Result<(), Error> {
    // The bits of the "visibility" bitmask that the expected texts below name.
    let mut data = Data::new();
    let visibility = H2Bitmasks::load_from_csv_string(
        "HIDE_SLOT_HEAD,0\nHIDE_SLOT_BODY,1\nHIDE_SLOT_LEGS,2\nHIDE_SLOT_ACCESSORY1,3\nHIDE_SLOT_ACCESSORY2,4\n\
         HIDE_SLOT_ACCESSORY3,5\nHIDE_SLOT_ACCESSORY4,6\nHIDE_SLOT_ACCESSORY5,7\nHIDE_SLOT_ACCESSORY6,8\n\
         HIDE_SLOT_ACCESSORY8,10\n",
    )?;
    data.bitmasks.load_datum(Some("terraria".to_string()), "visibility".to_string(), visibility)?;

    let test_buffer = b"\x00\x00\x00\x01\x00\x02\x00\x03\x80\x01".to_vec();
    let context = Context::new(&test_buffer);

    let tests = vec![
        (0, false, "(n/a)"),
        (2, false, "HIDE_SLOT_HEAD"),
        (4, false, "HIDE_SLOT_BODY"),
        (6, false, "HIDE_SLOT_HEAD | HIDE_SLOT_BODY"),
        (2, true, "HIDE_SLOT_HEAD | ~HIDE_SLOT_BODY | ~HIDE_SLOT_LEGS | ~HIDE_SLOT_ACCESSORY1 | ~HIDE_SLOT_ACCESSORY2 | ~HIDE_SLOT_ACCESSORY3 | ~HIDE_SLOT_ACCESSORY4 | ~HIDE_SLOT_ACCESSORY5 | ~HIDE_SLOT_ACCESSORY6 | ~HIDE_SLOT_ACCESSORY8"),
        (8, false, "HIDE_SLOT_HEAD | Unknown_0x00008000"),
    ];

    for (o, show_negative, expected) in tests {
        let t = H2Bitmask::new(
            IntegerReader::U16(Endian::Big),
            Some(HexFormatter::pretty()),
            Some("terraria"),
            "visibility",
            show_negative,
            &data,
        )?;
        assert_eq!(expected, t.to_display(context.at(o), &data)?);
        assert_eq!(expected, H2Type::H2Bitmask(t).to_display(context.at(o), &data)?);
    }

    // Without an unknown renderer, unnamed bits are left out.
    let t = H2Bitmask::new(IntegerReader::U16(Endian::Big), None, Some("terraria"), "visibility", false, &data)?;
    assert_eq!("HIDE_SLOT_HEAD", t.to_display(context.at(8), &data)?);
    assert!(matches!(t.to_display(context.at(9), &data), Err(Error::OutOfBounds)));
    Ok(())
}

#[test]
fn test_enum_reader() -> Result<(), Error> {
    // The values of the "test1" enumeration that the expected texts below name.
    let mut data = Data::new();
    let test1 = Enums::load_from_csv_string("TEST1,1\nTEST2,100\n")?;
    data.enums.load_datum(None, "test1".to_string(), test1)?;

    let test_buffer = b"\x01\x64\xff\xff\x01\x00\x00\x00".to_vec();

    let t = H2Enum::new(IntegerReader::U8, HexFormatter::pretty(), None, "test1", &data)?;
    assert_eq!("test1::TEST1", H2Type::H2Enum(t.clone()).resolve(Context::new_at(&test_buffer, 0), None, &data)?.display);
    assert_eq!("test1::TEST2", H2Type::H2Enum(t.clone()).resolve(Context::new_at(&test_buffer, 1), None, &data)?.display);
    assert_eq!("test1::Unknown_0xff", H2Type::H2Enum(t).resolve(Context::new_at(&test_buffer, 2), None, &data)?.display);

    let t = H2Enum::new(IntegerReader::U32(Endian::Little), HexFormatter::pretty(), None, "test1", &data)?;
    assert_eq!("test1::TEST1", H2Type::H2Enum(t).resolve(Context::new_at(&test_buffer, 4), None, &data)?.display);
    Ok(())
}

#[test]
fn test_u8_hex() -> Result<(), Error> {
    let data = b"\x00\x7f\x80\xff".to_vec();
    let context = Context::new(&data);

    let t = H2Integer::new(IntegerReader::U8, HexFormatter::pretty());

    assert_eq!(1, t.base_size());
    let resolved = H2Type::H2Integer(t.clone()).resolve(context, None, &Data::new())?;
    assert_eq!(0, resolved.related.len());

    assert_eq!("0x00", t.to_display(context.at(0))?);
    assert_eq!("0x7f", t.to_display(context.at(1))?);
    assert_eq!("0x80", t.to_display(context.at(2))?);
    assert_eq!("0xff", t.to_display(context.at(3))?);
    Ok(())
}

#[test]
fn test_i16_decimal() -> Result<(), Error> {
    let data = b"\x00\x00\x7f\xff\x80\x00\xff\xff".to_vec();
    let context = Context::new(&data);

    let t = H2Integer::new(IntegerReader::I16(Endian::Big), IntegerRenderer::from(DefaultFormatter::new()));

    assert_eq!(2, t.base_size());
    let resolved = H2Type::H2Integer(t.clone()).resolve(context, None, &Data::new())?;
    assert_eq!(0, resolved.related.len());

    assert_eq!("0", t.to_display(context.at(0))?);
    assert_eq!("32767", t.to_display(context.at(2))?);
    assert_eq!("-32768", t.to_display(context.at(4))?);
    assert_eq!("-1", t.to_display(context.at(6))?);
    Ok(())
}

#[test]
fn test_to_i64() -> Result<(), Error> {
    let data = b"\x00\x00\x7f\xff\x80\x00\xff\xff".to_vec();
    let context = Context::new(&data);

    let t = H2Integer::new(IntegerReader::I16(Endian::Big), IntegerRenderer::from(DefaultFormatter::new()));

    assert_eq!(0, t.to_integer(context.at(0))?.as_isize()?);
    assert_eq!(32767, t.to_integer(context.at(2))?.as_isize()?);
    assert_eq!(-32768, t.to_integer(context.at(4))?.as_isize()?);
    assert_eq!(-1, t.to_integer(context.at(6))?.as_isize()?);
    Ok(())
}

#[test]
fn test_to_u64() -> Result<(), Error> {
    let data = b"\x00\x00\x7f\xff\x80\x00\xff\xff".to_vec();
    let context = Context::new(&data);

    let t = H2Integer::new(IntegerReader::U16(Endian::Big), IntegerRenderer::from(DefaultFormatter::new()));

    assert_eq!(0, t.to_integer(context.at(0))?.as_usize()?);
    assert_eq!(32767, t.to_integer(context.at(2))?.as_usize()?);
    assert_eq!(32768, t.to_integer(context.at(4))?.as_usize()?);
    assert_eq!(65535, t.to_integer(context.at(6))?.as_usize()?);
    Ok(())
}

#[test]
fn h2string_test_utf8_to_array() -> Result<(), Error> {
    let data = b"\x41\x42\xE2\x9D\x84\xE2\x98\xA2\xF0\x9D\x84\x9E\xF0\x9F\x98\x88\xc3\xb7".to_vec();
    let context = Context::new(&data);

    let a = H2Type::H2String(H2String::new(7, CharacterReader::UTF8, CharacterRenderer::default())?);
    let resolved = a.resolve(context, None, &Data::default())?;

    assert_eq!("\"AB❄☢𝄞😈÷\"", resolved.display);
    Ok(())
}

#[test]
fn h2string_test_starting_non_zero_offset() -> Result<(), Error> {
    let data = b"AAAABBBBCCCCDDDD".to_vec();
    let context = Context::new(&data);

    let t = H2Type::H2Array(H2Array::new(
        4,
        H2Type::H2String(H2String::new(4, CharacterReader::ASCII, CharacterRenderer::default())?),
    )?);

    assert_eq!(16, t.base_size(context, &Data::default()).unwrap());
    assert_eq!("[ \"AAAA\", \"BBBB\", \"CCCC\", \"DDDD\" ]", t.to_display(context, &Data::default()).unwrap());
    Ok(())
}

#[test]
fn lpstring_test_utf8_to_array() -> Result<(), Error> {
    let data = b"\x07\x41\x42\xE2\x9D\x84\xE2\x98\xA2\xF0\x9D\x84\x9E\xF0\x9F\x98\x88\xc3\xb7".to_vec();
    let context = Context::new(&data);

    let a = H2Type::LPString(LPString::new(IntegerReader::U8, CharacterReader::UTF8, CharacterRenderer::default())?);
    let resolved = a.resolve(context, None, &Data::default())?;

    assert_eq!("\"AB❄☢𝄞😈÷\"", resolved.display);
    assert_eq!(0..19, resolved.base_range);
    Ok(())
}
