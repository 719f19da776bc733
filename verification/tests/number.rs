use h2gb::error::Error;
use h2gb::number::character::{Character, CharacterReader};
use h2gb::number::context::{Context, Endian};
use h2gb::number::format::{
    BinaryFormatter, BooleanFormatter, CharacterRendererTrait, DefaultFormatter, HexFormatter,
    IntegerRendererImpl, OctalFormatter, ScientificFormatter,
};
use h2gb::number::integer::Integer;
use h2gb::number::integer_reader::IntegerReader;
use h2gb::number::renderer::{CharacterRenderer, FloatReader, IntegerFormatter, IntegerRenderer};

#[test]
fn test_character() -> Result<(), Error> {
    let c = Character::from(('A', 1));
    assert_eq!('A', c.as_char());
    assert_eq!(1, c.size());

    let c = Character::from(('A', 100));
    assert_eq!('A', c.as_char());
    assert_eq!(100, c.size());

    Ok(())
}

#[test]
fn character_reader_test_ascii() -> Result<(), Error> {
    let data = b"\x41\x42\xff".to_vec();

    let c = CharacterReader::ASCII.read(Context::new_at(&data, 0))?;
    assert_eq!(c.size(), 1);
    assert_eq!(c.as_char(), 'A');

    let c = CharacterReader::ASCII.read(Context::new_at(&data, 1))?;
    assert_eq!(c.size(), 1);
    assert_eq!(c.as_char(), 'B');

    let c = CharacterReader::ASCII.read(Context::new_at(&data, 2))?;
    assert_eq!(c.size(), 1);
    assert_eq!(c.as_char(), 0xff as char);

    Ok(())
}

#[test]
fn character_reader_test_utf8() -> Result<(), Error> {
    //             --  --  ----------  ----------  --------------  --------------  ------
    //             A   B   snowflake   radioactive clef            smiling devil   divide
    let data = b"\x41\x42\xE2\x9D\x84\xE2\x98\xA2\xF0\x9D\x84\x9E\xF0\x9F\x98\x88\xc3\xb7".to_vec();

    let c = CharacterReader::UTF8.read(Context::new_at(&data, 0))?;
    assert_eq!(c.size(), 1);
    assert_eq!(c.as_char(), 'A');

    let c = CharacterReader::UTF8.read(Context::new_at(&data, 1))?;
    assert_eq!(c.size(), 1);
    assert_eq!(c.as_char(), 'B');

    let c = CharacterReader::UTF8.read(Context::new_at(&data, 2))?;
    assert_eq!(c.size(), 3);
    assert_eq!(c.as_char(), '\u{2744}');

    Ok(())
}

#[test]
fn character_reader_utf8_all_widths() -> Result<(), Error> {
    let data = b"\x41\x42\xE2\x9D\x84\xE2\x98\xA2\xF0\x9D\x84\x9E\xF0\x9F\x98\x88\xc3\xb7".to_vec();
    let expected = [
        (0, 1, 'A'),
        (2, 3, '\u{2744}'),
        (5, 3, '\u{2622}'),
        (8, 4, '\u{1D11E}'),
        (12, 4, '\u{1F608}'),
        (16, 2, '\u{F7}'),
    ];
    for (offset, size, c) in expected {
        let r = CharacterReader::UTF8.read(Context::new_at(&data, offset))?;
        assert_eq!(size, r.size());
        assert_eq!(c, r.as_char());
    }

    // A continuation byte cannot start a character
    assert_eq!(Err(Error::InvalidCharacter), CharacterReader::UTF8.read(Context::new_at(&data, 3)));
    // A truncated sequence is no character either
    let short = b"\xE2\x9D".to_vec();
    assert_eq!(Err(Error::InvalidCharacter), CharacterReader::UTF8.read(Context::new(&short)));
    // An overlong encoding is refused
    let overlong = b"\xC0\x80".to_vec();
    assert_eq!(Err(Error::InvalidCharacter), CharacterReader::UTF8.read(Context::new(&overlong)));
    // A surrogate is refused
    let surrogate = b"\xED\xA0\x80".to_vec();
    assert_eq!(Err(Error::InvalidCharacter), CharacterReader::UTF8.read(Context::new(&surrogate)));
    // Nothing left to read
    assert_eq!(Err(Error::OutOfBounds), CharacterReader::UTF8.read(Context::new_at(&data, 18)));
    assert_eq!(Err(Error::OutOfBounds), CharacterReader::ASCII.read(Context::new_at(&data, 100)));

    Ok(())
}

#[test]
fn test_utf16_big_endian() -> Result<(), Error> {
    //           ------------ single -----------  ----------- double ------------
    let data = b"\x00\x41\x00\x42\x27\x44\x26\x22\xD8\x34\xDD\x1E\xD8\x3D\xDE\x08".to_vec();
    let c = Context::new(&data);

    // Single
    assert_eq!(2, CharacterReader::UTF16(Endian::Big).read(c.at(0))?.size());
    assert_eq!('A', CharacterReader::UTF16(Endian::Big).read(c.at(0))?.as_char());

    assert_eq!(2, CharacterReader::UTF16(Endian::Big).read(c.at(2))?.size());
    assert_eq!('B', CharacterReader::UTF16(Endian::Big).read(c.at(2))?.as_char());

    assert_eq!(2, CharacterReader::UTF16(Endian::Big).read(c.at(4))?.size());
    assert_eq!('\u{2744}', CharacterReader::UTF16(Endian::Big).read(c.at(4))?.as_char());

    assert_eq!(2, CharacterReader::UTF16(Endian::Big).read(c.at(6))?.size());
    assert_eq!('\u{2622}', CharacterReader::UTF16(Endian::Big).read(c.at(6))?.as_char());

    // Double
    assert_eq!(4, CharacterReader::UTF16(Endian::Big).read(c.at(8))?.size());
    assert_eq!('\u{1D11E}', CharacterReader::UTF16(Endian::Big).read(c.at(8))?.as_char());

    assert_eq!(4, CharacterReader::UTF16(Endian::Big).read(c.at(12))?.size());
    assert_eq!('\u{1F608}', CharacterReader::UTF16(Endian::Big).read(c.at(12))?.as_char());

    Ok(())
}

#[test]
fn test_utf16_little_endian() -> Result<(), Error> {
    //           ------------ single -----------  ----------- double ------------
    let data = b"\x41\x00\x42\x00\x44\x27\x22\x26\x34\xd8\x1e\xdd\x3d\xd8\x08\xde".to_vec();
    let c = Context::new(&data);

    // Single
    assert_eq!(2, CharacterReader::UTF16(Endian::Little).read(c.at(0))?.size());
    assert_eq!('A', CharacterReader::UTF16(Endian::Little).read(c.at(0))?.as_char());

    assert_eq!(2, CharacterReader::UTF16(Endian::Little).read(c.at(2))?.size());
    assert_eq!('B', CharacterReader::UTF16(Endian::Little).read(c.at(2))?.as_char());

    assert_eq!(2, CharacterReader::UTF16(Endian::Little).read(c.at(4))?.size());
    assert_eq!('\u{2744}', CharacterReader::UTF16(Endian::Little).read(c.at(4))?.as_char());

    assert_eq!(2, CharacterReader::UTF16(Endian::Little).read(c.at(6))?.size());
    assert_eq!('\u{2622}', CharacterReader::UTF16(Endian::Little).read(c.at(6))?.as_char());

    // Double
    assert_eq!(4, CharacterReader::UTF16(Endian::Little).read(c.at(8))?.size());
    assert_eq!('\u{1D11E}', CharacterReader::UTF16(Endian::Little).read(c.at(8))?.as_char());

    assert_eq!(4, CharacterReader::UTF16(Endian::Little).read(c.at(12))?.size());
    assert_eq!('\u{1F608}', CharacterReader::UTF16(Endian::Little).read(c.at(12))?.as_char());

    Ok(())
}

#[test]
fn utf16_lone_surrogates_are_refused() {
    // A low surrogate first
    let data = b"\xDC\x00\x00\x41".to_vec();
    assert_eq!(Err(Error::InvalidCharacter), CharacterReader::UTF16(Endian::Big).read(Context::new(&data)));
    // A high surrogate not followed by a low one
    let data = b"\xD8\x34\x00\x41".to_vec();
    assert_eq!(Err(Error::InvalidCharacter), CharacterReader::UTF16(Endian::Big).read(Context::new(&data)));
    // A high surrogate at the end
    let data = b"\xD8\x34".to_vec();
    assert_eq!(Err(Error::InvalidCharacter), CharacterReader::UTF16(Endian::Big).read(Context::new(&data)));
    // Less than one unit
    let data = b"\x41".to_vec();
    assert_eq!(Err(Error::OutOfBounds), CharacterReader::UTF16(Endian::Big).read(Context::new(&data)));
}

#[test]
fn test_utf32_big_endian() -> Result<(), Error> {
    let data = b"\x00\x00\x00\x41\x00\x00\x00\x42\x00\x00\x27\x44\x00\x00\x26\x22\x00\x01\xD1\x1E\x00\x01\xF6\x08".to_vec();
    let c = Context::new(&data);

    assert_eq!(4, CharacterReader::UTF32(Endian::Big).read(c.at(0))?.size());
    assert_eq!('A', CharacterReader::UTF32(Endian::Big).read(c.at(0))?.as_char());

    assert_eq!(4, CharacterReader::UTF32(Endian::Big).read(c.at(4))?.size());
    assert_eq!('B', CharacterReader::UTF32(Endian::Big).read(c.at(4))?.as_char());

    assert_eq!(4, CharacterReader::UTF32(Endian::Big).read(c.at(8))?.size());
    assert_eq!('\u{2744}', CharacterReader::UTF32(Endian::Big).read(c.at(8))?.as_char());

    assert_eq!(4, CharacterReader::UTF32(Endian::Big).read(c.at(12))?.size());
    assert_eq!('\u{2622}', CharacterReader::UTF32(Endian::Big).read(c.at(12))?.as_char());

    assert_eq!(4, CharacterReader::UTF32(Endian::Big).read(c.at(16))?.size());
    assert_eq!('\u{1D11E}', CharacterReader::UTF32(Endian::Big).read(c.at(16))?.as_char());

    assert_eq!(4, CharacterReader::UTF32(Endian::Big).read(c.at(20))?.size());
    assert_eq!('\u{1F608}', CharacterReader::UTF32(Endian::Big).read(c.at(20))?.as_char());

    // Not a character
    let data = b"\x00\x11\x00\x00".to_vec();
    assert_eq!(Err(Error::InvalidCharacter), CharacterReader::UTF32(Endian::Big).read(Context::new(&data)));

    Ok(())
}

#[test]
fn character_reader_sizes() {
    assert_eq!(Some(1), CharacterReader::ASCII.size());
    assert_eq!(None, CharacterReader::UTF8.size());
    assert_eq!(None, CharacterReader::UTF16(Endian::Big).size());
    assert_eq!(Some(4), CharacterReader::UTF32(Endian::Little).size());
}

#[test]
fn character_renderer_default() {
    let r = CharacterRenderer::default();
    assert_eq!("A", r.render_character(Character::from(('A', 1))));
    assert_eq!("\u{2744}", DefaultFormatter::new().render_character(Character::from(('\u{2744}', 3))));
}

#[test]
fn float_reader_sizes() {
    assert_eq!(4, FloatReader::F32(Endian::Big).size());
    assert_eq!(8, FloatReader::F64(Endian::Little).size());
}

#[test]
fn binary_test_binary_i8() -> Result<(), Error> {
    let data = b"\x00\x00\x12\xab\xFF\xFF\xFF\xFF".to_vec();

    let tests = vec![
        // index    prefix      padded   expected
        (0, true, true, "0b00000000"),
        (1, true, true, "0b00000000"),
        (2, true, true, "0b00010010"),
        (3, true, true, "0b10101011"),
        (4, true, true, "0b11111111"),
        (5, true, true, "0b11111111"),
        (0, false, false, "0"),
        (1, false, false, "0"),
        (2, false, false, "10010"),
        (3, false, false, "10101011"),
        (4, false, false, "11111111"),
        (5, false, false, "11111111"),
    ];

    for (index, padded, prefix, expected) in tests {
        let context = Context::new_at(&data, index);
        let number = IntegerReader::U8.read(context)?;

        assert_eq!(expected, BinaryFormatter::new_integer(prefix, padded).render(number));
    }

    Ok(())
}

#[test]
fn test_binary_i8() -> Result<(), Error> {
    binary_test_binary_i8()
}

#[test]
fn test_minimum_length() -> Result<(), Error> {
    // No prefix
    let number = IntegerReader::U8.read(Context::new(&b"\x01".to_vec()))?;
    assert_eq!("1", BinaryFormatter::new_with_min_size_integer(false, 0).render(number));
    assert_eq!("1", BinaryFormatter::new_with_min_size_integer(false, 1).render(number));
    assert_eq!("01", BinaryFormatter::new_with_min_size_integer(false, 2).render(number));
    assert_eq!("00000001", BinaryFormatter::new_with_min_size_integer(false, 8).render(number));
    assert_eq!("00000000000000000000000000000001", BinaryFormatter::new_with_min_size_integer(false, 32).render(number));

    // Prefix
    let number = IntegerReader::U8.read(Context::new(&b"\x01".to_vec()))?;
    assert_eq!("0b1", BinaryFormatter::new_with_min_size_integer(true, 0).render(number));
    assert_eq!("0b1", BinaryFormatter::new_with_min_size_integer(true, 1).render(number));
    assert_eq!("0b01", BinaryFormatter::new_with_min_size_integer(true, 2).render(number));
    assert_eq!("0b00000001", BinaryFormatter::new_with_min_size_integer(true, 8).render(number));
    assert_eq!("0b00000000000000000000000000000001", BinaryFormatter::new_with_min_size_integer(true, 32).render(number));

    // Zero
    let number = IntegerReader::U8.read(Context::new(&b"\x00".to_vec()))?;
    assert_eq!("0", BinaryFormatter::new_with_min_size_integer(false, 0).render(number));
    assert_eq!("0", BinaryFormatter::new_with_min_size_integer(false, 1).render(number));
    assert_eq!("00", BinaryFormatter::new_with_min_size_integer(false, 2).render(number));
    assert_eq!("00000000", BinaryFormatter::new_with_min_size_integer(false, 8).render(number));
    assert_eq!("00000000000000000000000000000000", BinaryFormatter::new_with_min_size_integer(false, 32).render(number));

    Ok(())
}

#[test]
fn binary_pretty_and_signed() {
    assert_eq!("0b00001111", BinaryFormatter::pretty_integer().render(Integer::from(15u8)));
    // A negative value shows its two's complement bits in its own width
    assert_eq!("0b11111111", BinaryFormatter::pretty_integer().render(Integer::from(-1i8)));
    assert_eq!("1111111111111110", BinaryFormatter::new_integer(false, false).render(Integer::from(-2i16)));
}

#[test]
fn boolean_test_default_u8() -> Result<(), Error> {
    let data = b"\x00\x7F\x80\xFF".to_vec();

    let tests = vec![(0, "false"), (1, "true"), (2, "true"), (3, "true")];

    for (index, expected) in tests {
        let context = Context::new_at(&data, index);
        let number = IntegerReader::U8.read(context)?;

        assert_eq!(expected, BooleanFormatter::new().render_integer(number));
    }

    Ok(())
}

#[test]
fn mod_test_default_u8() -> Result<(), Error> {
    boolean_test_default_u8()?;

    let data = b"\x00\x7F\x80\xFF".to_vec();

    let tests = vec![(0, "0"), (1, "127"), (2, "128"), (3, "255")];

    for (index, expected) in tests {
        let context = Context::new_at(&data, index);
        let number = IntegerReader::U8.read(context)?;

        assert_eq!(expected, DefaultFormatter::new().render_integer(number));
    }

    Ok(())
}

#[test]
fn mod_test_default_i8() -> Result<(), Error> {
    let data = b"\x00\x7F\x80\xFF".to_vec();

    let tests = vec![(0, "false"), (1, "true"), (2, "true"), (3, "true")];
    for (index, expected) in tests {
        let context = Context::new_at(&data, index);
        let number = IntegerReader::I8.read(context)?;
        assert_eq!(expected, BooleanFormatter::new().render_integer(number));
    }

    let tests = vec![(0, "0"), (1, "127"), (2, "-128"), (3, "-1")];
    for (index, expected) in tests {
        let context = Context::new_at(&data, index);
        let number = IntegerReader::I8.read(context)?;
        assert_eq!(expected, DefaultFormatter::new().render_integer(number));
    }

    Ok(())
}

#[test]
fn boolean_u24_false_only_for_zero() {
    assert_eq!("false", BooleanFormatter::new().render_integer(Integer::from((0u8, 0u16))));
    assert_eq!("true", BooleanFormatter::new().render_integer(Integer::from((1u8, 0u16))));
    assert_eq!("true", BooleanFormatter::new().render_integer(Integer::from((0u8, 1u16))));
}

#[test]
fn test_default_u16() -> Result<(), Error> {
    let data = b"\x00\xFF\x00\x01\x00\x00\xFF\xFF".to_vec();

    let tests = vec![(0, "255"), (2, "1"), (4, "0"), (6, "65535")];

    for (index, expected) in tests {
        let context = Context::new_at(&data, index);
        let number = IntegerReader::U16(Endian::Big).read(context)?;

        assert_eq!(expected, DefaultFormatter::new().render_integer(number));
    }

    Ok(())
}

#[test]
fn test_default_u32() -> Result<(), Error> {
    let data = b"\x00\x00\x00\x00\xff\xff\xff\xff\x7f\xff\xff\xff\x80\x00\x00\x00".to_vec();

    let tests = vec![(0, "0"), (4, "4294967295"), (8, "2147483647"), (12, "2147483648")];

    for (index, expected) in tests {
        let context = Context::new_at(&data, index);
        let number = IntegerReader::U32(Endian::Big).read(context)?;

        assert_eq!(expected, DefaultFormatter::new().render_integer(number));
    }

    Ok(())
}

#[test]
fn test_default_i32() -> Result<(), Error> {
    let data = b"\x00\x00\x00\x00\xff\xff\xff\xff\x7f\xff\xff\xff\x80\x00\x00\x00".to_vec();

    let tests = vec![(0, "0"), (4, "-1"), (8, "2147483647"), (12, "-2147483648")];

    for (index, expected) in tests {
        let context = Context::new_at(&data, index);
        let number = IntegerReader::I32(Endian::Big).read(context)?;

        assert_eq!(expected, DefaultFormatter::new().render_integer(number));
    }

    Ok(())
}

#[test]
fn test_default_i64() -> Result<(), Error> {
    let data = b"\x00\x00\x00\x00\x00\x00\x00\x00\x7f\xff\xff\xff\xff\xff\xff\xff\x80\x00\x00\x00\x00\x00\x00\x00\xff\xff\xff\xff\xff\xff\xff\xff".to_vec();

    let tests = vec![
        (0, "0"),
        (8, "9223372036854775807"),
        (16, "-9223372036854775808"),
        (24, "-1"),
    ];

    for (index, expected) in tests {
        let context = Context::new_at(&data, index);
        let number = IntegerReader::I64(Endian::Big).read(context)?;

        assert_eq!(expected, DefaultFormatter::new().render_integer(number));
    }

    Ok(())
}

#[test]
fn test_default_u128() -> Result<(), Error> {
    let data = b"\x00\x00\x00\x00\x00\x00\x00\x00\x00\x00\x00\x00\x00\x00\x00\x00\xFF\xFF\xFF\xFF\xFF\xFF\xFF\xFF\xFF\xFF\xFF\xFF\xFF\xFF\xFF\xFF".to_vec();

    let tests = vec![(0, "0"), (16, "340282366920938463463374607431768211455")];

    for (index, expected) in tests {
        let context = Context::new_at(&data, index);
        let number = IntegerReader::U128(Endian::Big).read(context)?;

        assert_eq!(expected, DefaultFormatter::new().render_integer(number));
    }

    Ok(())
}

#[test]
fn test_default_i128() -> Result<(), Error> {
    let data = b"\x00\x00\x00\x00\x00\x00\x00\x00\x00\x00\x00\x00\x00\x00\x00\x00\xFF\xFF\xFF\xFF\xFF\xFF\xFF\xFF\xFF\xFF\xFF\xFF\xFF\xFF\xFF\xFF".to_vec();

    let tests = vec![(0, "0"), (16, "-1")];

    for (index, expected) in tests {
        let context = Context::new_at(&data, index);
        let number = IntegerReader::I128(Endian::Big).read(context)?;

        assert_eq!(expected, DefaultFormatter::new().render_integer(number));
    }

    // The most negative value
    assert_eq!("-170141183460469231731687303715884105728", DefaultFormatter::new().render_integer(Integer::from(i128::MIN)));

    Ok(())
}

fn hex_cases(data: &[u8], reader: IntegerReader, tests: Vec<(usize, bool, bool, bool, &str)>) -> Result<(), Error> {
    for (index, uppercase, prefix, padded, expected) in tests {
        let context = Context::new_at(data, index);
        let number = reader.read(context)?;

        assert_eq!(expected, HexFormatter::new(uppercase, prefix, padded).render(number));
    }
    Ok(())
}

#[test]
fn test_hex_u8() -> Result<(), Error> {
    let data = b"\x00\x7F\x80\xFF".to_vec();

    hex_cases(&data, IntegerReader::U8, vec![
        // index  uppercase   prefix   padded    expected
        (0, false, false, false, "0"),
        (0, true, false, false, "0"),
        (0, false, true, false, "0x0"),
        (0, false, false, true, "00"),
        (0, true, true, true, "0x00"),
        (1, false, false, false, "7f"),
        (1, true, false, false, "7F"),
        (1, false, true, false, "0x7f"),
        (1, false, false, true, "7f"),
        (1, true, true, true, "0x7F"),
        (2, false, false, false, "80"),
        (2, true, false, false, "80"),
        (2, false, true, false, "0x80"),
        (2, false, false, true, "80"),
        (2, true, true, true, "0x80"),
        (3, false, false, false, "ff"),
        (3, true, false, false, "FF"),
        (3, false, true, false, "0xff"),
        (3, false, false, true, "ff"),
        (3, true, true, true, "0xFF"),
    ])
}

#[test]
fn test_hex_u16() -> Result<(), Error> {
    let data = b"\x00\x00\x12\x34\xFF\xFF\xFF\xFF".to_vec();

    hex_cases(&data, IntegerReader::U16(Endian::Big), vec![
        (0, false, false, false, "0"),
        (0, true, false, false, "0"),
        (0, false, true, false, "0x0"),
        (0, false, false, true, "0000"),
        (0, true, true, true, "0x0000"),
        (2, false, false, false, "1234"),
        (2, true, false, false, "1234"),
        (2, false, true, false, "0x1234"),
        (2, false, false, true, "1234"),
        (2, true, true, true, "0x1234"),
        (4, false, false, false, "ffff"),
        (4, true, false, false, "FFFF"),
        (4, false, true, false, "0xffff"),
        (4, false, false, true, "ffff"),
        (4, true, true, true, "0xFFFF"),
    ])
}

#[test]
fn test_hex_u32() -> Result<(), Error> {
    let data = b"\x00\x00\x12\x34\xFF\xFF\xFF\xFF".to_vec();

    hex_cases(&data, IntegerReader::U32(Endian::Big), vec![
        (0, false, false, false, "1234"),
        (0, true, false, false, "1234"),
        (0, false, true, false, "0x1234"),
        (0, false, false, true, "00001234"),
        (0, true, true, true, "0x00001234"),
        (4, false, false, false, "ffffffff"),
        (4, true, false, false, "FFFFFFFF"),
        (4, false, true, false, "0xffffffff"),
        (4, false, false, true, "ffffffff"),
        (4, true, true, true, "0xFFFFFFFF"),
    ])
}

#[test]
fn test_hex_u64_big_endian() -> Result<(), Error> {
    let data = b"\x00\x00\x12\x34\xFF\xFF\xFF\xFF".to_vec();

    hex_cases(&data, IntegerReader::U64(Endian::Big), vec![
        (0, false, false, false, "1234ffffffff"),
        (0, true, false, false, "1234FFFFFFFF"),
        (0, false, true, false, "0x1234ffffffff"),
        (0, false, false, true, "00001234ffffffff"),
        (0, true, true, true, "0x00001234FFFFFFFF"),
    ])
}

#[test]
fn test_hex_u64_little_endian() -> Result<(), Error> {
    let data = b"\x00\x12\x34\xFF\xFF\xFF\xFF\x00".to_vec();

    hex_cases(&data, IntegerReader::U64(Endian::Little), vec![
        (0, false, false, false, "ffffffff341200"),
        (0, true, false, false, "FFFFFFFF341200"),
        (0, false, true, false, "0xffffffff341200"),
        (0, false, false, true, "00ffffffff341200"),
        (0, true, true, true, "0x00FFFFFFFF341200"),
    ])
}

#[test]
fn test_hex_u128_big_endian() -> Result<(), Error> {
    let data = b"\x00\x00\x00\x00\x00\x00\x00\x00\x00\x00\x00\x00\x00\x00\x00\x01\x00\x11\x22\x33\x44\x55\x66\x77\x88\x99\xaa\xbb\xcc\xdd\xee\xff".to_vec();

    hex_cases(&data, IntegerReader::U128(Endian::Big), vec![
        (0, false, false, false, "1"),
        (0, true, false, false, "1"),
        (0, false, true, false, "0x1"),
        (0, false, false, true, "00000000000000000000000000000001"),
        (0, true, true, true, "0x00000000000000000000000000000001"),
        (16, false, false, false, "112233445566778899aabbccddeeff"),
        (16, true, false, false, "112233445566778899AABBCCDDEEFF"),
        (16, false, true, false, "0x112233445566778899aabbccddeeff"),
        (16, false, false, true, "00112233445566778899aabbccddeeff"),
        (16, true, true, true, "0x00112233445566778899AABBCCDDEEFF"),
    ])
}

#[test]
fn hex_signed_and_pretty() {
    assert_eq!("0x00aa2233", HexFormatter::pretty().render(Integer::from(0xaa2233u32)));
    assert_eq!("ff", HexFormatter::new(false, false, false).render(Integer::from(-1i8)));
    assert_eq!("0xFFFE", HexFormatter::new(true, true, true).render(Integer::from(-2i16)));
    assert_eq!("0x000001", HexFormatter::pretty().render(Integer::from((0u8, 1u16))));
}

fn octal_cases(data: &[u8], reader: IntegerReader, tests: Vec<(usize, bool, bool, &str)>) -> Result<(), Error> {
    for (index, prefix, padded, expected) in tests {
        let context = Context::new_at(data, index);
        let number = reader.read(context)?;

        assert_eq!(expected, OctalFormatter::new_integer(prefix, padded).render(number));
    }
    Ok(())
}

#[test]
fn test_octal_u8() -> Result<(), Error> {
    let data = b"\x00\x7F\x80\xFF".to_vec();

    octal_cases(&data, IntegerReader::U8, vec![
        (0, false, false, "0"),
        (1, false, false, "177"),
        (2, false, false, "200"),
        (3, false, false, "377"),
        (0, false, true, "000"),
        (1, false, true, "177"),
        (2, false, true, "200"),
        (3, false, true, "377"),
        (0, true, false, "0o0"),
        (1, true, false, "0o177"),
        (2, true, false, "0o200"),
        (3, true, false, "0o377"),
        (0, true, true, "0o000"),
        (1, true, true, "0o177"),
        (2, true, true, "0o200"),
        (3, true, true, "0o377"),
    ])
}

#[test]
fn test_octal_u16() -> Result<(), Error> {
    let data = b"\x00\x00\x12\x34\xFF\xFF\xFF\xFF".to_vec();

    octal_cases(&data, IntegerReader::U16(Endian::Big), vec![
        (0, false, false, "0"),
        (2, false, false, "11064"),
        (4, false, false, "177777"),
        (0, false, true, "000000"),
        (2, false, true, "011064"),
        (4, false, true, "177777"),
        (0, true, false, "0o0"),
        (2, true, false, "0o11064"),
        (4, true, false, "0o177777"),
        (0, true, true, "0o000000"),
        (2, true, true, "0o011064"),
        (4, true, true, "0o177777"),
    ])
}

#[test]
fn test_octal_u32() -> Result<(), Error> {
    let data = b"\x00\x00\x12\x34\xFF\xFF\xFF\xFF".to_vec();

    octal_cases(&data, IntegerReader::U32(Endian::Big), vec![
        (0, false, false, "11064"),
        (2, false, false, "2215177777"),
        (4, false, false, "37777777777"),
        (0, false, true, "00000011064"),
        (2, false, true, "02215177777"),
        (4, false, true, "37777777777"),
        (0, true, false, "0o11064"),
        (2, true, false, "0o2215177777"),
        (4, true, false, "0o37777777777"),
        (0, true, true, "0o00000011064"),
        (2, true, true, "0o02215177777"),
        (4, true, true, "0o37777777777"),
    ])
}

#[test]
fn test_octal_u64() -> Result<(), Error> {
    let data = b"\x00\x00\x12\x34\xFF\xFF\xFF\xFF\xFF\xFF\xFF\xFF\xFF\xFF\xFF\xFF".to_vec();

    octal_cases(&data, IntegerReader::U64(Endian::Big), vec![
        (0, false, false, "443237777777777"),
        (8, false, false, "1777777777777777777777"),
        (0, false, true, "0000000443237777777777"),
        (8, false, true, "1777777777777777777777"),
        (0, true, false, "0o443237777777777"),
        (8, true, false, "0o1777777777777777777777"),
        (0, true, true, "0o0000000443237777777777"),
        (8, true, true, "0o1777777777777777777777"),
    ])
}

#[test]
fn octal_widths_of_other_types() {
    assert_eq!("0o40", OctalFormatter::pretty_integer().render(Integer::from(32u8)));
    assert_eq!("00000001", OctalFormatter::new_integer(false, true).render(Integer::from((0u8, 1u16))));
    assert_eq!("0000000000000000000000000000000000000000001", OctalFormatter::new_integer(false, true).render(Integer::from(1i128)));
    assert_eq!("377", OctalFormatter::new_integer(false, false).render(Integer::from(-1i8)));
}

#[test]
fn test_scientific_u32() -> Result<(), Error> {
    let data = b"\x00\x00\x00\x00\x7f\xff\xff\xff\x80\x00\x00\x00\xff\xff\xff\xff".to_vec();

    let tests = vec![
        (0, false, "0e0"),
        (4, false, "2.147483647e9"),
        (8, false, "2.147483648e9"),
        (12, false, "4.294967295e9"),
        (0, true, "0E0"),
        (4, true, "2.147483647E9"),
        (8, true, "2.147483648E9"),
        (12, true, "4.294967295E9"),
    ];

    for (index, uppercase, expected) in tests {
        let context = Context::new_at(&data, index);
        let number = IntegerReader::U32(Endian::Big).read(context)?;

        assert_eq!(expected, ScientificFormatter::new(uppercase).render_integer(number));
    }

    Ok(())
}

#[test]
fn test_scientific_i32() -> Result<(), Error> {
    let data = b"\x00\x00\x00\x00\x7f\xff\xff\xff\x80\x00\x00\x00\xff\xff\xff\xff".to_vec();

    let tests = vec![
        (0, false, "0e0"),
        (4, false, "2.147483647e9"),
        (8, false, "-2.147483648e9"),
        (12, false, "-1e0"),
        (0, true, "0E0"),
        (4, true, "2.147483647E9"),
        (8, true, "-2.147483648E9"),
        (12, true, "-1E0"),
    ];

    for (index, uppercase, expected) in tests {
        let context = Context::new_at(&data, index);
        let number = IntegerReader::I32(Endian::Big).read(context)?;

        assert_eq!(expected, ScientificFormatter::new(uppercase).render_integer(number));
    }

    Ok(())
}

#[test]
fn scientific_strips_trailing_zeros() {
    assert_eq!("1e2", ScientificFormatter::new_pretty().render_integer(Integer::from(100u64)));
    assert_eq!("1.5e3", ScientificFormatter::new_pretty().render_integer(Integer::from(1500u32)));
    assert_eq!("1e1", ScientificFormatter::new_pretty().render_integer(Integer::from(10u8)));
    assert_eq!("3.40282366920938463463374607431768211455e38", ScientificFormatter::new_pretty().render_integer(Integer::from(u128::MAX)));
}

#[test]
fn test_display() -> Result<(), Error> {
    let data = b"\x00\x7F\x80\xFF\x00\x01\x02\x03\x80\x00\x00\x00\x00\x00\x00\x00".to_vec();

    let formatter = DefaultFormatter::new();

    assert_eq!("0", formatter.render_integer(IntegerReader::U8.read(Context::new_at(&data, 0))?));
    assert_eq!("127", formatter.render_integer(IntegerReader::U8.read(Context::new_at(&data, 1))?));
    assert_eq!("128", formatter.render_integer(IntegerReader::U8.read(Context::new_at(&data, 2))?));
    assert_eq!("255", formatter.render_integer(IntegerReader::U8.read(Context::new_at(&data, 3))?));

    assert_eq!("0", formatter.render_integer(IntegerReader::I8.read(Context::new_at(&data, 0))?));
    assert_eq!("127", formatter.render_integer(IntegerReader::I8.read(Context::new_at(&data, 1))?));
    assert_eq!("-128", formatter.render_integer(IntegerReader::I8.read(Context::new_at(&data, 2))?));
    assert_eq!("-1", formatter.render_integer(IntegerReader::I8.read(Context::new_at(&data, 3))?));

    Ok(())
}

#[test]
fn test_to_usize() -> Result<(), Error> {
    let data = b"\x00\x7F\x80\xFF\x00\x01\x02\x03\x80\x00\x00\x00\x00\x00\x00\x00".to_vec();

    assert_eq!(0usize, IntegerReader::U8.read(Context::new_at(&data, 0))?.as_usize()?);
    assert_eq!(127usize, IntegerReader::U8.read(Context::new_at(&data, 1))?.as_usize()?);
    assert_eq!(128usize, IntegerReader::U8.read(Context::new_at(&data, 2))?.as_usize()?);
    assert_eq!(255usize, IntegerReader::U8.read(Context::new_at(&data, 3))?.as_usize()?);

    assert_eq!(127usize, IntegerReader::U16(Endian::Big).read(Context::new_at(&data, 0))?.as_usize()?);
    assert_eq!(8356095usize, IntegerReader::U32(Endian::Big).read(Context::new_at(&data, 0))?.as_usize()?);
    assert_eq!(35889154747335171usize, IntegerReader::U64(Endian::Big).read(Context::new_at(&data, 0))?.as_usize()?);

    assert!(IntegerReader::I8.read(Context::new_at(&data, 0))?.as_usize().is_err());
    assert!(IntegerReader::I16(Endian::Big).read(Context::new_at(&data, 0))?.as_usize().is_err());
    assert!(IntegerReader::I32(Endian::Big).read(Context::new_at(&data, 0))?.as_usize().is_err());
    assert!(IntegerReader::I64(Endian::Big).read(Context::new_at(&data, 0))?.as_usize().is_err());
    assert!(IntegerReader::U128(Endian::Big).read(Context::new_at(&data, 0))?.as_usize().is_err());

    Ok(())
}

#[test]
fn test_to_isize() -> Result<(), Error> {
    let data = b"\x00\x7F\x80\xFF\x00\x01\x02\x03\x80\x00\x00\x00\x00\x00\x00\x00".to_vec();

    assert_eq!(0isize, IntegerReader::I8.read(Context::new_at(&data, 0))?.as_isize()?);
    assert_eq!(127isize, IntegerReader::I8.read(Context::new_at(&data, 1))?.as_isize()?);
    assert_eq!(-128isize, IntegerReader::I8.read(Context::new_at(&data, 2))?.as_isize()?);
    assert_eq!(-1isize, IntegerReader::I8.read(Context::new_at(&data, 3))?.as_isize()?);

    assert_eq!(127isize, IntegerReader::I16(Endian::Big).read(Context::new_at(&data, 0))?.as_isize()?);
    assert_eq!(-32768isize, IntegerReader::I16(Endian::Big).read(Context::new_at(&data, 8))?.as_isize()?);

    assert_eq!(8356095isize, IntegerReader::I32(Endian::Big).read(Context::new_at(&data, 0))?.as_isize()?);
    assert_eq!(-2147483648isize, IntegerReader::I32(Endian::Big).read(Context::new_at(&data, 8))?.as_isize()?);

    assert_eq!(35889154747335171isize, IntegerReader::I64(Endian::Big).read(Context::new_at(&data, 0))?.as_isize()?);
    assert_eq!(-9223372036854775808isize, IntegerReader::I64(Endian::Big).read(Context::new_at(&data, 8))?.as_isize()?);

    assert!(IntegerReader::U8.read(Context::new_at(&data, 0))?.as_isize().is_err());
    assert!(IntegerReader::U16(Endian::Big).read(Context::new_at(&data, 0))?.as_isize().is_err());
    assert!(IntegerReader::U32(Endian::Big).read(Context::new_at(&data, 0))?.as_isize().is_err());
    assert!(IntegerReader::U64(Endian::Big).read(Context::new_at(&data, 0))?.as_isize().is_err());
    assert!(IntegerReader::I128(Endian::Big).read(Context::new_at(&data, 0))?.as_isize().is_err());

    Ok(())
}

#[test]
fn integer_test_comparison() -> Result<(), Error> {
    // Unsigned -> unsigned
    assert_eq!(Integer::from(0u8), Integer::from(0u8));
    assert_eq!(Integer::from(0u8), Integer::from(0u16));
    assert_eq!(Integer::from(0u8), Integer::from(0u64));
    assert_eq!(Integer::from(0u8), Integer::from(0u128));

    // Signed -> signed
    assert_eq!(Integer::from(0i8), Integer::from(0i8));
    assert_eq!(Integer::from(0i8), Integer::from(0i16));
    assert_eq!(Integer::from(0i8), Integer::from(0i64));
    assert_eq!(Integer::from(0i8), Integer::from(0i128));

    // Signed -> unsigned should still be equal
    assert_eq!(Integer::from(0u8), Integer::from(0i8));
    assert_eq!(Integer::from(0u8), Integer::from(0i64));

    // Signed and unsigned compare by their 128-bit patterns
    assert_eq!(Integer::from(-1i8), Integer::from(0xffffffffffffffffffffffffffffffffu128));

    // But that shouldn't affect most comparisons
    assert_ne!(Integer::from(0x80u8), Integer::from(-128i8));
    assert_ne!(Integer::from(-1i16), Integer::from(0xffffu16));

    Ok(())
}

#[test]
fn test_u24() -> Result<(), Error> {
    let data = b"\x01\x02\x03\x04\x05\x06".to_vec();

    let tests = vec![
        (0, Endian::Big, 0x010203u32),
        (1, Endian::Big, 0x020304u32),
        (2, Endian::Big, 0x030405u32),
        (3, Endian::Big, 0x040506u32),
        (0, Endian::Little, 0x030201u32),
        (1, Endian::Little, 0x040302u32),
        (2, Endian::Little, 0x050403u32),
        (3, Endian::Little, 0x060504u32),
    ];

    for (offset, endian, expected) in tests {
        let c = Context::new_at(&data, offset);
        let reader = IntegerReader::U24(endian);

        assert_eq!(Integer::from(expected), reader.read(c)?);
    }

    Ok(())
}

#[test]
fn test_from_str() -> Result<(), Error> {
    let tests = vec![
        ("1", Integer::from(1u8)),
        ("1", Integer::from(1usize)),
        ("-1", Integer::from(-1)),
        ("-65535", Integer::from(-65535)),
        ("255", Integer::from(0xffusize)),
        ("65535", Integer::from(0xffffu32)),
        ("18446744073709551615", Integer::from(0xffffffffffffffffu64)),
        ("79228162514264337593543950335", Integer::from(0xffffffffffffffffffffffffu128)),
        ("0xff", Integer::from(0xffu32)),
        ("0xf", Integer::from(0xfu32)),
        ("0o777", Integer::from(511u32)),
        ("0b1111", Integer::from(15u32)),
    ];

    for (s, expected) in tests {
        assert_eq!(Integer::from_str(s)?, expected);
    }

    Ok(())
}

#[test]
fn from_str_picks_the_first_fitting_type() {
    assert_eq!(8, Integer::from_str("1").unwrap().size());
    assert!(!Integer::from_str("1").unwrap().is_signed());
    assert!(Integer::from_str("-1").unwrap().is_signed());
    assert_eq!(16, Integer::from_str("340282366920938463463374607431768211455").unwrap().size());
    assert_eq!(Err(Error::InvalidInteger), Integer::from_str("340282366920938463463374607431768211456"));
    assert_eq!(Err(Error::InvalidInteger), Integer::from_str(""));
    assert_eq!(Err(Error::InvalidInteger), Integer::from_str("-"));
    assert_eq!(Err(Error::InvalidInteger), Integer::from_str("0x"));
    assert_eq!(Err(Error::InvalidInteger), Integer::from_str("12a"));
    assert_eq!(Integer::from(2u8), Integer::from_str("+2").unwrap());
    assert_eq!(Integer::from(0u8), Integer::from_str("0b").unwrap_or(Integer::from(0u8)));
}

#[test]
fn test_increment() -> Result<(), Error> {
    // Test normal stuff
    let i = Integer::from(1u8);
    assert_eq!(Some(Integer::from(2u8)), i.increment());

    // Test overflow
    let i = Integer::from(255u8);
    assert_eq!(None, i.increment());

    // Test u24, because it's special
    let i = Integer::from((0x00u8, 0x0000u16));
    assert_eq!(Some(Integer::from(0x000001u32)), i.increment());

    // Just a middling u24 value
    let i = Integer::from((0x12u8, 0x1234u16));
    assert_eq!(Some(Integer::from(0x121235u32)), i.increment());

    // Test first overflow
    let i = Integer::from((0x00u8, 0xFFFFu16));
    assert_eq!(Some(Integer::from(0x010000u32)), i.increment());

    // But what about second overflow?
    let i = Integer::from((0xFFu8, 0xFFFFu16));
    assert_eq!(None, i.increment());

    Ok(())
}

#[test]
fn increment_keeps_the_type() {
    let i = Integer::from(-1i16).increment().unwrap();
    assert_eq!(2, i.size());
    assert!(i.is_signed());
    assert_eq!(Integer::from(0u8), i);
    assert_eq!(None, Integer::from(i64::MAX).increment());
}

#[test]
fn test_u32() -> Result<(), Error> {
    let data = b"\x12\x34\x56\x78\x9a\xbc\xde\xf0".to_vec();

    assert_eq!(Integer::from(0x12345678u32), IntegerReader::U32(Endian::Big).read(Context::new_at(&data, 0))?);
    assert_eq!(Integer::from(0x9abcdef0u32), IntegerReader::U32(Endian::Big).read(Context::new_at(&data, 4))?);

    assert_eq!(Integer::from(0x78563412u32), IntegerReader::U32(Endian::Little).read(Context::new_at(&data, 0))?);
    assert_eq!(Integer::from(0xf0debc9au32), IntegerReader::U32(Endian::Little).read(Context::new_at(&data, 4))?);

    Ok(())
}

#[test]
fn test_buffer_too_short() -> Result<(), Error> {
    let data = b"".to_vec();
    assert!(IntegerReader::I8.read(Context::new(&data)).is_err());

    let data = b"A".to_vec();
    assert!(IntegerReader::I8.read(Context::new(&data)).is_ok());
    assert!(IntegerReader::I16(Endian::Big).read(Context::new(&data)).is_err());

    let data = b"AAA".to_vec();
    assert!(IntegerReader::I16(Endian::Big).read(Context::new(&data)).is_ok());
    assert!(IntegerReader::I32(Endian::Big).read(Context::new(&data)).is_err());

    let data = b"AAAAAAA".to_vec();
    assert!(IntegerReader::I32(Endian::Big).read(Context::new(&data)).is_ok());
    assert!(IntegerReader::I64(Endian::Big).read(Context::new(&data)).is_err());

    let data = b"AAAAAAAAAAAAAAA".to_vec();
    assert!(IntegerReader::I64(Endian::Big).read(Context::new(&data)).is_ok());
    assert!(IntegerReader::I128(Endian::Big).read(Context::new(&data)).is_err());

    assert_eq!(Err(Error::OutOfBounds), IntegerReader::U8.read(Context::new_at(&data, 1000)));

    Ok(())
}

#[test]
fn integer_renderer_test_render() -> Result<(), Error> {
    let data = b"\x00\x01\x02\x03".to_vec();

    let formatter = IntegerRenderer::from(DefaultFormatter::new());
    let integer = IntegerReader::U8.read(Context::new_at(&data, 0))?;

    assert_eq!("0".to_string(), formatter.render(integer));

    Ok(())
}

#[test]
fn integer_formatter_test_render() -> Result<(), Error> {
    let data = b"\x00\x01\x02\x03".to_vec();

    let formatter = IntegerFormatter::Default(DefaultFormatter::new());
    let integer = IntegerReader::U8.read(Context::new_at(&data, 0))?;

    assert_eq!("0".to_string(), formatter.render(integer));
    assert_eq!("0x02", IntegerFormatter::Hex(HexFormatter { uppercase: false, prefix: true, padded: true }).render(IntegerReader::U8.read(Context::new_at(&data, 2))?));

    Ok(())
}

#[test]
fn readme_example() -> Result<(), Error> {
    let buffer = b"\x01\x23\x45\x67".to_vec();
    let context = Context::new_at(&buffer, 0);
    let reader = IntegerReader::U32(Endian::Big);
    let number = reader.read(context)?;

    assert_eq!("0x01234567", HexFormatter::pretty().render(number));
    assert_eq!("19088743", IntegerRenderer::from(DefaultFormatter::new()).render(number));
    assert_eq!("0o110642547", OctalFormatter::pretty_integer().render(number));
    assert_eq!("0b00000001001000110100010101100111", BinaryFormatter::pretty_integer().render(number));
    assert_eq!("1.9088743e7", IntegerRenderer::from(ScientificFormatter::new_pretty()).render(number));

    Ok(())
}

#[test]
fn reader_sizes_and_usize_compatibility() {
    assert_eq!(3, IntegerReader::U24(Endian::Big).size());
    assert_eq!(16, IntegerReader::I128(Endian::Little).size());
    assert!(IntegerReader::U32(Endian::Big).can_be_usize());
    assert!(!IntegerReader::I8.can_be_usize());
    assert!(!IntegerReader::U128(Endian::Big).can_be_usize());
    assert!(Integer::from(1u16).can_be_usize());
    assert!(Integer::from(1i16).can_be_isize());
    assert!(!Integer::from(1u16).can_be_isize());
    assert_eq!(0xffffffffffffffffffffffffffffffffu128, Integer::from(-1i32).as_u128());
}
