use h2gb::data::store::Data;
use h2gb::error::Error;
use h2gb::number::character::CharacterReader;
use h2gb::number::context::{Context, Endian};
use h2gb::number::format::{DefaultFormatter, HexFormatter, OctalFormatter};
use h2gb::number::integer::Integer;
use h2gb::number::integer_reader::IntegerReader;
use h2gb::number::renderer::{CharacterRenderer, IntegerRenderer};
use h2gb::types::alignment::Alignment;
use h2gb::types::h2type::{H2Array, H2Struct, H2Type};
use h2gb::types::network::IPv4;
use h2gb::types::numeric::{H2Character, H2Integer};
use h2gb::types::strings::NTString;

fn integer_type(reader: IntegerReader, renderer: IntegerRenderer) -> H2Type {
    H2Type::H2Integer(H2Integer::new(reader, renderer))
}

fn integer_type_aligned(alignment: Alignment, reader: IntegerReader, renderer: IntegerRenderer) -> H2Type {
    H2Type::H2Integer(H2Integer::new_aligned(Some(alignment), reader, renderer))
}

#[test]
fn test_struct() -> Result<(), Error> {
    let data = b"\x00\x01\x02\x03\x00\x01p\x0fppp\x0f\x0e\x0d\x0c".to_vec();

    let t = H2Type::H2Struct(H2Struct::new(vec![
        ("field_u32".to_string(), integer_type(IntegerReader::U32(Endian::Big), HexFormatter::pretty())),
        ("field_u16".to_string(), integer_type_aligned(Alignment::Loose(3), IntegerReader::U16(Endian::Big), HexFormatter::pretty())),
        ("field_u8".to_string(), integer_type_aligned(Alignment::Loose(4), IntegerReader::U8, OctalFormatter::new_integer(true, false))),
        ("field_u32_little".to_string(), integer_type(IntegerReader::U32(Endian::Little), IntegerRenderer::from(DefaultFormatter::new()))),
    ])?);

    let d = Data::new();
    let context = Context::new(&data);
    assert_eq!(15, t.base_size(context, &d)?);
    assert_eq!(15, t.aligned_size(context, &d)?);
    assert_eq!(0..15, t.base_range(context, &d)?);
    assert_eq!(0..15, t.aligned_range(context, &d)?);
    assert_eq!(
        "{ field_u32: 0x00010203, field_u16: 0x0001, field_u8: 0o17, field_u32_little: 202182159 }",
        t.to_display(context, &d)?
    );
    assert_eq!(4, t.children_with_range(context, &d)?.len());

    Ok(())
}

#[test]
fn test_nested_struct() -> Result<(), Error> {
    let data = b"...\x00\x01pp\x41\x42\x43\x43\x61\x62\x63\x64\x65ppp\x7f\x00\x00\x01".to_vec();

    let inner = H2Type::H2Struct(H2Struct::new(vec![
        ("A".to_string(), integer_type(IntegerReader::U8, HexFormatter::pretty())),
        ("B".to_string(), integer_type(IntegerReader::U8, HexFormatter::pretty())),
        ("C".to_string(), integer_type(IntegerReader::U16(Endian::Big), HexFormatter::pretty())),
        (
            "char_array".to_string(),
            H2Type::H2Array(H2Array::new_aligned(
                Some(Alignment::Loose(8)),
                5,
                H2Type::H2Character(H2Character::new(CharacterReader::ASCII, CharacterRenderer::default())),
            )?),
        ),
    ])?);
    let t = H2Type::H2Struct(H2Struct::new(vec![
        ("hex".to_string(), integer_type_aligned(Alignment::Loose(4), IntegerReader::U16(Endian::Big), HexFormatter::pretty())),
        ("struct".to_string(), inner),
        ("ipv4".to_string(), H2Type::IPv4(IPv4::new(Endian::Big))),
    ])?);

    let d = Data::new();
    let context = Context::new_at(&data, 3);
    assert_eq!(20, t.base_size(context, &d)?);
    assert_eq!(20, t.aligned_size(context, &d)?);
    assert_eq!(3..23, t.base_range(context, &d)?);
    assert_eq!(3..23, t.aligned_range(context, &d)?);
    assert_eq!(
        "{ hex: 0x0001, struct: { A: 0x41, B: 0x42, C: 0x4343, char_array: [ a, b, c, d, e ] }, ipv4: 127.0.0.1 }",
        t.to_display(context, &d)?
    );
    assert_eq!(3, t.children_with_range(context, &d)?.len());

    let children = t.children_with_range(context, &d)?;
    assert_eq!((3..7, Some("hex".to_string())), children[0]);
    assert_eq!((7..19, Some("struct".to_string())), children[1]);
    assert_eq!((19..23, Some("ipv4".to_string())), children[2]);

    Ok(())
}

#[test]
fn test_as_trait_named_reference() -> Result<(), Error> {
    let mut d = Data::new();

    d.insert_type("test_integer", integer_type(IntegerReader::U32(Endian::Little), IntegerRenderer::from(DefaultFormatter::new())))?;

    let t = H2Type::H2Struct(H2Struct::new(vec![
        ("field1".to_string(), H2Type::new_named("test_integer")),
        ("field2".to_string(), H2Type::new_named("test_integer")),
    ])?);

    let data = b"\x01\x02\x03\x04\xaa\xbb\xcc\xdd".to_vec();
    let context = Context::new(&data);

    let children = t.children_with_range(context, &d)?;
    assert_eq!(2, children.len());
    assert_eq!(0..4, children[0].0);
    assert_eq!(4..8, children[1].0);
    assert_eq!("{ field1: 67305985, field2: 3721182122 }", t.to_display(context, &d)?);

    assert!(matches!(t.as_trait(&d)?, H2Type::H2Struct(_)));
    assert!(matches!(H2Type::new_named("test_integer").as_trait(&d)?, H2Type::H2Integer(_)));

    Ok(())
}

#[test]
fn test_as_trait_failed_reference() -> Result<(), Error> {
    let mut d = Data::new();

    d.insert_type("test_integer", integer_type(IntegerReader::U32(Endian::Little), IntegerRenderer::from(DefaultFormatter::new())))?;

    let t = H2Type::H2Struct(H2Struct::new(vec![
        ("field1".to_string(), H2Type::new_named("test_integer")),
        ("field2".to_string(), H2Type::new_named("not_test_integer")),
    ])?);

    let data = b"\x01\x02\x03\x04\xaa\xbb\xcc\xdd".to_vec();
    assert_eq!(Err(Error::NotFound), t.to_display(Context::new(&data), &d));
    assert_eq!(Err(Error::NotFound), t.base_size(Context::new(&data), &d));

    Ok(())
}

#[test]
fn reference_cycle_is_refused() -> Result<(), Error> {
    let mut d = Data::new();
    d.insert_type("a", H2Type::new_named("b"))?;
    d.insert_type("b", H2Type::new_named("a"))?;
    let data = b"\x00\x00".to_vec();
    assert_eq!(Err(Error::ReferenceCycle), H2Type::new_named("a").base_size(Context::new(&data), &d));
    assert!(matches!(H2Type::new_named("a").as_trait(&d), Err(Error::ReferenceCycle)));

    d.insert_type("s", H2Type::H2Struct(H2Struct::new(vec![("again".to_string(), H2Type::new_named("s"))])?))?;
    assert_eq!(Err(Error::ReferenceCycle), H2Type::new_named("s").to_display(Context::new(&data), &d));
    Ok(())
}

#[test]
fn array_of_ntstrings() -> Result<(), Error> {
    let data = b"hi\0bye\0test\0".to_vec();
    let t = H2Type::H2Array(H2Array::new(3, H2Type::NTString(NTString::new(CharacterReader::ASCII, CharacterRenderer::default())))?);
    let d = Data::new();
    let context = Context::new(&data);
    assert_eq!(12, t.base_size(context, &d)?);
    assert_eq!("[ \"hi\", \"bye\", \"test\" ]", t.to_display(context, &d)?);
    Ok(())
}

#[test]
fn test_number_alignment() -> Result<(), Error> {
    let data = b"\x00\x00\x7f\xff\x80\x00\xff\xff".to_vec();
    let context = Context::new(&data);
    let d = Data::new();

    let t = integer_type_aligned(Alignment::Loose(8), IntegerReader::I16(Endian::Big), IntegerRenderer::from(DefaultFormatter::new()));

    assert_eq!(2, t.base_size(context.at(0), &d)?);
    assert_eq!(0..2, t.base_range(context.at(0), &d)?);
    assert_eq!(8, t.aligned_size(context.at(0), &d)?);
    assert_eq!(0..8, t.aligned_range(context.at(0), &d)?);

    assert_eq!(2..4, t.base_range(context.at(2), &d)?);
    assert_eq!(2..10, t.aligned_range(context.at(2), &d)?);

    assert_eq!(7..9, t.base_range(context.at(7), &d)?);
    assert_eq!(7..15, t.aligned_range(context.at(7), &d)?);

    assert_eq!("0", t.to_display(context.at(0), &d)?);
    assert_eq!("32767", t.to_display(context.at(2), &d)?);
    assert_eq!("-32768", t.to_display(context.at(4), &d)?);
    assert_eq!("-1", t.to_display(context.at(6), &d)?);

    Ok(())
}

#[test]
fn strict_alignment_refuses_unaligned_part() -> Result<(), Error> {
    let data = b"\x00\x00\x00\x00\x00\x00\x00\x00".to_vec();
    let d = Data::new();
    let t = H2Type::H2Struct(H2Struct::new(vec![
        ("a".to_string(), integer_type(IntegerReader::U8, HexFormatter::pretty())),
        ("b".to_string(), integer_type_aligned(Alignment::Strict(4), IntegerReader::U8, HexFormatter::pretty())),
    ])?);
    assert_eq!(Err(Error::Unaligned), t.base_size(Context::new(&data), &d));
    Ok(())
}

#[test]
fn resolve_struct_of_values() -> Result<(), Error> {
    let data = b"\x41\x00\x2a\xff".to_vec();
    let t = H2Type::H2Struct(H2Struct::new(vec![
        (
            "letter".to_string(),
            H2Type::H2Character(H2Character::new(CharacterReader::ASCII, CharacterRenderer::default())),
        ),
        ("number".to_string(), integer_type(IntegerReader::U16(Endian::Big), HexFormatter::pretty())),
    ])?);

    let d = Data::new();
    let r = t.resolve(Context::new(&data), Some("top".to_string()), &d)?;
    assert_eq!(0..3, r.base_range);
    assert_eq!(0..3, r.aligned_range);
    assert_eq!(3, r.base_size());
    assert_eq!(3, r.aligned_size());
    assert_eq!(Some("top".to_string()), r.field_name);
    assert_eq!("{ letter: A, number: 0x002a }", r.display);
    assert_eq!(0, r.related.len());
    assert!(r.as_string.is_none());
    assert!(r.as_integer.is_none());
    assert!(r.as_character.is_none());
    assert_eq!(2, r.children.len());

    let letter = &r.children[0];
    assert_eq!(Some("letter".to_string()), letter.field_name);
    assert_eq!(0..1, letter.base_range);
    assert_eq!("A", letter.display);
    assert_eq!('A', letter.as_character.unwrap().character);
    assert_eq!(1, letter.as_character.unwrap().size);
    assert!(letter.as_integer.is_none());
    assert_eq!(0, letter.children.len());

    let number = &r.children[1];
    assert_eq!(Some("number".to_string()), number.field_name);
    assert_eq!(1..3, number.base_range);
    assert_eq!(1..3, number.aligned_range);
    assert_eq!("0x002a", number.display);
    assert!(number.as_integer.unwrap() == Integer::from(0x2au16));
    assert!(number.as_character.is_none());
    Ok(())
}

#[test]
fn resolve_aligned_array_through_reference() -> Result<(), Error> {
    let data = b"\x01\x02\x03".to_vec();
    let mut d = Data::new();
    d.insert_type(
        "bytes",
        H2Type::H2Array(H2Array::new_aligned(
            Some(Alignment::Loose(4)),
            3,
            integer_type(IntegerReader::U8, HexFormatter::pretty()),
        )?),
    )?;

    let r = H2Type::new_named("bytes").resolve(Context::new(&data), None, &d)?;
    assert_eq!(0..3, r.base_range);
    assert_eq!(0..4, r.aligned_range);
    assert_eq!(4, r.aligned_size());
    assert_eq!(None, r.field_name);
    assert_eq!("[ 0x01, 0x02, 0x03 ]", r.display);
    assert_eq!(3, r.children.len());
    for (i, child) in r.children.iter().enumerate() {
        assert_eq!(i..(i + 1), child.base_range);
        assert_eq!(None, child.field_name);
        assert!(child.as_integer.unwrap() == Integer::from((i + 1) as u8));
    }
    Ok(())
}

#[test]
fn resolve_fails_on_reference_cycle_and_short_data() {
    let data = b"\x01".to_vec();
    let mut d = Data::new();
    d.insert_type(
        "loop",
        H2Type::H2Struct(
            H2Struct::new(vec![("again".to_string(), H2Type::new_named("loop"))]).unwrap(),
        ),
    )
    .unwrap();
    let r = H2Type::new_named("loop").resolve(Context::new(&data), None, &d);
    assert!(matches!(r, Err(Error::ReferenceCycle)));

    let r = H2Type::new_named("missing").resolve(Context::new(&data), None, &d);
    assert!(matches!(r, Err(Error::NotFound)));

    let r = integer_type(IntegerReader::U32(Endian::Big), HexFormatter::pretty())
        .resolve(Context::new(&data), None, &d);
    assert!(matches!(r, Err(Error::OutOfBounds)));
}
