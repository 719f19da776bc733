use h2gb::data::constants::Constants;
use h2gb::data::data_entry::{DataEntry, LoadedFile};
use h2gb::data::enums::Enums;
use h2gb::data::h2bitmasks::H2Bitmasks;
use h2gb::data::h2enums::H2Enums;
use h2gb::data::load_options::{FileType, LoadName, LoadNamespace, LoadOptions};
use h2gb::data::store::Data;
use h2gb::error::Error;
use h2gb::number::format::DefaultFormatter;
use h2gb::number::integer::Integer;
use h2gb::number::integer_reader::IntegerReader;
use h2gb::number::renderer::IntegerRenderer;
use h2gb::types::h2type::H2Type;
use h2gb::types::numeric::H2Integer;

fn check_five(get: impl Fn(&str) -> Option<Integer>) {
    assert_eq!(Some(Integer::from(1u32)), get("TEST1"));
    assert_eq!(Some(Integer::from(100u32)), get("TEST2"));
    assert_eq!(Some(Integer::from(5u8)), get("TEST3"));
    assert_eq!(Some(Integer::from(-10000i32)), get("TEST4"));
    assert_eq!(Some(Integer::from(0x100u32)), get("TEST5"));
}

#[test]
fn h2bitmasks_test_csv() -> Result<(), Error> {
    let bitmasks: H2Bitmasks = H2Bitmasks::load_from_csv_string("TEST1,0\nTEST2,2\nTEST3,5\nTEST4,100\n")?;

    assert_eq!(Some(Integer::from(0u32)), bitmasks.get_by_name("TEST1"));
    assert_eq!(Some(Integer::from(2u32)), bitmasks.get_by_name("TEST2"));
    assert_eq!(Some(Integer::from(5u32)), bitmasks.get_by_name("TEST3"));
    assert_eq!(Some(Integer::from(100u32)), bitmasks.get_by_name("TEST4"));
    assert_eq!(None, bitmasks.get_by_name("TEST5"));

    let flags = bitmasks.get_by_value(&Integer::from(1u32));
    assert_eq!(vec!["TEST1".to_string()], flags);

    let flags = bitmasks.get_by_value(&Integer::from(5u32));
    assert_eq!(vec!["TEST1".to_string(), "TEST2".to_string()], flags);

    let flags = bitmasks.get_by_value(&Integer::from(7u32));
    assert_eq!(vec!["TEST1".to_string(), "Unknown_0x2".to_string(), "TEST2".to_string()], flags);

    assert!(H2Bitmasks::load_from_csv_string("TEST1,1\nTEST2\nTEST3,10\n").is_err());
    assert!(H2Bitmasks::load_from_csv_string("100,TEST1\n").is_err());
    assert!(H2Bitmasks::load_from_csv_string("TEST1,129\n").is_err());
    assert_eq!(2, H2Bitmasks::load_from_csv_string("TEST1,5\n\n\n\n\nTEST3,50\n")?.len());
    assert!(H2Bitmasks::load_from_csv_string("TEST1,1\nTEST1,2\n").is_err());

    let data = bitmasks.to_csv()?;
    let bitmasks = H2Bitmasks::load_from_csv_string(&data)?;

    assert_eq!(Some(Integer::from(0u32)), bitmasks.get_by_name("TEST1"));
    assert_eq!(Some(Integer::from(2u32)), bitmasks.get_by_name("TEST2"));
    assert_eq!(Some(Integer::from(5u32)), bitmasks.get_by_name("TEST3"));
    assert_eq!(Some(Integer::from(100u32)), bitmasks.get_by_name("TEST4"));
    assert_eq!(None, bitmasks.get_by_name("TEST5"));

    let flags = bitmasks.get_by_value(&Integer::from(1u32));
    assert_eq!(vec!["TEST1".to_string()], flags);
    let flags = bitmasks.get_by_value(&Integer::from(5u32));
    assert_eq!(vec!["TEST1".to_string(), "TEST2".to_string()], flags);
    let flags = bitmasks.get_by_value(&Integer::from(7u32));
    assert_eq!(vec!["TEST1".to_string(), "Unknown_0x2".to_string(), "TEST2".to_string()], flags);

    Ok(())
}

#[test]
fn h2bitmasks_error_kinds() {
    assert_eq!(Some(Error::MissingValue), H2Bitmasks::load_from_csv_string("TEST1\n").err());
    assert_eq!(Some(Error::InvalidInteger), H2Bitmasks::load_from_csv_string("100,TEST1\n").err());
    assert_eq!(Some(Error::OutOfRange), H2Bitmasks::load_from_csv_string("TEST1,128\n").err());
    assert_eq!(Some(Error::DuplicateName), H2Bitmasks::load_from_csv_string("TEST1,1\nTEST1,2\n").err());
    assert_eq!(Some(Error::DuplicateValue), H2Bitmasks::load_from_csv_string("TEST1,1\nTEST2,1\n").err());
    assert_eq!(Some(Error::BadRecord), H2Bitmasks::load_from_csv_string("TEST1,1,2\n").err());
}

#[test]
fn h2bitmasks_high_bits() -> Result<(), Error> {
    let bitmasks = H2Bitmasks::load_from_csv_string("LOW,0\nHIGH,127\n")?;
    let value = Integer::from(1u128 | (1u128 << 127) | 8u128);
    assert_eq!(
        vec!["LOW".to_string(), "Unknown_0x8".to_string(), "HIGH".to_string()],
        bitmasks.get_by_value(&value)
    );
    assert_eq!(Vec::<String>::new(), bitmasks.get_by_value(&Integer::from(0u8)));
    Ok(())
}

#[test]
fn h2bitmasks_json_yaml() -> Result<(), Error> {
    let bitmasks = H2Bitmasks::load_from_json_string("{ \"A\": \"0\", \"B\": \"3\" }")?;
    assert_eq!(vec!["A".to_string(), "B".to_string()], bitmasks.get_by_value(&Integer::from(9u8)));

    let again = H2Bitmasks::load_from_json_string(&bitmasks.to_json()?)?;
    assert_eq!(Some(Integer::from(3u8)), again.get_by_name("B"));

    let again = H2Bitmasks::load_from_yaml_string(&bitmasks.to_yaml()?)?;
    assert_eq!(Some(Integer::from(0u8)), again.get_by_name("A"));
    assert_eq!(2, again.len());
    Ok(())
}

#[test]
fn h2enums_test_csv() -> Result<(), Error> {
    let enums: H2Enums = H2Enums::load_from_csv_string("TEST1,1\nTEST2,100\nTEST3,5\nTEST4,-10000\nTEST5,0x100\n")?;
    check_five(|n| enums.get_by_name(n).copied());

    assert!(H2Enums::load_from_csv_string("TEST1,1\nTEST2\nTEST3,10\n").is_ok());
    assert!(H2Enums::load_from_csv_string("100,TEST1\n").is_err());
    assert_eq!(2, H2Enums::load_from_csv_string("TEST1,100\n\n\n\n\nTEST3,200\n")?.len());
    assert!(H2Enums::load_from_csv_string("TEST1,1\nTEST1,2\n").is_err());

    let data = enums.to_csv()?;
    let enums = H2Enums::load_from_csv_string(&data)?;
    check_five(|n| enums.get_by_name(n).copied());

    let enums: H2Enums = H2Enums::load_from_csv_string("TEST1,1\nTEST2,0o1\nTEST3,0x1\nTEST4,2\nTEST5,0x100\n")?;
    assert_eq!(Some(&Integer::from(1u32)), enums.get_by_name("TEST1"));
    assert_eq!(Some(&Integer::from(1u32)), enums.get_by_name("TEST2"));
    assert_eq!(Some(&Integer::from(1i32)), enums.get_by_name("TEST3"));

    let mut names = enums.get_by_value(&Integer::from(1u32)).unwrap().clone();
    names.sort();
    assert_eq!(vec!["TEST1".to_string(), "TEST2".to_string(), "TEST3".to_string()], names);

    Ok(())
}

#[test]
fn h2enums_test_csv_empty() -> Result<(), Error> {
    assert_eq!(0, H2Enums::load_from_csv_string("")?.len());
    Ok(())
}

#[test]
fn h2enums_test_json() -> Result<(), Error> {
    let data = "{ \"TEST1\": \"1\", \"TEST3\": \"5\", \"TEST2\": \"100\", \"TEST4\": \"-10000\", \"TEST5\": \"0x100\" }";
    let enums: H2Enums = H2Enums::load_from_json_string(data)?;
    check_five(|n| enums.get_by_name(n).copied());

    let data = enums.to_json()?;
    let enums = H2Enums::load_from_json_string(&data)?;
    check_five(|n| enums.get_by_name(n).copied());

    Ok(())
}

#[test]
fn h2enums_test_yaml() -> Result<(), Error> {
    let data = "---
TEST4: -10000
TEST1: 1
TEST2: 100
TEST3: 5
TEST5: 256";

    let enums: H2Enums = H2Enums::load_from_yaml_string(data)?;
    check_five(|n| enums.get_by_name(n).copied());

    let data = enums.to_yaml()?;
    let enums = H2Enums::load_from_yaml_string(&data)?;
    check_five(|n| enums.get_by_name(n).copied());

    Ok(())
}

#[test]
fn h2enums_test_autonumber() -> Result<(), Error> {
    let enums: H2Enums = H2Enums::load_from_csv_string("TEST1\nTEST2\nTEST3\n")?;
    assert_eq!(Some(&Integer::from(0u32)), enums.get_by_name("TEST1"));
    assert_eq!(Some(&Integer::from(1u32)), enums.get_by_name("TEST2"));
    assert_eq!(Some(&Integer::from(2u32)), enums.get_by_name("TEST3"));

    let enums: H2Enums = H2Enums::load_from_csv_string("TEST1\nTEST2,100\nTEST3\n")?;
    assert_eq!(Some(&Integer::from(0u32)), enums.get_by_name("TEST1"));
    assert_eq!(Some(&Integer::from(100u32)), enums.get_by_name("TEST2"));
    assert_eq!(Some(&Integer::from(101u32)), enums.get_by_name("TEST3"));

    let enums: H2Enums = H2Enums::load_from_csv_string("TEST1,-100\nTEST2\nTEST3,-1\nTEST4\n")?;
    assert_eq!(Some(&Integer::from(-100i32)), enums.get_by_name("TEST1"));
    assert_eq!(Some(&Integer::from(-99i32)), enums.get_by_name("TEST2"));
    assert_eq!(Some(&Integer::from(-1i32)), enums.get_by_name("TEST3"));
    assert_eq!(Some(&Integer::from(0u32)), enums.get_by_name("TEST4"));

    Ok(())
}

#[test]
fn h2enums_missing_value() {
    assert_eq!(None, H2Enums::load_from_csv_string("TEST1,1\n").unwrap().get_by_value(&Integer::from(2u8)));
}

#[test]
fn constants_test_csv() -> Result<(), Error> {
    let constants: Constants = Constants::load_from_csv_string("TEST1,1\nTEST2,100\nTEST3,5\nTEST4,-10000\nTEST5,0x100\n")?;
    check_five(|n| constants.get_by_name(n).copied());

    assert!(Constants::load_from_csv_string("TEST1,1\nTEST2\nTEST3,10\n").is_err());
    assert!(Constants::load_from_csv_string("100,TEST1\n").is_err());
    assert_eq!(2, Constants::load_from_csv_string("TEST1,100\n\n\n\n\nTEST3,200\n")?.len());
    assert!(Constants::load_from_csv_string("TEST1,1\nTEST1,2\n").is_err());

    let data = constants.to_csv()?;
    let constants = Constants::load_from_csv_string(&data)?;
    check_five(|n| constants.get_by_name(n).copied());

    let constants: Constants = Constants::load_from_csv_string("TEST1,1\nTEST2,0o1\nTEST3,0x1\nTEST4,2\nTEST5,0x100\n")?;
    assert_eq!(Some(&Integer::from(1u32)), constants.get_by_name("TEST1"));
    assert_eq!(Some(&Integer::from(1u32)), constants.get_by_name("TEST2"));
    assert_eq!(Some(&Integer::from(1i32)), constants.get_by_name("TEST3"));

    let mut names = constants.get_by_value(&Integer::from(1u32)).clone();
    names.sort();
    assert_eq!(vec!["TEST1".to_string(), "TEST2".to_string(), "TEST3".to_string()], names);

    Ok(())
}

#[test]
fn constants_test_csv_empty() -> Result<(), Error> {
    assert_eq!(0, Constants::load_from_csv_string("")?.len());
    Ok(())
}

#[test]
fn constants_test_json() -> Result<(), Error> {
    let data = "{ \"TEST1\": \"1\", \"TEST3\": \"5\", \"TEST2\": \"100\", \"TEST4\": \"-10000\", \"TEST5\": \"0x100\" }";
    let constants: Constants = Constants::load_from_json_string(data)?;
    check_five(|n| constants.get_by_name(n).copied());

    let data = constants.to_json()?;
    let constants = Constants::load_from_json_string(&data)?;
    check_five(|n| constants.get_by_name(n).copied());

    Ok(())
}

#[test]
fn constants_test_yaml() -> Result<(), Error> {
    let data = "---
TEST4: -10000
TEST1: 1
TEST2: 100
TEST3: 5
TEST5: 256";

    let constants: Constants = Constants::load_from_yaml_string(data)?;
    check_five(|n| constants.get_by_name(n).copied());

    let data = constants.to_yaml()?;
    let constants = Constants::load_from_yaml_string(&data)?;
    check_five(|n| constants.get_by_name(n).copied());

    Ok(())
}

#[test]
fn test_ron() -> Result<(), Error> {
    let data = "{ \"TEST1\": \"1\", \"TEST3\": \"5\", \"TEST2\": \"100\", \"TEST4\": \"-10000\", \"TEST5\": \"0x100\" }";
    let constants: Constants = Constants::load_from_ron_string(data)?;
    check_five(|n| constants.get_by_name(n).copied());

    let data = constants.to_json()?;
    let constants = Constants::load_from_json_string(&data)?;
    check_five(|n| constants.get_by_name(n).copied());

    let data = constants.to_ron()?;
    let constants = Constants::load_from_ron_string(&data)?;
    check_five(|n| constants.get_by_name(n).copied());

    Ok(())
}

#[test]
fn constants_save_and_load() -> Result<(), Error> {
    let constants = Constants::load(&vec![
        ("A".to_string(), "0x10".to_string()),
        ("B".to_string(), "-3".to_string()),
    ])?;
    assert_eq!(
        vec![("A".to_string(), "16".to_string()), ("B".to_string(), "-3".to_string())],
        constants.save()
    );
    let again = Constants::load(&constants.save())?;
    assert_eq!(Some(&Integer::from(16u8)), again.get_by_name("A"));
    assert_eq!(vec!["B".to_string()], again.lookup(&Integer::from(-3i8)));

    assert_eq!(
        Some(Error::MissingValue),
        Constants::load_str(vec![("A".to_string(), None)]).err()
    );
    let loaded = Constants::load_str(vec![("A".to_string(), Some(Integer::from(7u8)))])?;
    assert_eq!(1, loaded.len());
    assert_eq!(vec![("A".to_string(), Integer::from(7u8))], loaded.save_str());
    Ok(())
}

#[test]
fn enums_test_csv() -> Result<(), Error> {
    let enums: Enums = Enums::load_from_csv_string("TEST1,1\nTEST2,100\nTEST3,5\nTEST4,-10000\nTEST5,0x100\n")?;
    check_five(|n| enums.get_by_name(n).copied());

    assert!(Enums::load_from_csv_string("TEST1,1\nTEST2\nTEST3,10\n").is_ok());
    assert!(Enums::load_from_csv_string("100,TEST1\n").is_err());
    assert_eq!(2, Enums::load_from_csv_string("TEST1,100\n\n\n\n\nTEST3,200\n")?.len());
    assert!(Enums::load_from_csv_string("TEST1,1\nTEST1,2\n").is_err());

    let data = enums.to_csv()?;
    let enums = Enums::load_from_csv_string(&data)?;
    check_five(|n| enums.get_by_name(n).copied());

    let enums: Enums = Enums::load_from_csv_string("TEST1,1\nTEST2,0o1\nTEST3,0x1\nTEST4,2\nTEST5,0x100\n")?;
    let mut names = enums.get_by_value(&Integer::from(1u32)).unwrap().clone();
    names.sort();
    assert_eq!(vec!["TEST1".to_string(), "TEST2".to_string(), "TEST3".to_string()], names);

    Ok(())
}

#[test]
fn enums_test_csv_empty() -> Result<(), Error> {
    assert_eq!(0, Enums::load_from_csv_string("")?.len());
    Ok(())
}

#[test]
fn enums_test_json() -> Result<(), Error> {
    let data = "{ \"TEST1\": \"1\", \"TEST3\": \"5\", \"TEST2\": \"100\", \"TEST4\": \"-10000\", \"TEST5\": \"0x100\" }";
    let enums: Enums = Enums::load_from_json_string(data)?;
    check_five(|n| enums.get_by_name(n).copied());

    let data = enums.to_json()?;
    let enums = Enums::load_from_json_string(&data)?;
    check_five(|n| enums.get_by_name(n).copied());

    Ok(())
}

#[test]
fn enums_test_yaml() -> Result<(), Error> {
    let data = "---
TEST4: -10000
TEST1: 1
TEST2: 100
TEST3: 5
TEST5: 256";

    let enums: Enums = Enums::load_from_yaml_string(data)?;
    check_five(|n| enums.get_by_name(n).copied());

    let data = enums.to_yaml()?;
    let enums = Enums::load_from_yaml_string(&data)?;
    check_five(|n| enums.get_by_name(n).copied());

    Ok(())
}

#[test]
fn enums_test_autonumber() -> Result<(), Error> {
    let enums: Enums = Enums::load_from_csv_string("TEST1\nTEST2\nTEST3\n")?;
    assert_eq!(Some(&Integer::from(0u32)), enums.get_by_name("TEST1"));
    assert_eq!(Some(&Integer::from(1u32)), enums.get_by_name("TEST2"));
    assert_eq!(Some(&Integer::from(2u32)), enums.get_by_name("TEST3"));

    let enums: Enums = Enums::load_from_csv_string("TEST1\nTEST2,100\nTEST3\n")?;
    assert_eq!(Some(&Integer::from(0u32)), enums.get_by_name("TEST1"));
    assert_eq!(Some(&Integer::from(100u32)), enums.get_by_name("TEST2"));
    assert_eq!(Some(&Integer::from(101u32)), enums.get_by_name("TEST3"));

    let enums: Enums = Enums::load_from_csv_string("TEST1,-100\nTEST2\nTEST3,-1\nTEST4\n")?;
    assert_eq!(Some(&Integer::from(-100i32)), enums.get_by_name("TEST1"));
    assert_eq!(Some(&Integer::from(-99i32)), enums.get_by_name("TEST2"));
    assert_eq!(Some(&Integer::from(-1i32)), enums.get_by_name("TEST3"));
    assert_eq!(Some(&Integer::from(0u32)), enums.get_by_name("TEST4"));

    Ok(())
}

#[test]
fn test_load_empty_datum() -> Result<(), Error> {
    let mut d: DataEntry<Constants> = DataEntry::default();

    assert_eq!(0, d.list_namespaces().len());

    d.load_datum(Some("MyNamespace".into()), "name".to_string(), Constants::default())?;

    assert_eq!(1, d.list_namespaces().len());

    assert_eq!(1, d.len(Some("MyNamespace")));
    assert_eq!(0, d.len(Some("NoSuchNamespace")));
    assert_eq!(0, d.len(None));

    assert!(d.load_datum(Some("MyNamespace".into()), "name".to_string(), Constants::default()).is_err());

    assert_eq!(1, d.list_namespaces().len());

    assert!(d.load_datum(Some("MyNamespace2".into()), "name".to_string(), Constants::default()).is_ok());

    assert_eq!(2, d.list_namespaces().len());

    assert_eq!(false, d.contains(Some("MyNamespace"), "anything")?);
    assert!(d.contains(Some("NoSuchNamespace"), "anything").is_err());

    assert_eq!(vec!["name"], d.list(Some("MyNamespace"))?);

    assert!(d.list(Some("NoSuchNamespace")).is_err());

    assert_eq!(0, d.list(None)?.len());

    Ok(())
}

#[test]
fn test_load_actual_data() -> Result<(), Error> {
    let c1data = Constants::load(&vec![
        ("field1".to_string(), "1".to_string()),
        ("field2".to_string(), "2".to_string()),
    ])?;

    let c2data = Constants::load(&vec![
        ("field3".to_string(), "3".to_string()),
        ("field4".to_string(), "4".to_string()),
    ])?;

    let default_data = Constants::load(&vec![
        ("field0".to_string(), "0".to_string()),
        ("field-1".to_string(), "-1".to_string()),
    ])?;

    let mut d: DataEntry<Constants> = DataEntry::default();

    d.load_data(Some("MyNamespace".into()), vec![("name1".to_string(), c1data), ("name2".to_string(), c2data)])?;

    d.load_data(None, vec![("name1".to_string(), default_data)])?;

    assert_eq!(2, d.len(Some("MyNamespace")));
    assert_eq!(0, d.len(Some("NoSuchNamespace")));
    assert_eq!(1, d.len(None));

    assert_eq!(vec!["field1"], d.lookup(Some("MyNamespace"), "name1", &Integer::from(1u32))?);

    assert_eq!(Vec::<&str>::new(), d.lookup(Some("MyNamespace"), "name1", &Integer::from(10000u32))?);

    assert_eq!(Vec::<&str>::new(), d.lookup(None, "name1", &Integer::from(1u32))?);

    assert!(d.lookup(Some("NoSuchNamespace"), "name1", &Integer::from(1u32)).is_err());

    assert_eq!(1, d.list_namespaces().len());
    assert_eq!(2, d.list(Some("MyNamespace"))?.len());
    assert_eq!(1, d.list(None)?.len());

    let exported = d.export_single_entry(Some("MyNamespace"), "name1", FileType::CSV)?;
    let back = Constants::load_from_csv_string(&exported)?;
    assert_eq!(Some(&Integer::from(2u8)), back.get_by_name("field2"));

    Ok(())
}

#[test]
fn data_entry_get_and_errors() -> Result<(), Error> {
    let mut d: DataEntry<Constants> = DataEntry::new();
    d.load_datum(Some("ns".into()), "c".to_string(), Constants::load(&vec![("X".to_string(), "9".to_string())])?)?;
    assert_eq!(Some(&Integer::from(9u8)), d.get(Some("ns"), "c")?.get_by_name("X"));
    assert_eq!(Some(Error::NotFound), d.get(Some("ns"), "nope").err());
    assert_eq!(Some(Error::NoSuchNamespace), d.get(Some("other"), "c").err());
    assert!(d.contains_namespace(Some("ns")));
    assert!(d.contains_namespace(None));
    assert!(!d.contains_namespace(Some("other")));
    assert_eq!(vec!["ns".to_string()], d.list_namespaces());
    Ok(())
}

#[test]
fn data_entry_load_data_is_all_or_nothing() -> Result<(), Error> {
    let mut d: DataEntry<Constants> = DataEntry::new();
    d.load_datum(None, "a".to_string(), Constants::default())?;
    let r = d.load_data(None, vec![("b".to_string(), Constants::default()), ("a".to_string(), Constants::default())]);
    assert_eq!(Err(Error::DuplicateName), r);
    assert_eq!(1, d.len(None));
    Ok(())
}

#[test]
fn data_entry_load_files() -> Result<(), Error> {
    let mut d: DataEntry<Constants> = DataEntry::new();
    let files = vec![
        LoadedFile { stem: Some("test1".to_string()), parent_stem: Some("constants".to_string()), data: Constants::default() },
        LoadedFile { stem: Some("test2".to_string()), parent_stem: Some("constants".to_string()), data: Constants::default() },
    ];
    d.load_files(files, &LoadOptions::default())?;
    assert_eq!(vec!["test1", "test2"], d.list(Some("constants"))?);

    let mut d: DataEntry<Constants> = DataEntry::new();
    let files = vec![
        LoadedFile { stem: Some("test1".to_string()), parent_stem: Some("a".to_string()), data: Constants::default() },
        LoadedFile { stem: Some("test2".to_string()), parent_stem: Some("b".to_string()), data: Constants::default() },
    ];
    let options = LoadOptions::new(LoadNamespace::Specific("ns".to_string()), LoadName::Specific("one".to_string()));
    assert_eq!(Err(Error::DuplicateName), d.load_files(files, &options));
    assert_eq!(0, d.list_namespaces().len());

    let mut d: DataEntry<Constants> = DataEntry::new();
    let files = vec![LoadedFile { stem: None, parent_stem: None, data: Constants::default() }];
    assert_eq!(Err(Error::NoFileName), d.load_files(files, &LoadOptions::default()));

    let mut d: DataEntry<Constants> = DataEntry::new();
    let files = vec![LoadedFile { stem: Some("x".to_string()), parent_stem: None, data: Constants::default() }];
    d.load_files(files, &LoadOptions::new(LoadNamespace::Root, LoadName::Auto))?;
    assert_eq!(vec!["x"], d.list(None)?);
    Ok(())
}

#[test]
fn file_type_from_filename() {
    assert_eq!(Some(FileType::YAML), FileType::from_filename("a/b/test.yaml"));
    assert_eq!(Some(FileType::YAML), FileType::from_filename("test.yml"));
    assert_eq!(Some(FileType::JSON), FileType::from_filename("test.json"));
    assert_eq!(Some(FileType::CSV), FileType::from_filename("dir/test.csv"));
    assert_eq!(Some(FileType::RON), FileType::from_filename("test.ron"));
    assert_eq!(None, FileType::from_filename("test.txt"));
    assert_eq!(None, FileType::from_filename("noextension"));
}

#[test]
fn data_keeps_a_named_type() -> Result<(), Error> {
    let mut data = Data::new();
    data.types.load_datum(
        Some("MyNamespace".to_string()),
        "TypeName".to_string(),
        H2Type::H2Integer(H2Integer::new(IntegerReader::I8, IntegerRenderer::from(DefaultFormatter::new()))),
    )?;
    let t = data.types.get(Some("MyNamespace"), "TypeName")?;
    assert!(matches!(t, H2Type::H2Integer(_)));
    Ok(())
}

#[test]
fn data_looks_up_a_constant() -> Result<(), Error> {
    let mut data = Data::new();
    let constants = Constants::load(&vec![
        ("name1".to_string(), "1".to_string()),
        ("name2".to_string(), "2".to_string()),
        ("name3".to_string(), "0x03".to_string()),
        ("name4".to_string(), "0b0100".to_string()),
    ])?;
    data.constants.load_datum(Some("MyNamespace".to_string()), "ConstantsName".to_string(), constants)?;
    assert_eq!(
        vec!["name1".to_string()],
        data.constants.lookup(Some("MyNamespace"), "ConstantsName", &Integer::from(1u32))?
    );
    assert_eq!(
        vec!["name4".to_string()],
        data.constants.lookup(Some("MyNamespace"), "ConstantsName", &Integer::from(4u8))?
    );
    Ok(())
}

#[test]
fn data_entry_load_data_refuses_a_repeated_name() {
    let mut d: DataEntry<Constants> = DataEntry::new();
    let r = d.load_data(
        Some("ns".to_string()),
        vec![("a".to_string(), Constants::default()), ("a".to_string(), Constants::default())],
    );
    assert_eq!(Err(Error::DuplicateName), r);
    assert_eq!(Vec::<String>::new(), d.list_namespaces());
    assert_eq!(0, d.len(None));
}

#[test]
fn enums_value_lookup_agrees_with_name_lookup() -> Result<(), Error> {
    let text = "A,1\nB,0x1\nC,2\nD,-1\n";
    let enums = Enums::load_from_csv_string(text)?;
    for (name, value) in enums.list() {
        let names = enums.get_by_value(&value).unwrap();
        assert!(names.contains(&name));
        for other in &names {
            assert_eq!(value.as_u128(), enums.get_by_name(other).unwrap().as_u128());
        }
    }
    assert_eq!(None, enums.get_by_value(&Integer::from(3u8)));

    let h2 = H2Enums::load_from_csv_string(text)?;
    for name in ["A", "B", "C", "D"] {
        let value = *h2.get_by_name(name).unwrap();
        let names = h2.get_by_value(&value).unwrap();
        assert!(names.contains(&name.to_string()));
        for other in &names {
            assert_eq!(value.as_u128(), h2.get_by_name(other).unwrap().as_u128());
        }
    }
    let mut ones = h2.get_by_value(&Integer::from(1u8)).unwrap();
    ones.sort();
    assert_eq!(vec!["A".to_string(), "B".to_string()], ones);
    assert_eq!(None, h2.get_by_value(&Integer::from(3u8)));
    Ok(())
}
