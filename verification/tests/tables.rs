use h2gb::data::bitmask_tables::{self as bitmasks, bitmask_exists, from_bitmask, from_bitmask_str, load_bitmasks};
use h2gb::data::enum_tables::{self as enums, enum_exists, from_enum, load_enums};
use h2gb::data::h2constants::H2Constants;
use h2gb::data::lookup_tables::LookupTables;
use h2gb::error::Error;
use h2gb::number::integer::Integer;

fn check_five(constants: &H2Constants) {
    assert_eq!(Some(&Integer::from(1u32)), constants.get_by_name("TEST1"));
    assert_eq!(Some(&Integer::from(100u32)), constants.get_by_name("TEST2"));
    assert_eq!(Some(&Integer::from(5u8)), constants.get_by_name("TEST3"));
    assert_eq!(Some(&Integer::from(-10000i32)), constants.get_by_name("TEST4"));
    assert_eq!(Some(&Integer::from(0x100u32)), constants.get_by_name("TEST5"));
}

#[test]
fn h2constants_test_csv() -> Result<(), Error> {
    let constants: H2Constants = H2Constants::load_from_csv_string("TEST1,1\nTEST2,100\nTEST3,5\nTEST4,-10000\nTEST5,0x100\n")?;
    check_five(&constants);

    assert!(H2Constants::load_from_csv_string("TEST1,1\nTEST2\nTEST3,10\n").is_err());
    assert!(H2Constants::load_from_csv_string("100,TEST1\n").is_err());
    assert_eq!(2, H2Constants::load_from_csv_string("TEST1,100\n\n\n\n\nTEST3,200\n")?.len());
    assert!(H2Constants::load_from_csv_string("TEST1,1\nTEST2,1\n").is_err());
    assert!(H2Constants::load_from_csv_string("TEST1,1\nTEST1,2\n").is_err());

    let data = constants.to_csv()?;
    let constants = H2Constants::load_from_csv_string(&data)?;
    check_five(&constants);

    Ok(())
}

#[test]
fn h2constants_test_csv_empty() -> Result<(), Error> {
    assert_eq!(0, H2Constants::load_from_csv_string("")?.len());
    Ok(())
}

#[test]
fn h2constants_test_json() -> Result<(), Error> {
    let data = "{ \"TEST1\": \"1\", \"TEST3\": \"5\", \"TEST2\": \"100\", \"TEST4\": \"-10000\", \"TEST5\": \"0x100\" }";
    let constants: H2Constants = H2Constants::load_from_json_string(data)?;
    check_five(&constants);

    let data = constants.to_json()?;
    let constants = H2Constants::load_from_json_string(&data)?;
    check_five(&constants);

    Ok(())
}

#[test]
fn h2constants_test_yaml() -> Result<(), Error> {
    let data = "---
TEST4: -10000
TEST1: 1
TEST2: 100
TEST3: 5
TEST5: 256";

    let constants: H2Constants = H2Constants::load_from_yaml_string(data)?;
    check_five(&constants);

    let data = constants.to_yaml()?;
    let constants = H2Constants::load_from_yaml_string(&data)?;
    check_five(&constants);

    Ok(())
}

#[test]
fn h2constants_both_directions() -> Result<(), Error> {
    let constants = H2Constants::load_from_csv_string("A,1\nB,0x10\nC,-1\n")?;
    assert_eq!(Some("B".to_string()), constants.get_by_value(&Integer::from(16u64)));
    assert_eq!(Some("C".to_string()), constants.get_by_value(&Integer::from(-1i8)));
    assert_eq!(None, constants.get_by_value(&Integer::from(2u8)));
    assert_eq!(None, constants.get_by_name("D"));

    assert_eq!(Some(Error::DuplicateValue), H2Constants::load_from_csv_string("A,1\nB,1\n").err());
    assert_eq!(Some(Error::DuplicateName), H2Constants::load_from_csv_string("A,1\nA,2\n").err());
    assert_eq!(Some(Error::BadRecord), H2Constants::load_from_csv_string("A\n").err());
    assert_eq!(Some(Error::InvalidInteger), H2Constants::load_from_csv_string("A,B\n").err());
    Ok(())
}

#[test]
fn enum_tables_load_and_lookup() -> Result<(), Error> {
    let table = enums::load_from_csv("0,ZERO\n1,ONE\n+7,SEVEN\n")?;
    assert_eq!(vec![(0, "ZERO".to_string()), (1, "ONE".to_string()), (7, "SEVEN".to_string())], table);

    assert_eq!(Err(Error::DuplicateValue), enums::load_from_csv("1,ONE\n1,UNO\n"));
    assert_eq!(Err(Error::BadRecord), enums::load_from_csv("1,ONE,EINS\n"));
    assert_eq!(Err(Error::InvalidInteger), enums::load_from_csv("-1,MINUS\n"));
    assert_eq!(Err(Error::InvalidInteger), enums::load_from_csv("ONE,1\n"));

    let tables = load_enums(&vec![
        ("TestEnum".to_string(), "0,ZERO\n1,ONE\n".to_string()),
        ("Other".to_string(), "5,FIVE\n".to_string()),
    ])?;
    assert!(enum_exists(&tables, "TestEnum"));
    assert!(!enum_exists(&tables, "Missing"));
    assert_eq!(Ok(Some("ONE".to_string())), from_enum(&tables, "TestEnum", 1));
    assert_eq!(Ok(None), from_enum(&tables, "TestEnum", 2));
    assert_eq!(Err(Error::NotFound), from_enum(&tables, "Missing", 1));

    assert!(load_enums(&vec![("Bad".to_string(), "x,y\n".to_string())]).is_err());
    Ok(())
}

#[test]
fn bitmask_tables_load_and_lookup() -> Result<(), Error> {
    let table = bitmasks::load_from_csv("0,HIDE_SLOT_HEAD\n1,HIDE_SLOT_BODY\n")?;
    assert_eq!(2, table.len());
    assert_eq!(Err(Error::OutOfRange), bitmasks::load_from_csv("64,TOO_HIGH\n"));
    assert_eq!(Err(Error::BadRecord), bitmasks::load_from_csv("1\n"));

    let mut tables = LookupTables::new();
    tables.insert("TerrariaVisibility".to_string(), table);
    assert!(bitmask_exists(&tables, "TerrariaVisibility"));
    assert!(!bitmask_exists(&tables, "Nope"));

    assert_eq!(
        vec![(true, 1, "HIDE_SLOT_HEAD".to_string()), (false, 2, "HIDE_SLOT_BODY".to_string())],
        from_bitmask(&tables, "TerrariaVisibility", 1)?
    );
    assert_eq!(
        vec![(false, 1, "HIDE_SLOT_HEAD".to_string()), (true, 2, "HIDE_SLOT_BODY".to_string()), (true, 0x8000, "Unknown_0x8000".to_string())],
        from_bitmask(&tables, "TerrariaVisibility", 0x8002)?
    );
    assert_eq!(
        vec![(false, 1, "HIDE_SLOT_HEAD".to_string()), (false, 2, "HIDE_SLOT_BODY".to_string()), (true, 1 << 63, "Unknown_0x8000000000000000".to_string())],
        from_bitmask(&tables, "TerrariaVisibility", 1 << 63)?
    );

    assert_eq!(vec!["HIDE_SLOT_HEAD".to_string(), "HIDE_SLOT_BODY".to_string()], from_bitmask_str(&tables, "TerrariaVisibility", 3, false)?);
    assert_eq!(vec!["(n/a)".to_string()], from_bitmask_str(&tables, "TerrariaVisibility", 0, false)?);
    assert_eq!(vec!["~HIDE_SLOT_HEAD".to_string(), "~HIDE_SLOT_BODY".to_string()], from_bitmask_str(&tables, "TerrariaVisibility", 0, true)?);
    assert_eq!(vec!["HIDE_SLOT_HEAD".to_string(), "Unknown_0x8000".to_string()], from_bitmask_str(&tables, "TerrariaVisibility", 0x8001, false)?);
    assert_eq!(Err(Error::NotFound), from_bitmask_str(&tables, "Nope", 0, false));

    let later_wins = load_bitmasks(&vec![("B".to_string(), "0,FIRST\n0,SECOND\n".to_string())])?;
    assert_eq!(vec!["SECOND".to_string()], from_bitmask_str(&later_wins, "B", 1, false)?);
    Ok(())
}

#[test]
fn lookup_tables_replace_by_name() {
    let mut tables = LookupTables::new();
    tables.insert("A".to_string(), vec![(1, "X".to_string())]);
    tables.insert("B".to_string(), vec![(2, "Y".to_string())]);
    tables.insert("A".to_string(), vec![(1, "Z".to_string())]);
    assert_eq!(Ok(Some("Z".to_string())), tables.name_of("A", 1));
    assert_eq!(Ok(Some("Y".to_string())), tables.name_of("B", 2));
}
