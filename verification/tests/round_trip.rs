use h2gb::data::constants::Constants;
use h2gb::data::enums::Enums;
use h2gb::data::h2bitmasks::H2Bitmasks;
use h2gb::data::h2constants::H2Constants;
use h2gb::data::h2enums::H2Enums;
use h2gb::error::Error;
use h2gb::number::integer::Integer;

/// Names that CSV has to quote, as a JSON object with distinct values.
const AWKWARD_JSON: &str = "{ \"plain\": \"1\", \"with,comma\": \"-2\", \"with \\\"quotes\\\"\": \"0x100\", \
     \"two\\nlines\": \"18446744073709551615\", \"\": \"-170141183460469231731687303715884105728\", \
     \"  spaced  \": \"340282366920938463463374607431768211455\", \"ünïcödé\": \"7\" }";

fn awkward() -> Vec<(&'static str, Integer)> {
    vec![
        ("plain", Integer::from(1u8)),
        ("with,comma", Integer::from(-2i8)),
        ("with \"quotes\"", Integer::from(0x100u16)),
        ("two\nlines", Integer::from(u64::MAX)),
        ("", Integer::from(i128::MIN)),
        ("  spaced  ", Integer::from(u128::MAX)),
        ("ünïcödé", Integer::from(7u8)),
    ]
}

fn check_awkward(get: impl Fn(&str) -> Option<Integer>, len: usize) {
    assert_eq!(awkward().len(), len);
    for (name, value) in awkward() {
        assert_eq!(Some(value), get(name), "{:?}", name);
    }
    assert_eq!(None, get("missing"));
}

#[test]
fn constants_round_trip_awkward_names() -> Result<(), Error> {
    let constants = Constants::load_from_json_string(AWKWARD_JSON)?;
    check_awkward(|n| constants.get_by_name(n).copied(), constants.len());

    let from_csv = Constants::load_from_csv_string(&constants.to_csv()?)?;
    check_awkward(|n| from_csv.get_by_name(n).copied(), from_csv.len());
    let before: Vec<String> = constants.list().into_iter().map(|(n, _)| n).collect();
    let after: Vec<String> = from_csv.list().into_iter().map(|(n, _)| n).collect();
    assert_eq!(before, after);

    let from_json = Constants::load_from_json_string(&constants.to_json()?)?;
    check_awkward(|n| from_json.get_by_name(n).copied(), from_json.len());
    Ok(())
}

#[test]
fn enums_round_trip_awkward_names() -> Result<(), Error> {
    let enums = Enums::load_from_json_string(AWKWARD_JSON)?;
    let from_csv = Enums::load_from_csv_string(&enums.to_csv()?)?;
    check_awkward(|n| from_csv.get_by_name(n).copied(), from_csv.len());
    let from_json = Enums::load_from_json_string(&enums.to_json()?)?;
    check_awkward(|n| from_json.get_by_name(n).copied(), from_json.len());
    Ok(())
}

#[test]
fn h2enums_round_trip_awkward_names() -> Result<(), Error> {
    let enums = H2Enums::load_from_json_string(AWKWARD_JSON)?;
    let from_csv = H2Enums::load_from_csv_string(&enums.to_csv()?)?;
    check_awkward(|n| from_csv.get_by_name(n).copied(), from_csv.len());
    let from_json = H2Enums::load_from_json_string(&enums.to_json()?)?;
    check_awkward(|n| from_json.get_by_name(n).copied(), from_json.len());
    Ok(())
}

#[test]
fn h2constants_round_trip_awkward_names() -> Result<(), Error> {
    let constants = H2Constants::load_from_json_string(AWKWARD_JSON)?;
    let from_csv = H2Constants::load_from_csv_string(&constants.to_csv()?)?;
    check_awkward(|n| from_csv.get_by_name(n).copied(), from_csv.len());
    let from_json = H2Constants::load_from_json_string(&constants.to_json()?)?;
    check_awkward(|n| from_json.get_by_name(n).copied(), from_json.len());
    Ok(())
}

#[test]
fn h2bitmasks_round_trip_awkward_names() -> Result<(), Error> {
    let data = "{ \"a,b\": \"0\", \"say \\\"hi\\\"\": \"127\", \"x\\ny\": \"64\", \"\": \"3\" }";
    let bitmasks = H2Bitmasks::load_from_json_string(data)?;
    for again in [
        H2Bitmasks::load_from_csv_string(&bitmasks.to_csv()?)?,
        H2Bitmasks::load_from_json_string(&bitmasks.to_json()?)?,
    ] {
        assert_eq!(4, again.len());
        assert_eq!(Some(Integer::from(0u8)), again.get_by_name("a,b"));
        assert_eq!(Some(Integer::from(127u8)), again.get_by_name("say \"hi\""));
        assert_eq!(Some(Integer::from(64u8)), again.get_by_name("x\ny"));
        assert_eq!(Some(Integer::from(3u8)), again.get_by_name(""));
    }
    Ok(())
}
