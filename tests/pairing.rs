use tanita_reader::{TanitaPair, TanitaParser, TanitaValidationError, DATA_FILE_NAME_PREFIX, PROFILE_FILE_NAME_PREFIX};

fn names(v: &[&str]) -> Vec<String> {
    v.iter().map(|s| s.to_string()).collect()
}

#[test]
fn pairing_ignores_letter_case() {
    let system = names(&["PROF1.CSV", "prof2.csv"]);
    let data = names(&["DATA1.CSV", "DATA2.CSV"]);
    let pairs = TanitaParser::pair_files(Some(data), Some(system)).expect("paired");
    assert_eq!(
        pairs,
        vec![
            TanitaPair { index: 1, profile: "PROF1.CSV".to_string(), data: "DATA1.CSV".to_string() },
            TanitaPair { index: 2, profile: "prof2.csv".to_string(), data: "DATA2.CSV".to_string() },
        ]
    );
}

#[test]
fn pairs_come_in_increasing_order() {
    let system = names(&["PROF10.CSV", "PROF2.CSV", "notes.txt", "PROF1.CSV"]);
    let data = names(&["DATA2.CSV", "DATA1.CSV", "DATA10.csv"]);
    let pairs = TanitaParser::pair_files(Some(data), Some(system)).expect("paired");
    let idx: Vec<u32> = pairs.iter().map(|p| p.index).collect();
    assert_eq!(idx, vec![1, 2, 10]);
}

#[test]
fn profile_without_data_fails_the_load() {
    let system = names(&["PROF1.CSV", "PROF3.CSV"]);
    let data = names(&["DATA1.CSV"]);
    match TanitaParser::pair_files(Some(data), Some(system)) {
        Err(TanitaValidationError::Unpaired { missing_in_data, missing_in_profile }) => {
            assert_eq!(missing_in_data.into_iter().collect::<Vec<u32>>(), vec![3]);
            assert!(missing_in_profile.is_empty());
        }
        other => panic!("unexpected outcome: {:?}", other),
    }
}

#[test]
fn data_without_profile_fails_the_load() {
    let system = names(&["PROF1.CSV"]);
    let data = names(&["DATA1.CSV", "DATA4.CSV"]);
    match TanitaParser::pair_files(Some(data), Some(system)) {
        Err(TanitaValidationError::Unpaired { missing_in_data, missing_in_profile }) => {
            assert!(missing_in_data.is_empty());
            assert_eq!(missing_in_profile.into_iter().collect::<Vec<u32>>(), vec![4]);
        }
        other => panic!("unexpected outcome: {:?}", other),
    }
}

#[test]
fn missing_folders_are_named() {
    match TanitaParser::pair_files(None, Some(names(&["PROF1.CSV"]))) {
        Err(TanitaValidationError::MissingDir(n)) => assert_eq!(n, "DATA"),
        other => panic!("unexpected outcome: {:?}", other),
    }
    match TanitaParser::pair_files(Some(names(&["DATA1.CSV"])), None) {
        Err(TanitaValidationError::MissingDir(n)) => assert_eq!(n, "SYSTEM"),
        other => panic!("unexpected outcome: {:?}", other),
    }
}

#[test]
fn no_record_files_at_all() {
    let r = TanitaParser::pair_files(Some(names(&["readme.txt"])), Some(Vec::new()));
    assert!(matches!(r, Err(TanitaValidationError::NoFilesFound)));
}

#[test]
fn later_name_with_same_number_wins() {
    let system = names(&["PROF1.CSV", "prof01.csv"]);
    let data = names(&["DATA1.CSV"]);
    let pairs = TanitaParser::pair_files(Some(data), Some(system)).expect("paired");
    assert_eq!(pairs.len(), 1);
    assert_eq!(pairs[0].profile, "prof01.csv");
}

#[test]
fn file_numbers() {
    assert_eq!(TanitaParser::get_index("PROF1.CSV", PROFILE_FILE_NAME_PREFIX), Some(1));
    assert_eq!(TanitaParser::get_index("prof12.csv", PROFILE_FILE_NAME_PREFIX), Some(12));
    assert_eq!(TanitaParser::get_index("Data7.Csv", DATA_FILE_NAME_PREFIX), Some(7));
    assert_eq!(TanitaParser::get_index("DATA1.CSV", PROFILE_FILE_NAME_PREFIX), None);
    assert_eq!(TanitaParser::get_index("PROF.CSV", PROFILE_FILE_NAME_PREFIX), None);
    assert_eq!(TanitaParser::get_index("PROF1.TXT", PROFILE_FILE_NAME_PREFIX), None);
    assert_eq!(TanitaParser::get_index("PROF+1.CSV", PROFILE_FILE_NAME_PREFIX), None);
    assert_eq!(TanitaParser::get_index("PROF4294967296.CSV", PROFILE_FILE_NAME_PREFIX), None);
    assert_eq!(TanitaParser::get_index("PROF4294967295.CSV", PROFILE_FILE_NAME_PREFIX), Some(4294967295));
}
