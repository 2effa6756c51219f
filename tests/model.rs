use std::path::PathBuf;

use tanita_reader::{
    Application, DataRaw, Effect, Gender, Message, RawUserRecord, TanitaValidationError,
    UserMeasurements,
};

const PROFILE: &str = "MO,BC-601,DB,14/06/1991,GE,2,Hm,165.5,AL,2,Bt,0,CS,AB\r\nMO,other\r\n";
const DATA: &str = "DT,01/02/2020,Ti,10:11:12,Wk,60.5,IF,7\r\nDT,bad,Ti,10:11:12\nDT,03/04/2021,Ti,01:02:03,rA,30\n";

#[test]
fn raw_record_from_file_texts() {
    let raw = RawUserRecord::from_contents(3, PROFILE, DATA);
    assert_eq!(raw.index, 3);
    assert_eq!(raw.profile.model, "BC-601");
    assert_eq!(raw.profile.checksum, "AB");
    assert_eq!(raw.data.len(), 3);
    assert_eq!(raw.data[0].time_hms, "10:11:12");
    assert_eq!(raw.data[2].metabolic_age_years, Some(30));
}

#[test]
fn empty_profile_file_gives_no_user() {
    let raw = RawUserRecord::from_contents(1, "", DATA);
    assert_eq!(raw.profile.birth_date_dmy, "");
    assert!(UserMeasurements::from_raw(raw).is_none());
}

#[test]
fn unreadable_measurements_are_skipped() {
    let raw = RawUserRecord::from_contents(3, PROFILE, DATA);
    let user = UserMeasurements::from_raw(raw).expect("profile reads");
    assert_eq!(user.index, 3);
    assert_eq!(user.profile.gender, Gender::Female);
    assert_eq!(user.measurements.len(), 2);
    assert_eq!(user.measurements[0].date_time.to_string(), "1/2/2020 10:11:12");
    assert_eq!(user.measurements[0].visceral_fat_rating, Some(7));
    assert_eq!(user.measurements[0].weight_kg.to_string(), "60.5");
    assert_eq!(user.measurements[1].metabolic_age_years, Some(30));
    assert_eq!(user.measurements[1].date_time.to_string(), "3/4/2021 1:2:3");
}

#[test]
fn measurement_needs_date_and_time() {
    let ok = DataRaw::from_csv_row("DT,01/02/2020,Ti,10:11:12,GE,1");
    let m = tanita_reader::Measurement::from_raw(ok).expect("moment reads");
    assert_eq!(m.gender_code, Gender::Male);
    let bad = DataRaw::from_csv_row("DT,01/02/2020");
    assert!(tanita_reader::Measurement::from_raw(bad).is_none());
}

#[test]
fn users_without_profile_are_left_out() {
    let good = RawUserRecord::from_contents(1, PROFILE, DATA);
    let bad = RawUserRecord::from_contents(2, "MO,BC-601", DATA);
    let good2 = RawUserRecord::from_contents(3, PROFILE, "");
    let users = UserMeasurements::from_raw_records(&vec![good, bad, good2]);
    let idx: Vec<u32> = users.iter().map(|u| u.index).collect();
    assert_eq!(idx, vec![1, 3]);
    assert!(users[1].measurements.is_empty());
}

#[test]
fn viewer_updates() {
    let mut app = Application::new();
    assert!(matches!(app.update(Message::PickFileOrFolder), Effect::PickFolder));
    assert!(matches!(app.update(Message::PathPicked(None)), Effect::Nothing));
    let first = match app.update(Message::PathPicked(Some(PathBuf::from("/a")))) {
        Effect::Load(t, p) => {
            assert_eq!(p, PathBuf::from("/a"));
            t
        }
        other => panic!("unexpected effect: {:?}", other),
    };
    let second = match app.update(Message::PathPicked(Some(PathBuf::from("/b")))) {
        Effect::Load(t, _) => t,
        other => panic!("unexpected effect: {:?}", other),
    };
    assert_ne!(first, second);
    let users = UserMeasurements::from_raw_records(&vec![RawUserRecord::from_contents(1, PROFILE, DATA)]);
    assert!(matches!(app.update(Message::Loaded(first, Ok(users.clone()))), Effect::Nothing));
    assert!(app.measurements.is_empty());
    assert!(matches!(app.update(Message::Loaded(second, Ok(users))), Effect::Nothing));
    assert_eq!(app.measurements.len(), 1);
    assert_eq!(app.selected().map(|u| u.index), Some(1));
    assert!(matches!(app.update(Message::TabSelected(5)), Effect::Nothing));
    assert_eq!(app.selected_tab, 5);
    assert!(app.selected().is_none());
    let third = match app.update(Message::PathPicked(Some(PathBuf::from("/c")))) {
        Effect::Load(t, _) => t,
        other => panic!("unexpected effect: {:?}", other),
    };
    match app.update(Message::Loaded(third, Err(TanitaValidationError::NoFilesFound))) {
        Effect::Report(TanitaValidationError::NoFilesFound) => {}
        other => panic!("unexpected effect: {:?}", other),
    }
    assert_eq!(app.measurements.len(), 1);
}

#[test]
fn measurement_carries_every_decoded_field() {
    let raw = DataRaw::from_csv_row("MO,BC-601,DT,01/02/2020,Ti,10:11:12,CS,7F,Q1,x,mW,40.5");
    let m = tanita_reader::Measurement::from_raw(raw).expect("moment reads");
    assert_eq!(m.model, "BC-601");
    assert_eq!(m.checksum, "7F");
    assert_eq!(m.extras, vec![("Q1".to_string(), "x".to_string())]);
    assert_eq!(m.muscle_percent.map(|d| d.to_string()), Some("40.5".to_string()));
}

#[test]
fn unreadable_file_error_names_the_user() {
    let mut app = Application::new();
    let t = match app.update(Message::PathPicked(Some(PathBuf::from("/x")))) {
        Effect::Load(t, _) => t,
        other => panic!("unexpected effect: {:?}", other),
    };
    match app.update(Message::Loaded(t, Err(TanitaValidationError::UnreadableFile(4)))) {
        Effect::Report(TanitaValidationError::UnreadableFile(4)) => {}
        other => panic!("unexpected effect: {:?}", other),
    }
}
