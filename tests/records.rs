use tanita_reader::{DataRaw, Date, Decimal, Gender, ProfRaw, Profile, TanitaParser};

fn dec(negative: bool, digits: u64, scale: u8) -> Decimal {
    Decimal { negative, digits, scale }
}

#[test]
fn profile_line_with_quoted_tokens() {
    let line = "\"MO\",\"BC-601\",\"DB\",\"14/06/1991\",\"GE\",\"1\",\"Hm\",\"175.0\",\"AL\",\"2\",\"Bt\",\"0\",\"CS\",\"AB\"";
    let raw = ProfRaw::from_csv_row(line);
    assert_eq!(raw.model, "BC-601");
    assert_eq!(raw.birth_date_dmy, "14/06/1991");
    assert_eq!(raw.gender_code, 1);
    assert_eq!(raw.height_cm, dec(false, 1750, 1));
    assert_eq!(raw.activity_level_code, 2);
    assert_eq!(raw.body_type_code, 0);
    assert_eq!(raw.checksum, "AB");
    let profile = Profile::from_raw(raw).expect("the date of birth reads");
    assert_eq!(profile.gender, Gender::Male);
    assert_eq!(profile.birth_date_dmy, Date { days: 14, months: 6, years: 1991 });
    assert_eq!(profile.height_cm.to_string(), "175.0");
}

#[test]
fn profile_unknown_keys_are_ignored() {
    let raw = ProfRaw::from_csv_row("MO,BC-601,ZZ,9,GE,2");
    assert_eq!(raw.model, "BC-601");
    assert_eq!(raw.gender_code, 2);
    assert_eq!(raw.birth_date_dmy, "");
}

#[test]
fn profile_with_unreadable_birth_date_is_rejected() {
    let raw = ProfRaw::from_csv_row("MO,BC-601,DB,14/06,GE,1");
    assert!(Profile::from_raw(raw).is_none());
}

#[test]
fn visceral_rating_without_metabolic_age() {
    let raw = DataRaw::from_csv_row("DT,01/02/2020,Ti,10:11:12,IF,7,Wk,70.5");
    assert_eq!(raw.visceral_fat_rating, Some(7));
    assert_eq!(raw.metabolic_age_years, None);
    assert_eq!(raw.weight_kg, dec(false, 705, 1));
}

#[test]
fn optional_field_present_even_when_unreadable() {
    let raw = DataRaw::from_csv_row("rA,abc,mW,x");
    assert_eq!(raw.metabolic_age_years, Some(0));
    assert_eq!(raw.muscle_percent, Some(Decimal::zero()));
    assert_eq!(raw.bone_kg, None);
}

#[test]
fn odd_token_count_drops_the_dangling_key() {
    let raw = DataRaw::from_csv_row("MO,BC-601,AG,35,IF");
    assert_eq!(raw.model, "BC-601");
    assert_eq!(raw.age_years, 35);
    assert_eq!(raw.visceral_fat_rating, None);
    assert!(raw.extras.is_empty());
    let whole = DataRaw::from_csv_row("MO,BC-601,AG,35");
    assert_eq!(raw, whole);
    let lone = DataRaw::from_csv_row("XX");
    assert!(lone.extras.is_empty());
}

#[test]
fn decoding_twice_gives_the_same_record() {
    let line = "MO,BC-601,DT,05/06/2021,Ti,07:08:09,GE,1,AG,30,Hm,180.5,Wk,80.1,FW,20.0,rD,2500,CS,FF";
    let a = DataRaw::from_csv_row(line);
    let b = DataRaw::from_csv_row(line);
    assert_eq!(a, b);
    assert!(a.extras.is_empty());
    assert_eq!(a.daily_calorie_intake_kcal, Some(2500));
    assert_eq!(a.height_cm, dec(false, 1805, 1));
    assert_eq!(a.checksum, "FF");
}

#[test]
fn unknown_data_keys_are_kept_in_order() {
    let raw = DataRaw::from_csv_row("Q1,\"a\",MO,X,Q2, b ");
    assert_eq!(
        raw.extras,
        vec![
            ("Q1".to_string(), "\"a\"".to_string()),
            ("Q2".to_string(), " b ".to_string())
        ]
    );
    assert_eq!(raw.model, "X");
}

#[test]
fn last_pair_of_a_key_wins() {
    let raw = DataRaw::from_csv_row("AG,30,AG,31");
    assert_eq!(raw.age_years, 31);
}

#[test]
fn every_data_key_is_decoded() {
    let line = "MO,M,DT,1/2/2003,Ti,4:5:6,GE,2,AG,40,Hm,160.0,AL,3,Bt,1,Wk,60.2,MI,23.5,FW,30.1,Fr,31.0,Fl,32.0,FR,33.0,FL,34.0,FT,35.0,mW,36.0,mr,37.0,ml,38.0,mR,39.0,mL,40.0,mT,41.0,bw,2.5,ww,50.5,IF,9,rA,45,rD,1800,CS,0A";
    let r = DataRaw::from_csv_row(line);
    assert_eq!(r.model, "M");
    assert_eq!(r.date_dmy, "1/2/2003");
    assert_eq!(r.time_hms, "4:5:6");
    assert_eq!(r.gender_code, 2);
    assert_eq!(r.age_years, 40);
    assert_eq!(r.height_cm, dec(false, 1600, 1));
    assert_eq!(r.activity_level_code, 3);
    assert_eq!(r.body_type_code, 1);
    assert_eq!(r.weight_kg, dec(false, 602, 1));
    assert_eq!(r.bmi, dec(false, 235, 1));
    assert_eq!(r.fat_percent, dec(false, 301, 1));
    assert_eq!(r.fat_right_arm_pct, dec(false, 310, 1));
    assert_eq!(r.fat_left_arm_pct, dec(false, 320, 1));
    assert_eq!(r.fat_right_leg_pct, dec(false, 330, 1));
    assert_eq!(r.fat_left_leg_pct, dec(false, 340, 1));
    assert_eq!(r.fat_trunk_pct, dec(false, 350, 1));
    assert_eq!(r.muscle_percent, Some(dec(false, 360, 1)));
    assert_eq!(r.muscle_right_arm_pct, Some(dec(false, 370, 1)));
    assert_eq!(r.muscle_left_arm_pct, Some(dec(false, 380, 1)));
    assert_eq!(r.muscle_right_leg_pct, Some(dec(false, 390, 1)));
    assert_eq!(r.muscle_left_leg_pct, Some(dec(false, 400, 1)));
    assert_eq!(r.muscle_trunk_pct, Some(dec(false, 410, 1)));
    assert_eq!(r.bone_kg, Some(dec(false, 25, 1)));
    assert_eq!(r.water_percent, Some(dec(false, 505, 1)));
    assert_eq!(r.visceral_fat_rating, Some(9));
    assert_eq!(r.metabolic_age_years, Some(45));
    assert_eq!(r.daily_calorie_intake_kcal, Some(1800));
    assert_eq!(r.checksum, "0A");
    assert!(r.extras.is_empty());
}

#[test]
fn integers_read_permissively() {
    assert_eq!(TanitaParser::parse_u8("255"), 255);
    assert_eq!(TanitaParser::parse_u8("256"), 0);
    assert_eq!(TanitaParser::parse_u8("+7"), 7);
    assert_eq!(TanitaParser::parse_u8("-7"), 0);
    assert_eq!(TanitaParser::parse_u8(""), 0);
    assert_eq!(TanitaParser::parse_u8("+"), 0);
    assert_eq!(TanitaParser::parse_u8(" 7"), 0);
    assert_eq!(TanitaParser::parse_u8("007"), 7);
    assert_eq!(TanitaParser::parse_u16("65535"), 65535);
    assert_eq!(TanitaParser::parse_u16("65536"), 0);
    assert_eq!(TanitaParser::parse_u16("1800"), 1800);
}

#[test]
fn decimals_read_permissively() {
    assert_eq!(TanitaParser::parse_decimal("175.0"), dec(false, 1750, 1));
    assert_eq!(TanitaParser::parse_decimal("-2.25"), dec(true, 225, 2));
    assert_eq!(TanitaParser::parse_decimal("+.5"), dec(false, 5, 1));
    assert_eq!(TanitaParser::parse_decimal("3."), dec(false, 3, 0));
    assert_eq!(TanitaParser::parse_decimal("42"), dec(false, 42, 0));
    assert_eq!(TanitaParser::parse_decimal("."), Decimal::zero());
    assert_eq!(TanitaParser::parse_decimal("1.2.3"), Decimal::zero());
    assert_eq!(TanitaParser::parse_decimal("1e3"), Decimal::zero());
    assert_eq!(TanitaParser::parse_decimal(""), Decimal::zero());
    assert_eq!(TanitaParser::parse_decimal("99999999999999999999"), Decimal::zero());
}

#[test]
fn decimals_written_back() {
    assert_eq!(dec(false, 1750, 1).to_string(), "175.0");
    assert_eq!(dec(false, 5, 2).to_string(), "0.05");
    assert_eq!(dec(true, 225, 2).to_string(), "-2.25");
    assert_eq!(dec(false, 42, 0).to_string(), "42");
    assert_eq!(Decimal::zero().to_string(), "0");
}

#[test]
fn values_are_unquoted() {
    assert_eq!(TanitaParser::unquote("  \"abc\" "), "abc");
    assert_eq!(TanitaParser::unquote("\""), "\"");
    assert_eq!(TanitaParser::unquote("\"\""), "");
    assert_eq!(TanitaParser::unquote("\"abc"), "\"abc");
    assert_eq!(TanitaParser::unquote("\t x \n"), "x");
}

#[test]
fn decimals_read_back_what_they_write() {
    for d in [dec(false, 1750, 1), dec(true, 0, 0), dec(false, 5, 3), dec(true, u64::MAX, 255)] {
        assert_eq!(TanitaParser::parse_decimal(&d.to_string()), d);
    }
}
