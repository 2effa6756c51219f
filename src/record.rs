//! The tagged records of the device's files: each line is a run of
//! `KEY,VALUE` pairs, decoded into typed fields.

use vstd::prelude::*;

use crate::number::{
    decimal_of, decimal_or_zero, u16_or_zero, u8_or_zero, unsigned_or_zero, Decimal,
};
use crate::pairing::TanitaParser;
use crate::text::{chars_of, split_chars, split_on, string_of, unquote, unquote_chars, views};

verus! {

/// The comma-separated tokens of a line.
pub open spec fn tokens_of(line: Seq<char>) -> Seq<Seq<char>> {
    split_on(line, ',')
}

/// How many whole `KEY,VALUE` pairs the tokens hold; a last key without a
/// value does not count.
pub open spec fn pair_count(ts: Seq<Seq<char>>) -> int {
    ts.len() as int / 2
}

/// The key of pair `j`, unquoted.
pub open spec fn key_at(ts: Seq<Seq<char>>, j: int) -> Seq<char> {
    unquote(ts[2 * j])
}

/// The raw value of pair `j`.
pub open spec fn value_at(ts: Seq<Seq<char>>, j: int) -> Seq<char> {
    ts[2 * j + 1]
}

/// `k` is the two-letter key `ab`.
pub open spec fn key_is(k: Seq<char>, a: char, b: char) -> bool {
    k.len() == 2 && k[0] == a && k[1] == b
}

/// The raw value of the last of the first `k` pairs whose key is `ab`.
pub open spec fn last_value(ts: Seq<Seq<char>>, k: int, a: char, b: char) -> Option<Seq<char>>
    decreases k,
{
    if k <= 0 {
        None
    } else if key_is(key_at(ts, k - 1), a, b) {
        Some(value_at(ts, k - 1))
    } else {
        last_value(ts, k - 1, a, b)
    }
}

/// A text field: the last value of its key, unquoted; empty without one.
pub open spec fn text_field(ts: Seq<Seq<char>>, k: int, a: char, b: char) -> Seq<char> {
    match last_value(ts, k, a, b) {
        Some(v) => unquote(v),
        None => Seq::empty(),
    }
}

/// A code field: the last value of its key as a `u8`, or zero.
pub open spec fn code_field(ts: Seq<Seq<char>>, k: int, a: char, b: char) -> u8 {
    match last_value(ts, k, a, b) {
        Some(v) => unsigned_or_zero(unquote(v), 255) as u8,
        None => 0,
    }
}

/// A reading field: the last value of its key as a decimal, or zero.
pub open spec fn reading_field(ts: Seq<Seq<char>>, k: int, a: char, b: char) -> Decimal {
    match last_value(ts, k, a, b) {
        Some(v) => decimal_of(unquote(v)),
        None => Decimal::zero_spec(),
    }
}

/// An optional reading: present exactly when its key occurs.
pub open spec fn opt_reading_field(ts: Seq<Seq<char>>, k: int, a: char, b: char) -> Option<
    Decimal,
> {
    match last_value(ts, k, a, b) {
        Some(v) => Some(decimal_of(unquote(v))),
        None => None,
    }
}

/// An optional code: present exactly when its key occurs.
pub open spec fn opt_code_field(ts: Seq<Seq<char>>, k: int, a: char, b: char) -> Option<u8> {
    match last_value(ts, k, a, b) {
        Some(v) => Some(unsigned_or_zero(unquote(v), 255) as u8),
        None => None,
    }
}

/// An optional `u16` amount: present exactly when its key occurs.
pub open spec fn opt_kcal_field(ts: Seq<Seq<char>>, k: int, a: char, b: char) -> Option<u16> {
    match last_value(ts, k, a, b) {
        Some(v) => Some(unsigned_or_zero(unquote(v), 65535) as u16),
        None => None,
    }
}

/// The keys that a measurement line may carry.
pub open spec fn is_data_key(k: Seq<char>) -> bool {
    key_is(k, 'M', 'O')
        || key_is(k, 'D', 'T')
        || key_is(k, 'T', 'i')
        || key_is(k, 'G', 'E')
        || key_is(k, 'A', 'G')
        || key_is(k, 'H', 'm')
        || key_is(k, 'A', 'L')
        || key_is(k, 'B', 't')
        || key_is(k, 'W', 'k')
        || key_is(k, 'M', 'I')
        || key_is(k, 'F', 'W')
        || key_is(k, 'F', 'r')
        || key_is(k, 'F', 'l')
        || key_is(k, 'F', 'R')
        || key_is(k, 'F', 'L')
        || key_is(k, 'F', 'T')
        || key_is(k, 'm', 'W')
        || key_is(k, 'm', 'r')
        || key_is(k, 'm', 'l')
        || key_is(k, 'm', 'R')
        || key_is(k, 'm', 'L')
        || key_is(k, 'm', 'T')
        || key_is(k, 'b', 'w')
        || key_is(k, 'w', 'w')
        || key_is(k, 'I', 'F')
        || key_is(k, 'r', 'A')
        || key_is(k, 'r', 'D')
        || key_is(k, 'C', 'S')
}

/// The pairs among the first `k` whose key is not a measurement key, raw
/// and in order.
pub open spec fn extras_upto(ts: Seq<Seq<char>>, k: int) -> Seq<(Seq<char>, Seq<char>)>
    decreases k,
{
    if k <= 0 {
        Seq::empty()
    } else if is_data_key(key_at(ts, k - 1)) {
        extras_upto(ts, k - 1)
    } else {
        extras_upto(ts, k - 1).push((ts[2 * (k - 1)], value_at(ts, k - 1)))
    }
}

/// The profile record that a line describes.
pub open spec fn profile_of_line(line: Seq<char>) -> ProfRawView {
    profile_upto(tokens_of(line), pair_count(tokens_of(line)))
}

/// The measurement record that a line describes.
pub open spec fn data_of_line(line: Seq<char>) -> DataRawView {
    data_upto(tokens_of(line), pair_count(tokens_of(line)))
}

impl TanitaParser {
    /// The `u8` that `s` holds exactly, or zero.
    pub fn parse_u8(s: &str) -> (r: u8)
        ensures
            r == unsigned_or_zero(s@, 255),
    {
        u8_or_zero(&chars_of(s))
    }

    /// The `u16` that `s` holds exactly, or zero.
    pub fn parse_u16(s: &str) -> (r: u16)
        ensures
            r == unsigned_or_zero(s@, 65535),
    {
        u16_or_zero(&chars_of(s))
    }

    /// The reading that `s` holds exactly in plain decimal notation, or
    /// zero; exponent notation, `inf` and `NaN` read as zero.
    pub fn parse_decimal(s: &str) -> (r: Decimal)
        ensures
            r == decimal_of(s@),
    {
        decimal_or_zero(&chars_of(s))
    }

    /// `s` trimmed, and without one pair of enclosing double quotes if it
    /// has both.
    pub fn unquote(s: &str) -> (r: String)
        ensures
            r@ == unquote(s@),
    {
        string_of(&unquote_chars(&chars_of(s)))
    }
}

/// Whether `key` is the two-letter key `ab`.
pub fn is_key(key: &Vec<char>, a: char, b: char) -> (r: bool)
    ensures
        r == key_is(key@, a, b),
{
    key.len() == 2 && key[0] == a && key[1] == b
}

/// The profile line of a `PROF` file, decoded field by field with nothing
/// checked.
#[derive(Clone, Debug, PartialEq)]
pub struct ProfRaw {
    /// `MO`: the device model, such as `BC-601`.
    pub model: String,
    /// `DB`: the date of birth as the device writes it, `day/month/year`.
    pub birth_date_dmy: String,
    /// `Bt`: the body (athlete mode) code.
    pub body_type_code: u8,
    /// `GE`: the gender code; 1 is male, 2 female.
    pub gender_code: u8,
    /// `Hm`: the height in centimetres.
    pub height_cm: Decimal,
    /// `AL`: the activity level code.
    pub activity_level_code: u8,
    /// `CS`: the record's check code.
    pub checksum: String,
}

/// What a [`ProfRaw`] holds, as mathematical values.
pub struct ProfRawView {
    pub model: Seq<char>,
    pub birth_date_dmy: Seq<char>,
    pub body_type_code: u8,
    pub gender_code: u8,
    pub height_cm: Decimal,
    pub activity_level_code: u8,
    pub checksum: Seq<char>,
}

impl View for ProfRaw {
    type V = ProfRawView;

    open spec fn view(&self) -> ProfRawView {
        ProfRawView {
            model: self.model@,
            birth_date_dmy: self.birth_date_dmy@,
            body_type_code: self.body_type_code,
            gender_code: self.gender_code,
            height_cm: self.height_cm,
            activity_level_code: self.activity_level_code,
            checksum: self.checksum@,
        }
    }
}

/// The record that the first `k` pairs of `ts` describe.
pub open spec fn profile_upto(ts: Seq<Seq<char>>, k: int) -> ProfRawView {
    ProfRawView {
        model: text_field(ts, k, 'M', 'O'),
        birth_date_dmy: text_field(ts, k, 'D', 'B'),
        body_type_code: code_field(ts, k, 'B', 't'),
        gender_code: code_field(ts, k, 'G', 'E'),
        height_cm: reading_field(ts, k, 'H', 'm'),
        activity_level_code: code_field(ts, k, 'A', 'L'),
        checksum: text_field(ts, k, 'C', 'S'),
    }
}

impl Default for ProfRaw {
    /// Every field empty, zero or absent.
    fn default() -> (r: ProfRaw)
        ensures
            r@ == profile_upto(Seq::empty(), 0),
    {
        ProfRaw {
            model: String::new(),
            birth_date_dmy: String::new(),
            body_type_code: 0,
            gender_code: 0,
            height_cm: Decimal::zero(),
            activity_level_code: 0,
            checksum: String::new(),
        }
    }
}

impl ProfRaw {
    /// Decodes one line of `KEY,VALUE,...` pairs. A key is compared
    /// unquoted; a value is unquoted, then read as its field's type, and
    /// reads as zero where it is not one. The last pair of a key wins, and a
    /// key without a value at the end of the line is ignored.
    pub fn from_csv_row(row: &str) -> (r: ProfRaw)
        ensures
            r@ == profile_of_line(row@),
    {
        ProfRaw::from_chars(&chars_of(row))
    }

    /// [`ProfRaw::from_csv_row`] on the characters of a line.
    pub fn from_chars(cs: &Vec<char>) -> (r: ProfRaw)
        ensures
            r@ == profile_of_line(cs@),
    {
        let ts = split_chars(cs, ',');
        let ghost tv = views(ts@);
        assert(tv.len() == ts@.len());
        let mut r = ProfRaw::default();
        let n = ts.len();
        let mut i: usize = 0;
        while i + 1 < n
            invariant
                n == ts.len() == tv.len(),
                tv == views(ts@),
                tv == tokens_of(cs@),
                i % 2 == 0,
                i <= n,
                r@ == profile_upto(tv, i as int / 2),
            decreases n - i,
        {
            let ghost k = i as int / 2;
            assert(ts@[i as int]@ == tv[2 * k] && ts@[i + 1]@ == tv[2 * k + 1]);
            let key = unquote_chars(&ts[i]);
            let v = unquote_chars(&ts[i + 1]);
            if is_key(&key, 'M', 'O') {
                r.model = string_of(&v);
            } else if is_key(&key, 'D', 'B') {
                r.birth_date_dmy = string_of(&v);
            } else if is_key(&key, 'B', 't') {
                r.body_type_code = u8_or_zero(&v);
            } else if is_key(&key, 'G', 'E') {
                r.gender_code = u8_or_zero(&v);
            } else if is_key(&key, 'H', 'm') {
                r.height_cm = decimal_or_zero(&v);
            } else if is_key(&key, 'A', 'L') {
                r.activity_level_code = u8_or_zero(&v);
            } else if is_key(&key, 'C', 'S') {
                r.checksum = string_of(&v);
            } else {
            }
            i += 2;
            assert(i as int / 2 == k + 1);
            assert(r@ == profile_upto(tv, k + 1));
        }
        assert(i as int / 2 == pair_count(tv));
        r
    }
}

/// One line of a `DATA` file, decoded field by field with nothing checked.
#[derive(Clone, Debug, PartialEq)]
pub struct DataRaw {
    /// `MO`: the device model.
    pub model: String,
    /// `DT`: the date of the measurement, `day/month/year`.
    pub date_dmy: String,
    /// `Ti`: the time of the measurement, `hours:minutes:seconds`.
    pub time_hms: String,
    /// `GE`: the gender code at the time of the measurement.
    pub gender_code: u8,
    /// `AG`: the age in years.
    pub age_years: u8,
    /// `Hm`: the height in centimetres.
    pub height_cm: Decimal,
    /// `AL`: the activity level code.
    pub activity_level_code: u8,
    /// `Bt`: the body (athlete mode) code.
    pub body_type_code: u8,
    /// `Wk`: the body mass in kilograms.
    pub weight_kg: Decimal,
    /// `MI`: the body mass index.
    pub bmi: Decimal,
    /// `FW`: the body fat in percent.
    pub fat_percent: Decimal,
    /// `Fr`: the fat of the right arm in percent.
    pub fat_right_arm_pct: Decimal,
    /// `Fl`: the fat of the left arm in percent.
    pub fat_left_arm_pct: Decimal,
    /// `FR`: the fat of the right leg in percent.
    pub fat_right_leg_pct: Decimal,
    /// `FL`: the fat of the left leg in percent.
    pub fat_left_leg_pct: Decimal,
    /// `FT`: the fat of the trunk in percent.
    pub fat_trunk_pct: Decimal,
    /// `mW`: the muscle in percent, when the line has it.
    pub muscle_percent: Option<Decimal>,
    /// `mr`: the muscle of the right arm in percent, when the line has it.
    pub muscle_right_arm_pct: Option<Decimal>,
    /// `ml`: the muscle of the left arm in percent, when the line has it.
    pub muscle_left_arm_pct: Option<Decimal>,
    /// `mR`: the muscle of the right leg in percent, when the line has it.
    pub muscle_right_leg_pct: Option<Decimal>,
    /// `mL`: the muscle of the left leg in percent, when the line has it.
    pub muscle_left_leg_pct: Option<Decimal>,
    /// `mT`: the muscle of the trunk in percent, when the line has it.
    pub muscle_trunk_pct: Option<Decimal>,
    /// `bw`: the estimated bone mass in kilograms, when the line has it.
    pub bone_kg: Option<Decimal>,
    /// `ww`: the body water in percent, when the line has it.
    pub water_percent: Option<Decimal>,
    /// `IF`: the visceral fat rating, when the line has it.
    pub visceral_fat_rating: Option<u8>,
    /// `rA`: the metabolic age in years, when the line has it.
    pub metabolic_age_years: Option<u8>,
    /// `rD`: the daily calorie intake in kcal, when the line has it.
    pub daily_calorie_intake_kcal: Option<u16>,
    /// `CS`: the record's check code.
    pub checksum: String,
    /// The pairs whose key is not one of the above, raw and in line order.
    pub extras: Vec<(String, String)>,
}

/// What a [`DataRaw`] holds, as mathematical values.
pub struct DataRawView {
    pub model: Seq<char>,
    pub date_dmy: Seq<char>,
    pub time_hms: Seq<char>,
    pub gender_code: u8,
    pub age_years: u8,
    pub height_cm: Decimal,
    pub activity_level_code: u8,
    pub body_type_code: u8,
    pub weight_kg: Decimal,
    pub bmi: Decimal,
    pub fat_percent: Decimal,
    pub fat_right_arm_pct: Decimal,
    pub fat_left_arm_pct: Decimal,
    pub fat_right_leg_pct: Decimal,
    pub fat_left_leg_pct: Decimal,
    pub fat_trunk_pct: Decimal,
    pub muscle_percent: Option<Decimal>,
    pub muscle_right_arm_pct: Option<Decimal>,
    pub muscle_left_arm_pct: Option<Decimal>,
    pub muscle_right_leg_pct: Option<Decimal>,
    pub muscle_left_leg_pct: Option<Decimal>,
    pub muscle_trunk_pct: Option<Decimal>,
    pub bone_kg: Option<Decimal>,
    pub water_percent: Option<Decimal>,
    pub visceral_fat_rating: Option<u8>,
    pub metabolic_age_years: Option<u8>,
    pub daily_calorie_intake_kcal: Option<u16>,
    pub checksum: Seq<char>,
    pub extras: Seq<(Seq<char>, Seq<char>)>,
}

impl View for DataRaw {
    type V = DataRawView;

    open spec fn view(&self) -> DataRawView {
        DataRawView {
            model: self.model@,
            date_dmy: self.date_dmy@,
            time_hms: self.time_hms@,
            gender_code: self.gender_code,
            age_years: self.age_years,
            height_cm: self.height_cm,
            activity_level_code: self.activity_level_code,
            body_type_code: self.body_type_code,
            weight_kg: self.weight_kg,
            bmi: self.bmi,
            fat_percent: self.fat_percent,
            fat_right_arm_pct: self.fat_right_arm_pct,
            fat_left_arm_pct: self.fat_left_arm_pct,
            fat_right_leg_pct: self.fat_right_leg_pct,
            fat_left_leg_pct: self.fat_left_leg_pct,
            fat_trunk_pct: self.fat_trunk_pct,
            muscle_percent: self.muscle_percent,
            muscle_right_arm_pct: self.muscle_right_arm_pct,
            muscle_left_arm_pct: self.muscle_left_arm_pct,
            muscle_right_leg_pct: self.muscle_right_leg_pct,
            muscle_left_leg_pct: self.muscle_left_leg_pct,
            muscle_trunk_pct: self.muscle_trunk_pct,
            bone_kg: self.bone_kg,
            water_percent: self.water_percent,
            visceral_fat_rating: self.visceral_fat_rating,
            metabolic_age_years: self.metabolic_age_years,
            daily_calorie_intake_kcal: self.daily_calorie_intake_kcal,
            checksum: self.checksum@,
            extras: self.extras@.map_values(|p: (String, String)| (p.0@, p.1@)),
        }
    }
}

/// The record that the first `k` pairs of `ts` describe.
pub open spec fn data_upto(ts: Seq<Seq<char>>, k: int) -> DataRawView {
    DataRawView {
        model: text_field(ts, k, 'M', 'O'),
        date_dmy: text_field(ts, k, 'D', 'T'),
        time_hms: text_field(ts, k, 'T', 'i'),
        gender_code: code_field(ts, k, 'G', 'E'),
        age_years: code_field(ts, k, 'A', 'G'),
        height_cm: reading_field(ts, k, 'H', 'm'),
        activity_level_code: code_field(ts, k, 'A', 'L'),
        body_type_code: code_field(ts, k, 'B', 't'),
        weight_kg: reading_field(ts, k, 'W', 'k'),
        bmi: reading_field(ts, k, 'M', 'I'),
        fat_percent: reading_field(ts, k, 'F', 'W'),
        fat_right_arm_pct: reading_field(ts, k, 'F', 'r'),
        fat_left_arm_pct: reading_field(ts, k, 'F', 'l'),
        fat_right_leg_pct: reading_field(ts, k, 'F', 'R'),
        fat_left_leg_pct: reading_field(ts, k, 'F', 'L'),
        fat_trunk_pct: reading_field(ts, k, 'F', 'T'),
        muscle_percent: opt_reading_field(ts, k, 'm', 'W'),
        muscle_right_arm_pct: opt_reading_field(ts, k, 'm', 'r'),
        muscle_left_arm_pct: opt_reading_field(ts, k, 'm', 'l'),
        muscle_right_leg_pct: opt_reading_field(ts, k, 'm', 'R'),
        muscle_left_leg_pct: opt_reading_field(ts, k, 'm', 'L'),
        muscle_trunk_pct: opt_reading_field(ts, k, 'm', 'T'),
        bone_kg: opt_reading_field(ts, k, 'b', 'w'),
        water_percent: opt_reading_field(ts, k, 'w', 'w'),
        visceral_fat_rating: opt_code_field(ts, k, 'I', 'F'),
        metabolic_age_years: opt_code_field(ts, k, 'r', 'A'),
        daily_calorie_intake_kcal: opt_kcal_field(ts, k, 'r', 'D'),
        checksum: text_field(ts, k, 'C', 'S'),
        extras: extras_upto(ts, k),
    }
}

impl Default for DataRaw {
    /// Every field empty, zero or absent.
    fn default() -> (r: DataRaw)
        ensures
            r@ == data_upto(Seq::empty(), 0),
    {
        let r = DataRaw {
            model: String::new(),
            date_dmy: String::new(),
            time_hms: String::new(),
            gender_code: 0,
            age_years: 0,
            height_cm: Decimal::zero(),
            activity_level_code: 0,
            body_type_code: 0,
            weight_kg: Decimal::zero(),
            bmi: Decimal::zero(),
            fat_percent: Decimal::zero(),
            fat_right_arm_pct: Decimal::zero(),
            fat_left_arm_pct: Decimal::zero(),
            fat_right_leg_pct: Decimal::zero(),
            fat_left_leg_pct: Decimal::zero(),
            fat_trunk_pct: Decimal::zero(),
            muscle_percent: None,
            muscle_right_arm_pct: None,
            muscle_left_arm_pct: None,
            muscle_right_leg_pct: None,
            muscle_left_leg_pct: None,
            muscle_trunk_pct: None,
            bone_kg: None,
            water_percent: None,
            visceral_fat_rating: None,
            metabolic_age_years: None,
            daily_calorie_intake_kcal: None,
            checksum: String::new(),
            extras: Vec::new(),
        };
        assert(r.extras@.map_values(|p: (String, String)| (p.0@, p.1@)) =~= Seq::empty());
        r
    }
}

impl DataRaw {
    /// Decodes one line of `KEY,VALUE,...` pairs. A key is compared
    /// unquoted; a value is unquoted, then read as its field's type, and
    /// reads as zero where it is not one. The last pair of a key wins, and a
    /// key without a value at the end of the line is ignored.
    pub fn from_csv_row(row: &str) -> (r: DataRaw)
        ensures
            r@ == data_of_line(row@),
    {
        DataRaw::from_chars(&chars_of(row))
    }

    /// [`DataRaw::from_csv_row`] on the characters of a line.
    pub fn from_chars(cs: &Vec<char>) -> (r: DataRaw)
        ensures
            r@ == data_of_line(cs@),
    {
        let ts = split_chars(cs, ',');
        let ghost tv = views(ts@);
        assert(tv.len() == ts@.len());
        let mut r = DataRaw::default();
        let n = ts.len();
        let mut i: usize = 0;
        while i + 1 < n
            invariant
                n == ts.len() == tv.len(),
                tv == views(ts@),
                tv == tokens_of(cs@),
                i % 2 == 0,
                i <= n,
                r@ == data_upto(tv, i as int / 2),
            decreases n - i,
        {
            let ghost k = i as int / 2;
            assert(ts@[i as int]@ == tv[2 * k] && ts@[i + 1]@ == tv[2 * k + 1]);
            let key = unquote_chars(&ts[i]);
            let v = unquote_chars(&ts[i + 1]);
            if is_key(&key, 'M', 'O') {
                r.model = string_of(&v);
            } else if is_key(&key, 'D', 'T') {
                r.date_dmy = string_of(&v);
            } else if is_key(&key, 'T', 'i') {
                r.time_hms = string_of(&v);
            } else if is_key(&key, 'G', 'E') {
                r.gender_code = u8_or_zero(&v);
            } else if is_key(&key, 'A', 'G') {
                r.age_years = u8_or_zero(&v);
            } else if is_key(&key, 'H', 'm') {
                r.height_cm = decimal_or_zero(&v);
            } else if is_key(&key, 'A', 'L') {
                r.activity_level_code = u8_or_zero(&v);
            } else if is_key(&key, 'B', 't') {
                r.body_type_code = u8_or_zero(&v);
            } else if is_key(&key, 'W', 'k') {
                r.weight_kg = decimal_or_zero(&v);
            } else if is_key(&key, 'M', 'I') {
                r.bmi = decimal_or_zero(&v);
            } else if is_key(&key, 'F', 'W') {
                r.fat_percent = decimal_or_zero(&v);
            } else if is_key(&key, 'F', 'r') {
                r.fat_right_arm_pct = decimal_or_zero(&v);
            } else if is_key(&key, 'F', 'l') {
                r.fat_left_arm_pct = decimal_or_zero(&v);
            } else if is_key(&key, 'F', 'R') {
                r.fat_right_leg_pct = decimal_or_zero(&v);
            } else if is_key(&key, 'F', 'L') {
                r.fat_left_leg_pct = decimal_or_zero(&v);
            } else if is_key(&key, 'F', 'T') {
                r.fat_trunk_pct = decimal_or_zero(&v);
            } else if is_key(&key, 'm', 'W') {
                r.muscle_percent = Some(decimal_or_zero(&v));
            } else if is_key(&key, 'm', 'r') {
                r.muscle_right_arm_pct = Some(decimal_or_zero(&v));
            } else if is_key(&key, 'm', 'l') {
                r.muscle_left_arm_pct = Some(decimal_or_zero(&v));
            } else if is_key(&key, 'm', 'R') {
                r.muscle_right_leg_pct = Some(decimal_or_zero(&v));
            } else if is_key(&key, 'm', 'L') {
                r.muscle_left_leg_pct = Some(decimal_or_zero(&v));
            } else if is_key(&key, 'm', 'T') {
                r.muscle_trunk_pct = Some(decimal_or_zero(&v));
            } else if is_key(&key, 'b', 'w') {
                r.bone_kg = Some(decimal_or_zero(&v));
            } else if is_key(&key, 'w', 'w') {
                r.water_percent = Some(decimal_or_zero(&v));
            } else if is_key(&key, 'I', 'F') {
                r.visceral_fat_rating = Some(u8_or_zero(&v));
            } else if is_key(&key, 'r', 'A') {
                r.metabolic_age_years = Some(u8_or_zero(&v));
            } else if is_key(&key, 'r', 'D') {
                r.daily_calorie_intake_kcal = Some(u16_or_zero(&v));
            } else if is_key(&key, 'C', 'S') {
                r.checksum = string_of(&v);
            } else {
                let ghost before = r.extras@;
                r.extras.push((string_of(&ts[i]), string_of(&ts[i + 1])));
                assert(r.extras@.map_values(|p: (String, String)| (p.0@, p.1@)) =~= before.map_values(
                    |p: (String, String)| (p.0@, p.1@),
                ).push((tv[2 * k], tv[2 * k + 1])));
            }
            i += 2;
            assert(i as int / 2 == k + 1);
            assert(r@ == data_upto(tv, k + 1));
        }
        assert(i as int / 2 == pair_count(tv));
        r
    }
}

/// Tokens that agree on their first `k` pairs give the same values to
/// every key and the same extras.
proof fn lemma_same_pairs(ts1: Seq<Seq<char>>, ts2: Seq<Seq<char>>, k: int)
    requires
        0 <= k,
        2 * k <= ts1.len(),
        2 * k <= ts2.len(),
        forall|j: int| 0 <= j < 2 * k ==> ts1[j] == ts2[j],
    ensures
        forall|a: char, b: char| #[trigger]
            last_value(ts1, k, a, b) == last_value(ts2, k, a, b),
        extras_upto(ts1, k) == extras_upto(ts2, k),
    decreases k,
{
    if k > 0 {
        lemma_same_pairs(ts1, ts2, k - 1);
        assert(ts1[2 * (k - 1)] == ts2[2 * (k - 1)]);
        assert(ts1[2 * (k - 1) + 1] == ts2[2 * (k - 1) + 1]);
        assert(key_at(ts1, k - 1) == key_at(ts2, k - 1));
        assert(value_at(ts1, k - 1) == value_at(ts2, k - 1));
        assert forall|a: char, b: char| #[trigger]
            last_value(ts1, k, a, b) == last_value(ts2, k, a, b) by {
            assert(last_value(ts1, k - 1, a, b) == last_value(ts2, k - 1, a, b));
        }
    }
}

/// A key left without a value at the end of a line is dropped: the record
/// is that of the whole pairs before it.
pub proof fn lemma_dangling_key_ignored(ts: Seq<Seq<char>>)
    requires
        ts.len() % 2 == 1,
    ensures
        data_upto(ts, pair_count(ts)) == data_upto(ts.drop_last(), pair_count(ts.drop_last())),
        profile_upto(ts, pair_count(ts)) == profile_upto(
            ts.drop_last(),
            pair_count(ts.drop_last()),
        ),
{
    let k = pair_count(ts);
    assert(pair_count(ts.drop_last()) == k);
    lemma_same_pairs(ts, ts.drop_last(), k);
}

/// Decoding depends on the line alone: two decodings of equal lines agree
/// field by field, extras included.
pub proof fn lemma_decoding_deterministic(line1: Seq<char>, line2: Seq<char>)
    requires
        line1 == line2,
    ensures
        data_of_line(line1) == data_of_line(line2),
        profile_of_line(line1) == profile_of_line(line2),
{
}

/// When every key among the first `k` pairs is a measurement key, nothing
/// is left over as extras.
pub proof fn lemma_known_keys_leave_no_extras(ts: Seq<Seq<char>>, k: int)
    requires
        0 <= k <= pair_count(ts),
        forall|j: int| 0 <= j < k ==> is_data_key(#[trigger] key_at(ts, j)),
    ensures
        extras_upto(ts, k).len() == 0,
    decreases k,
{
    if k > 0 {
        assert(is_data_key(key_at(ts, k - 1)));
        lemma_known_keys_leave_no_extras(ts, k - 1);
    }
}

/// A key has a value exactly when one of the pairs carries it, and the
/// value is that of the last such pair.
pub proof fn lemma_value_of_last_pair(ts: Seq<Seq<char>>, k: int, a: char, b: char)
    requires
        0 <= k,
    ensures
        last_value(ts, k, a, b) is Some <==> exists|j: int|
            0 <= j < k && key_is(#[trigger] key_at(ts, j), a, b),
        forall|j: int|
            0 <= j < k && key_is(#[trigger] key_at(ts, j), a, b) && (forall|i: int|
                j < i < k ==> !key_is(#[trigger] key_at(ts, i), a, b)) ==> last_value(ts, k, a, b)
                == Some(value_at(ts, j)),
    decreases k,
{
    if k > 0 {
        lemma_value_of_last_pair(ts, k - 1, a, b);
        if !key_is(key_at(ts, k - 1), a, b) {
            assert forall|j: int|
                0 <= j < k && key_is(#[trigger] key_at(ts, j), a, b) implies j < k - 1 by {}
        }
    }
}

/// A measurement line whose last `IF` pair has the value `7`, and which has
/// no `rA` pair, has a visceral fat rating of 7 and no metabolic age.
pub proof fn lemma_rating_without_metabolic_age(line: Seq<char>, j: int)
    requires
        0 <= j < pair_count(tokens_of(line)),
        key_is(key_at(tokens_of(line), j), 'I', 'F'),
        unquote(value_at(tokens_of(line), j)) == seq!['7'],
        forall|i: int|
            j < i < pair_count(tokens_of(line)) ==> !key_is(
                #[trigger] key_at(tokens_of(line), i),
                'I',
                'F',
            ),
        forall|i: int|
            0 <= i < pair_count(tokens_of(line)) ==> !key_is(
                #[trigger] key_at(tokens_of(line), i),
                'r',
                'A',
            ),
    ensures
        data_of_line(line).visceral_fat_rating == Some(7u8),
        data_of_line(line).metabolic_age_years is None,
{
    let ts = tokens_of(line);
    let k = pair_count(ts);
    lemma_value_of_last_pair(ts, k, 'I', 'F');
    lemma_value_of_last_pair(ts, k, 'r', 'A');
    let seven = seq!['7'];
    assert(seven.drop_first().len() == 0);
    assert(seven.drop_last() =~= Seq::<char>::empty());
    assert(seven.last() == '7');
    assert(crate::number::digit_value('7') == 7);
    assert(crate::number::digits_value(seven.drop_last()) == 0);
    assert(crate::number::digits_value(seven) == 7);
}

} // verus!
