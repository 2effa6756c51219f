//! The validated model of an export: profiles and measurements whose dates
//! and times have been read, gathered per user.

use vstd::prelude::*;

use crate::datetime::{date_of, date_time_of, gender_of, Date, DateTime, Gender};
use crate::number::Decimal;
use crate::record::{data_of_line, profile_of_line, DataRaw, DataRawView, ProfRaw, ProfRawView};
use crate::text::{chars_of, first_line, lines, lines_of, views};

verus! {

/// A user's profile with its date of birth read.
#[derive(Clone, Copy, Debug, PartialEq, Eq, Structural)]
pub struct Profile {
    pub birth_date_dmy: Date,
    pub gender: Gender,
    /// In centimetres.
    pub height_cm: Decimal,
    pub activity_level_code: u8,
    pub body_type_code: u8,
}

/// The profile that a decoded profile record gives, if its date of birth
/// reads.
pub open spec fn profile_from(v: ProfRawView) -> Option<Profile> {
    match date_of(v.birth_date_dmy) {
        Some(d) => Some(
            Profile {
                birth_date_dmy: d,
                gender: gender_of(v.gender_code),
                height_cm: v.height_cm,
                activity_level_code: v.activity_level_code,
                body_type_code: v.body_type_code,
            },
        ),
        None => None,
    }
}

impl Profile {
    /// The profile of a decoded record; there is none if its date of birth
    /// does not read.
    pub fn from_raw(raw: ProfRaw) -> (r: Option<Profile>)
        ensures
            r == profile_from(raw@),
    {
        match Date::from_string(raw.birth_date_dmy.as_str()) {
            Some(d) => Some(
                Profile {
                    birth_date_dmy: d,
                    gender: Gender::from(raw.gender_code),
                    height_cm: raw.height_cm,
                    activity_level_code: raw.activity_level_code,
                    body_type_code: raw.body_type_code,
                },
            ),
            None => None,
        }
    }
}

/// One measurement with its moment read; every other field is that of the
/// decoded line.
#[derive(Clone, Debug, PartialEq)]
pub struct Measurement {
    pub date_time: DateTime,
    pub gender_code: Gender,
    pub model: String,
    pub age_years: u8,
    pub height_cm: Decimal,
    pub activity_level_code: u8,
    pub body_type_code: u8,
    pub weight_kg: Decimal,
    pub bmi: Decimal,
    pub fat_percent: Decimal,
    pub fat_right_arm_pct: Decimal,
    pub fat_left_arm_pct: Decimal,
    pub fat_right_leg_pct: Decimal,
    pub fat_left_leg_pct: Decimal,
    pub fat_trunk_pct: Decimal,
    pub muscle_percent: Option<Decimal>,
    pub muscle_right_arm_pct: Option<Decimal>,
    pub muscle_left_arm_pct: Option<Decimal>,
    pub muscle_right_leg_pct: Option<Decimal>,
    pub muscle_left_leg_pct: Option<Decimal>,
    pub muscle_trunk_pct: Option<Decimal>,
    pub bone_kg: Option<Decimal>,
    pub water_percent: Option<Decimal>,
    pub visceral_fat_rating: Option<u8>,
    pub metabolic_age_years: Option<u8>,
    pub daily_calorie_intake_kcal: Option<u16>,
    pub checksum: String,
    /// The pairs of the line with unknown keys, raw and in line order.
    pub extras: Vec<(String, String)>,
}

/// What a [`Measurement`] holds, as mathematical values.
pub struct MeasurementView {
    pub date_time: DateTime,
    pub gender_code: Gender,
    pub model: Seq<char>,
    pub age_years: u8,
    pub height_cm: Decimal,
    pub activity_level_code: u8,
    pub body_type_code: u8,
    pub weight_kg: Decimal,
    pub bmi: Decimal,
    pub fat_percent: Decimal,
    pub fat_right_arm_pct: Decimal,
    pub fat_left_arm_pct: Decimal,
    pub fat_right_leg_pct: Decimal,
    pub fat_left_leg_pct: Decimal,
    pub fat_trunk_pct: Decimal,
    pub muscle_percent: Option<Decimal>,
    pub muscle_right_arm_pct: Option<Decimal>,
    pub muscle_left_arm_pct: Option<Decimal>,
    pub muscle_right_leg_pct: Option<Decimal>,
    pub muscle_left_leg_pct: Option<Decimal>,
    pub muscle_trunk_pct: Option<Decimal>,
    pub bone_kg: Option<Decimal>,
    pub water_percent: Option<Decimal>,
    pub visceral_fat_rating: Option<u8>,
    pub metabolic_age_years: Option<u8>,
    pub daily_calorie_intake_kcal: Option<u16>,
    pub checksum: Seq<char>,
    pub extras: Seq<(Seq<char>, Seq<char>)>,
}

/// The views of a sequence of text pairs.
pub open spec fn pair_views(ps: Seq<(String, String)>) -> Seq<(Seq<char>, Seq<char>)> {
    ps.map_values(|p: (String, String)| (p.0@, p.1@))
}

impl View for Measurement {
    type V = MeasurementView;

    open spec fn view(&self) -> MeasurementView {
        MeasurementView {
            date_time: self.date_time,
            gender_code: self.gender_code,
            model: self.model@,
            age_years: self.age_years,
            height_cm: self.height_cm,
            activity_level_code: self.activity_level_code,
            body_type_code: self.body_type_code,
            weight_kg: self.weight_kg,
            bmi: self.bmi,
            fat_percent: self.fat_percent,
            fat_right_arm_pct: self.fat_right_arm_pct,
            fat_left_arm_pct: self.fat_left_arm_pct,
            fat_right_leg_pct: self.fat_right_leg_pct,
            fat_left_leg_pct: self.fat_left_leg_pct,
            fat_trunk_pct: self.fat_trunk_pct,
            muscle_percent: self.muscle_percent,
            muscle_right_arm_pct: self.muscle_right_arm_pct,
            muscle_left_arm_pct: self.muscle_left_arm_pct,
            muscle_right_leg_pct: self.muscle_right_leg_pct,
            muscle_left_leg_pct: self.muscle_left_leg_pct,
            muscle_trunk_pct: self.muscle_trunk_pct,
            bone_kg: self.bone_kg,
            water_percent: self.water_percent,
            visceral_fat_rating: self.visceral_fat_rating,
            metabolic_age_years: self.metabolic_age_years,
            daily_calorie_intake_kcal: self.daily_calorie_intake_kcal,
            checksum: self.checksum@,
            extras: pair_views(self.extras@),
        }
    }
}

/// The measurement that a decoded line gives, if its date and time read.
pub open spec fn measurement_from(v: DataRawView) -> Option<MeasurementView> {
    match date_time_of(v.date_dmy, v.time_hms) {
        Some(date_time) => Some(MeasurementView {
            date_time,
            gender_code: gender_of(v.gender_code),
            model: v.model,
            age_years: v.age_years,
            height_cm: v.height_cm,
            activity_level_code: v.activity_level_code,
            body_type_code: v.body_type_code,
            weight_kg: v.weight_kg,
            bmi: v.bmi,
            fat_percent: v.fat_percent,
            fat_right_arm_pct: v.fat_right_arm_pct,
            fat_left_arm_pct: v.fat_left_arm_pct,
            fat_right_leg_pct: v.fat_right_leg_pct,
            fat_left_leg_pct: v.fat_left_leg_pct,
            fat_trunk_pct: v.fat_trunk_pct,
            muscle_percent: v.muscle_percent,
            muscle_right_arm_pct: v.muscle_right_arm_pct,
            muscle_left_arm_pct: v.muscle_left_arm_pct,
            muscle_right_leg_pct: v.muscle_right_leg_pct,
            muscle_left_leg_pct: v.muscle_left_leg_pct,
            muscle_trunk_pct: v.muscle_trunk_pct,
            bone_kg: v.bone_kg,
            water_percent: v.water_percent,
            visceral_fat_rating: v.visceral_fat_rating,
            metabolic_age_years: v.metabolic_age_years,
            daily_calorie_intake_kcal: v.daily_calorie_intake_kcal,
            checksum: v.checksum,
            extras: v.extras,
        }),
        None => None,
    }
}

/// A copy of text pairs.
fn copy_pairs(ps: &Vec<(String, String)>) -> (r: Vec<(String, String)>)
    ensures
        pair_views(r@) == pair_views(ps@),
{
    let mut r: Vec<(String, String)> = Vec::new();
    let mut i: usize = 0;
    while i < ps.len()
        invariant
            i <= ps.len(),
            pair_views(r@) == pair_views(ps@.subrange(0, i as int)),
        decreases ps.len() - i,
    {
        let ghost before = r@;
        r.push((ps[i].0.clone(), ps[i].1.clone()));
        assert(pair_views(r@) =~= pair_views(before).push((ps@[i as int].0@, ps@[i as int].1@)));
        i += 1;
        assert(pair_views(ps@.subrange(0, i as int)) =~= pair_views(ps@.subrange(0, i - 1)).push(
            (ps@[i - 1].0@, ps@[i - 1].1@),
        ));
    }
    assert(ps@.subrange(0, ps.len() as int) =~= ps@);
    r
}

impl Measurement {
    /// The measurement of a decoded line; there is none if its date or its
    /// time does not read.
    pub fn from_raw(raw: DataRaw) -> (r: Option<Measurement>)
        ensures
            match measurement_from(raw@) {
                Some(v) => r matches Some(m) && m@ == v,
                None => r is None,
            },
    {
        Measurement::from_decoded(&raw)
    }

    fn from_decoded(raw: &DataRaw) -> (r: Option<Measurement>)
        ensures
            match measurement_from(raw@) {
                Some(v) => r matches Some(m) && m@ == v,
                None => r is None,
            },
    {
        let date_time = match DateTime::from_string(raw.date_dmy.as_str(), raw.time_hms.as_str()) {
            Some(dt) => dt,
            None => {
                return None;
            },
        };
        Some(Measurement {
            date_time,
            gender_code: Gender::from(raw.gender_code),
            model: raw.model.clone(),
            age_years: raw.age_years,
            height_cm: raw.height_cm,
            activity_level_code: raw.activity_level_code,
            body_type_code: raw.body_type_code,
            weight_kg: raw.weight_kg,
            bmi: raw.bmi,
            fat_percent: raw.fat_percent,
            fat_right_arm_pct: raw.fat_right_arm_pct,
            fat_left_arm_pct: raw.fat_left_arm_pct,
            fat_right_leg_pct: raw.fat_right_leg_pct,
            fat_left_leg_pct: raw.fat_left_leg_pct,
            fat_trunk_pct: raw.fat_trunk_pct,
            muscle_percent: raw.muscle_percent,
            muscle_right_arm_pct: raw.muscle_right_arm_pct,
            muscle_left_arm_pct: raw.muscle_left_arm_pct,
            muscle_right_leg_pct: raw.muscle_right_leg_pct,
            muscle_left_leg_pct: raw.muscle_left_leg_pct,
            muscle_trunk_pct: raw.muscle_trunk_pct,
            bone_kg: raw.bone_kg,
            water_percent: raw.water_percent,
            visceral_fat_rating: raw.visceral_fat_rating,
            metabolic_age_years: raw.metabolic_age_years,
            daily_calorie_intake_kcal: raw.daily_calorie_intake_kcal,
            checksum: raw.checksum.clone(),
            extras: copy_pairs(&raw.extras),
        })
    }
}

/// The measurements that the decoded lines `ds` give, in order; a line
/// whose moment does not read is left out.
pub open spec fn measurements_from(ds: Seq<DataRawView>) -> Seq<MeasurementView>
    decreases ds.len(),
{
    if ds.len() == 0 {
        Seq::empty()
    } else {
        let m = measurements_from(ds.drop_last());
        match measurement_from(ds.last()) {
            Some(x) => m.push(x),
            None => m,
        }
    }
}

/// The decoded files of one numbered user.
#[derive(Clone, Debug)]
pub struct RawUserRecord {
    pub index: u32,
    pub profile: ProfRaw,
    pub data: Vec<DataRaw>,
}

/// The views of a sequence of decoded measurement lines.
pub open spec fn data_views(ds: Seq<DataRaw>) -> Seq<DataRawView> {
    ds.map_values(|d: DataRaw| d@)
}

impl RawUserRecord {
    /// Decodes the texts of a user's two files: the first line of the
    /// profile file (an empty one if it has none) and every line of the
    /// measurement file.
    pub fn from_contents(index: u32, profile_text: &str, data_text: &str) -> (r: RawUserRecord)
        ensures
            r.index == index,
            r.profile@ == profile_of_line(first_line(profile_text@)),
            data_views(r.data@) == lines(data_text@).map_values(|l: Seq<char>| data_of_line(l)),
    {
        let pl = lines_of(&chars_of(profile_text));
        let profile = if pl.len() > 0 {
            assert(pl@[0]@ == views(pl@)[0]);
            ProfRaw::from_chars(&pl[0])
        } else {
            assert(views(pl@).len() == 0);
            ProfRaw::from_chars(&Vec::new())
        };
        let dl = lines_of(&chars_of(data_text));
        let ghost ls = views(dl@);
        let mut data: Vec<DataRaw> = Vec::new();
        let mut i: usize = 0;
        while i < dl.len()
            invariant
                i <= dl.len(),
                ls == views(dl@),
                ls.len() == dl.len(),
                data_views(data@) == ls.subrange(0, i as int).map_values(
                    |l: Seq<char>| data_of_line(l),
                ),
            decreases dl.len() - i,
        {
            let ghost before = data@;
            assert(dl@[i as int]@ == ls[i as int]);
            data.push(DataRaw::from_chars(&dl[i]));
            assert(data_views(data@) =~= data_views(before).push(data_of_line(ls[i as int])));
            i += 1;
            assert(data_views(data@) =~= ls.subrange(0, i as int).map_values(
                |l: Seq<char>| data_of_line(l),
            ));
        }
        assert(ls.subrange(0, dl.len() as int) =~= ls);
        RawUserRecord { index, profile, data }
    }
}

/// One user's validated profile and measurements.
#[derive(Clone, Debug)]
pub struct UserMeasurements {
    /// The number of the user's files.
    pub index: u32,
    pub profile: Profile,
    pub measurements: Vec<Measurement>,
}

/// What a [`UserMeasurements`] holds, as mathematical values.
pub struct UserMeasurementsView {
    pub index: u32,
    pub profile: Profile,
    pub measurements: Seq<MeasurementView>,
}

/// The views of a sequence of measurements.
pub open spec fn measurement_views(ms: Seq<Measurement>) -> Seq<MeasurementView> {
    ms.map_values(|m: Measurement| m@)
}

impl View for UserMeasurements {
    type V = UserMeasurementsView;

    open spec fn view(&self) -> UserMeasurementsView {
        UserMeasurementsView {
            index: self.index,
            profile: self.profile,
            measurements: measurement_views(self.measurements@),
        }
    }
}

/// What a user's decoded files give: nothing without a readable profile;
/// otherwise the profile and the measurements whose moment reads, in order.
pub open spec fn user_from(raw: RawUserRecord) -> Option<UserMeasurementsView> {
    match profile_from(raw.profile@) {
        Some(p) => Some(
            UserMeasurementsView {
                index: raw.index,
                profile: p,
                measurements: measurements_from(data_views(raw.data@)),
            },
        ),
        None => None,
    }
}

/// The users that a load's decoded files give, in order, leaving out those
/// without a readable profile.
pub open spec fn users_from(raws: Seq<RawUserRecord>) -> Seq<UserMeasurementsView>
    decreases raws.len(),
{
    if raws.len() == 0 {
        Seq::empty()
    } else {
        let u = users_from(raws.drop_last());
        match user_from(raws.last()) {
            Some(x) => u.push(x),
            None => u,
        }
    }
}

/// The views of a sequence of users.
pub open spec fn user_views(us: Seq<UserMeasurements>) -> Seq<UserMeasurementsView> {
    us.map_values(|u: UserMeasurements| u@)
}

impl UserMeasurements {
    /// Validates a user's decoded files. Without a readable profile the
    /// user has no measurements at all; otherwise each line whose moment
    /// reads gives a measurement, in order, and the others are left out.
    pub fn from_raw(raw: RawUserRecord) -> (r: Option<UserMeasurements>)
        ensures
            match user_from(raw) {
                Some(v) => r matches Some(u) && u@ == v,
                None => r is None,
            },
    {
        UserMeasurements::from_decoded(&raw)
    }

    fn from_decoded(raw: &RawUserRecord) -> (r: Option<UserMeasurements>)
        ensures
            match user_from(*raw) {
                Some(v) => r matches Some(u) && u@ == v,
                None => r is None,
            },
    {
        let profile = match Date::from_string(raw.profile.birth_date_dmy.as_str()) {
            Some(d) => Profile {
                birth_date_dmy: d,
                gender: Gender::from(raw.profile.gender_code),
                height_cm: raw.profile.height_cm,
                activity_level_code: raw.profile.activity_level_code,
                body_type_code: raw.profile.body_type_code,
            },
            None => {
                return None;
            },
        };
        let ghost dv = data_views(raw.data@);
        let mut measurements: Vec<Measurement> = Vec::new();
        let mut i: usize = 0;
        while i < raw.data.len()
            invariant
                i <= raw.data.len(),
                dv == data_views(raw.data@),
                measurement_views(measurements@) == measurements_from(dv.subrange(0, i as int)),
            decreases raw.data.len() - i,
        {
            let ghost next = dv.subrange(0, i + 1);
            assert(next.drop_last() =~= dv.subrange(0, i as int));
            assert(next.last() == raw.data@[i as int]@);
            let ghost before = measurements@;
            match Measurement::from_decoded(&raw.data[i]) {
                Some(m) => {
                    measurements.push(m);
                    assert(measurement_views(measurements@) =~= measurement_views(before).push(m@));
                },
                None => {},
            }
            i += 1;
        }
        assert(dv.subrange(0, raw.data.len() as int) =~= dv);
        Some(UserMeasurements { index: raw.index, profile, measurements })
    }

    /// Validates every user of a load, in order, and leaves out those
    /// without a readable profile.
    pub fn from_raw_records(raws: &Vec<RawUserRecord>) -> (r: Vec<UserMeasurements>)
        ensures
            user_views(r@) == users_from(raws@),
    {
        let mut r: Vec<UserMeasurements> = Vec::new();
        let mut i: usize = 0;
        while i < raws.len()
            invariant
                i <= raws.len(),
                user_views(r@) == users_from(raws@.subrange(0, i as int)),
            decreases raws.len() - i,
        {
            let ghost next = raws@.subrange(0, i + 1);
            assert(next.drop_last() =~= raws@.subrange(0, i as int));
            let ghost before = r@;
            match UserMeasurements::from_decoded(&raws[i]) {
                Some(u) => {
                    r.push(u);
                    assert(user_views(r@) =~= user_views(before).push(u@));
                },
                None => {},
            }
            i += 1;
        }
        assert(raws@.subrange(0, raws.len() as int) =~= raws@);
        r
    }
}

} // verus!
