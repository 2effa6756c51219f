//! Reading of body-composition exports written by a Tanita scale: the tagged
//! key/value records, the pairing of profile and measurement files, and the
//! validated model built from them.

mod datetime;
mod model;
mod number;
mod pairing;
mod record;
mod state;
mod text;

pub use datetime::{Date, DateTime, Gender, Time};
pub use model::{Measurement, Profile, RawUserRecord, UserMeasurements};
pub use number::Decimal;
pub use pairing::{
    TanitaPair, TanitaParser, TanitaValidationError, CSV_EXTENTION_NAME, DATA_FILE_NAME_PREFIX,
    DATA_FOLDER_NAME, PROFILE_FILE_NAME_PREFIX, PROFILE_FOLDER_NAME,
};
pub use record::{DataRaw, ProfRaw};
pub use state::{Application, Effect, Message};
