//! Decoding of NMEA 0183 sentence bodies into typed records.
//!
//! A framed sentence carries a talker id, a sentence type, the data body and
//! a checksum. Each decoder in [`sentences`] checks the sentence type and
//! then reads the body field by field, left to right, and stops at the first
//! field that is malformed.

pub mod decimal;
pub mod error;
pub mod parse;
pub mod scan;
pub mod sentences;
pub mod text;
pub mod time;

pub use decimal::Decimal;
pub use error::{Error, ParseErrorKind};
pub use parse::{NmeaSentence, SentenceType, TEXT_PARAMETER_MAX_LEN};
pub use sentences::{
    parse_apa, parse_rpm, parse_rsa, parse_ztg, ApaData, RpmData, RpmSource, RsaData, ZtgData,
};
