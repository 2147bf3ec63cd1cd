//! One decoder for each sentence type, and the field decoders they share.

pub mod apa;
pub mod rpm;
pub mod rsa;
pub mod steps;
pub mod utils;
pub mod ztg;

pub use apa::{parse_apa, ApaData};
pub use rpm::{parse_rpm, RpmData, RpmSource};
pub use rsa::{parse_rsa, RsaData};
pub use ztg::{parse_ztg, ZtgData};
