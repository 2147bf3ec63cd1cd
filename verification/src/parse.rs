//! The framed sentence that the decoders take.

use vstd::prelude::*;

verus! {

/// The longest text field, in bytes, that a record can hold.
pub const TEXT_PARAMETER_MAX_LEN: usize = 64;

/// The byte that separates two fields of a data body.
pub const FIELD_SEPARATOR: u8 = 44;

/// The byte that ends a data body and starts the checksum.
pub const CHECKSUM_MARKER: u8 = 42;

/// The sentence types that a framed sentence can carry.
#[derive(Debug, Clone, Copy, PartialEq, Eq, Hash, Structural)]
pub enum SentenceType {
    AAM,
    ABK,
    ACA,
    ACK,
    ACS,
    AIR,
    ALM,
    ALR,
    APA,
    APB,
    ASD,
    BEC,
    BOD,
    BWC,
    BWR,
    BWW,
    DBK,
    DBS,
    DBT,
    DCN,
    DPT,
    DSC,
    DSE,
    DSI,
    DSR,
    DTM,
    FSI,
    GBS,
    GGA,
    GLC,
    GLL,
    GMP,
    GNS,
    GRS,
    GSA,
    GST,
    GSV,
    GTD,
    GXA,
    HDG,
    HDM,
    HDT,
    HMR,
    HMS,
    HSC,
    HTC,
    HTD,
    LCD,
    MDA,
    MLA,
    MSK,
    MSS,
    MTW,
    MWD,
    MWV,
    OLN,
    OSD,
    RMA,
    RMB,
    RMC,
    ROT,
    RPM,
    RSA,
    RSD,
    RTE,
    SFI,
    SSD,
    STN,
    TLB,
    TLL,
    TRF,
    TTM,
    TUT,
    TXT,
    VBW,
    VDM,
    VDO,
    VDR,
    VHW,
    VLW,
    VPW,
    VSD,
    VTG,
    VWR,
    WCV,
    WNC,
    WPL,
    XDR,
    XTE,
    XTR,
    ZDA,
    ZDL,
    ZFO,
    ZTG,
}

/// A sentence as the framer hands it over: split into its parts, with the
/// checksum already verified.
#[derive(Debug, Clone, Copy, PartialEq, Eq)]
pub struct NmeaSentence<'a> {
    pub talker_id: &'a str,
    pub message_id: SentenceType,
    pub data: &'a str,
    pub checksum: u8,
}

} // verus!
