//! Record kinds of the persisted capture files, and the recorder's
//! configuration values.

use vstd::prelude::*;

verus! {

/// The delimiter written between raw capture records: a CR/LF pattern
/// chosen not to occur in valid NMEA text nor, in practice, inside
/// u-blox frames.
pub open spec fn spec_default_delim() -> Seq<u8> {
    seq![13u8, 13u8, 10u8, 10u8, 13u8, 13u8, 10u8, 10u8]
}

/// What kind of records a store file holds.
#[derive(Debug, Copy, Clone, PartialEq, Eq, Structural, Hash)]
pub enum StoreKind {
    /// Raw capture bytes, delimited by the default record delimiter.
    Raw,
    /// One JSON record per line.
    Json,
}

impl StoreKind {
    /// The record delimiter this kind of store writes.
    pub fn delimiter(&self) -> (r: Vec<u8>)
        ensures
            self is Raw ==> r@ == spec_default_delim(),
            self is Json ==> r@ == seq![10u8],
    {
        let mut v: Vec<u8> = Vec::new();
        match self {
            StoreKind::Raw => {
                v.push(13);
                v.push(13);
                v.push(10);
                v.push(10);
                v.push(13);
                v.push(13);
                v.push(10);
                v.push(10);
                proof {
                    assert(v@ =~= spec_default_delim());
                }
            },
            StoreKind::Json => {
                v.push(10);
                proof {
                    assert(v@ =~= seq![10u8]);
                }
            },
        }
        v
    }
}

/// The recorder's configuration: the serial device to read, its baud
/// rate and timeout, and where captures are saved.
#[derive(Debug, Clone)]
pub struct RecorderCfg {
    /// The serial device path.
    pub serial_port: String,
    /// The baud rate of the serial device.
    pub baud_rate: u32,
    /// The read timeout in milliseconds.
    pub timeout: u64,
    /// The directory captures are saved under.
    pub save_dir: String,
}

} // verus!
