//! The data pipeline of an unattended acoustic buoy and of the shore-side
//! service that ingests its recordings.
//!
//! The buoy cuts the serial byte stream of its hydrophone into frames,
//! packages each recording window, and uploads it with a small framed
//! message; the service checks that framing, and plans which artifacts are
//! stored for each upload, the metadata always last.
use vstd::prelude::*;

pub mod commands;
pub mod controller;
pub mod errors;
pub mod frame;
pub mod http;
pub mod ingest;
pub mod text;
pub mod voltage;
pub mod wire;

use crate::commands::FX30Command;

verus! {

/// Seconds between two rounds of uploads.
pub const FX30_SEND_INTERVAL_SECS: u64 = 60 * 5;

/// Seconds of sound collected in one recording window.
pub const FX30_RECORD_LEN: u64 = 60 * 5 / 8;

/// Seconds without any action after which a heartbeat is sent.
pub const FX30_NO_DATA_WAIT_SECS: u64 = 1800;

/// Seconds between two checks of the battery.
pub const FX30_PM_TIME_AWAKE_SECS: u64 = 60 * 5 * 2 - 60;

/// Below this battery voltage (millivolts) the buoy sleeps for a while.
pub const FX30_PM_POWER_MEDIUM_THRESH_MV: i64 = 12000;

/// Below this battery voltage (millivolts) the buoy sleeps for long.
pub const FX30_PM_POWER_LOW_THRESH_MV: i64 = 11000;

pub const FX30_PM_POWER_MEDIUM_SLEEP_TIME_SEC: u64 = 30 * 60;

pub const FX30_PM_POWER_LOW_SLEEP_TIME_SEC: u64 = 3 * 60 * 60;

/// Seconds waited before the buoy is put to sleep.
pub const FX30_PM_SETTLE_SECS: u64 = 60;

/// Seconds allowed for writing one upload.
pub const FX30_UPLOAD_SEND_TIMEOUT_SECS: u64 = 180;

/// Seconds allowed for the reply of the server.
pub const FX30_UPLOAD_RESP_TIMEOUT_SECS: u64 = 25;

/// Seconds allowed for a connection to be made.
pub const FX30_CONNECT_TIMEOUT_SECS: u64 = 30;

pub const SERIAL_BAUD: u32 = 230_400;

pub const SERIAL_BUF_SIZE: usize = 16384;

/// Milliseconds the serial port waits for bytes in one read.
pub const SERIAL_READ_TIMEOUT_MS: u64 = 200;

/// Seconds between two readings of the GPS.
pub const GPS_ACQUISITION_PERIOD_SECS: u64 = 15 * 60;

pub const BUOY_NAV_LIGHT_LONG_INT_MS: u64 = 16 * 1000;

pub const BUOY_NAV_LIGHT_NUM_SHORT: u64 = 5;

pub const BUOY_NAV_LIGHT_BLINK_OFF_MS: u64 = 400;

pub const BUOY_NAV_LIGHT_BLINK_ON_MS: u64 = 100;

/// Raw payloads longer than twice this are decoded into sound and pictures.
pub const MIN_X3_FILE_SIZE: usize = 1024;

pub const QUIC_PORT: u16 = 4433;

/// The largest request the server reads from one stream.
pub const MAX_STREAM_SIZE: usize = 50 * 1024 * 1024;

/// A byte that may stand in a buoy identifier: a hex digit or a hyphen.
pub open spec fn is_id_byte(b: u8) -> bool {
    (48 <= b <= 57) || (65 <= b <= 70) || (97 <= b <= 102) || b == 45
}

/// An identifier of 1 to 40 hex digits or hyphens.
pub open spec fn valid_buoy_id(id: Seq<u8>) -> bool {
    &&& 1 <= id.len() <= 40
    &&& forall|i: int| 0 <= i < id.len() ==> #[trigger] is_id_byte(id[i])
}

/// Text that holds no line break.
pub open spec fn single_line(s: Seq<u8>) -> bool {
    forall|i: int| 0 <= i < s.len() ==> #[trigger] s[i] != 13 && s[i] != 10
}

/// What one recording window, or one heartbeat, reports to the server.
#[derive(Clone, Debug)]
pub struct BuoyData {
    /// The buoy identifier.
    pub id: Vec<u8>,
    /// The raw hydrophone frames.
    pub hydrophone: Vec<u8>,
    /// The battery voltage, in millivolts.
    pub voltage_mv: i64,
    /// The number of dropped blocks.
    pub dropped_blocks: usize,
    /// The last known GPS fix, possibly empty.
    pub gps: Vec<u8>,
    /// When the recording started.
    pub start_time: Vec<u8>,
    /// Seconds the operating system has been up.
    pub uptime: i64,
}

impl BuoyData {
    /// The record can be written to the wire and read back: its identifier
    /// fits the path grammar and its text fields hold no line break.
    pub open spec fn wf(&self) -> bool {
        &&& valid_buoy_id(self.id@)
        &&& single_line(self.gps@)
        &&& single_line(self.start_time@)
    }
}

/// What the controller receives on its channel.
#[derive(Clone, Debug)]
pub enum ControllerAction {
    CtrlBuoyData(BuoyData),
    CtrlServerCmd(FX30Command),
}

} // verus!
