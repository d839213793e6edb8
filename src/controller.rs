//! The decisions of the buoy: when a recording window is cut, what the
//! controller does with each event of its channel, and when the buoy saves
//! power. The loops that wait, read and send around these decisions are not
//! part of the library.
use vstd::prelude::*;

use crate::commands::FX30Command;
use crate::frame::{clean_x3_data, synchronized};
use crate::text::{buoy_id_value, buoy_id_value_bytes, push_all};
use crate::{
    is_id_byte, single_line, BuoyData, ControllerAction, FX30_PM_POWER_LOW_SLEEP_TIME_SEC, FX30_PM_POWER_LOW_THRESH_MV,
    FX30_PM_POWER_MEDIUM_SLEEP_TIME_SEC, FX30_PM_POWER_MEDIUM_THRESH_MV, FX30_PM_SETTLE_SECS,
    FX30_RECORD_LEN,
};

verus! {

/// The marker that starts every frame of the hydrophone: `S`, `T`, 0, 1.
pub open spec fn frame_marker() -> Seq<u8> {
    seq![83u8, 84, 0, 1]
}

pub fn frame_marker_bytes() -> (r: Vec<u8>)
    ensures
        r@ == frame_marker(),
{
    let r: Vec<u8> = vec![83, 84, 0, 1];
    assert(r@ =~= frame_marker());
    r
}

/// Whether the hour of the day (UTC) falls in New Zealand daylight, when
/// the navigation light stays dark.
pub fn is_nz_daylight(utc_hour: u32) -> (r: bool)
    ensures
        r == (utc_hour > 19 || utc_hour < 5),
{
    utc_hour > 19 || utc_hour < 5
}

/// The record of one window (or, without hydrophone data, of a heartbeat).
/// Without a start time the window is dated `now`.
pub fn create_buoy_data(
    hydrophone: Option<Vec<u8>>,
    start_time: Option<Vec<u8>>,
    voltage_mv: i64,
    now: Vec<u8>,
    uptime: i64,
) -> (r: BuoyData)
    ensures
        r.id@ == buoy_id_value(),
        r.hydrophone@ == match hydrophone {
            Some(h) => h@,
            None => Seq::<u8>::empty(),
        },
        r.start_time@ == match start_time {
            Some(t) => t@,
            None => now@,
        },
        r.voltage_mv == voltage_mv,
        r.dropped_blocks == 0,
        r.gps@ == Seq::<u8>::empty(),
        r.uptime == uptime,
        single_line(r.start_time@) ==> r.wf(),
{
    assert(is_id_byte(49u8));
    BuoyData {
        id: buoy_id_value_bytes(),
        hydrophone: match hydrophone {
            Some(h) => h,
            None => Vec::new(),
        },
        voltage_mv,
        dropped_blocks: 0,
        gps: Vec::new(),
        start_time: match start_time {
            Some(t) => t,
            None => now,
        },
        uptime,
    }
}

/// The record sent when no hydrophone data came for too long: empty
/// payload, no dropped blocks, dated `now`.
pub fn heartbeat_data(voltage_mv: i64, now: Vec<u8>, uptime: i64) -> (r: BuoyData)
    ensures
        r.id@ == buoy_id_value(),
        r.hydrophone@ == Seq::<u8>::empty(),
        r.start_time@ == now@,
        r.voltage_mv == voltage_mv,
        r.dropped_blocks == 0,
        r.gps@ == Seq::<u8>::empty(),
        r.uptime == uptime,
        single_line(now@) ==> r.wf(),
{
    create_buoy_data(None, None, voltage_mv, now, uptime)
}

/// A record ready for upload: the given one with the last known GPS fix.
pub fn prepare_upload(data: BuoyData, gps: &Vec<u8>) -> (r: BuoyData)
    ensures
        r.gps@ == gps@,
        r.id == data.id,
        r.hydrophone == data.hydrophone,
        r.voltage_mv == data.voltage_mv,
        r.dropped_blocks == data.dropped_blocks,
        r.start_time == data.start_time,
        r.uptime == data.uptime,
        data.wf() && single_line(gps@) ==> r.wf(),
{
    let mut snapshot: Vec<u8> = Vec::new();
    push_all(&mut snapshot, gps.as_slice());
    assert(snapshot@ =~= gps@);
    BuoyData { gps: snapshot, ..data }
}

/// What the controller's channel gave.
pub enum RouterEvent {
    /// An action arrived.
    Received(ControllerAction),
    /// Nothing arrived for the whole wait.
    Timeout,
    /// The channel failed otherwise.
    Disconnected,
}

/// What the controller does next.
pub enum RouterDecision {
    /// Start an upload of this record.
    Upload(BuoyData),
    /// Carry out this command of the server.
    Command(FX30Command),
    /// Build a heartbeat record and upload it.
    Heartbeat,
    /// Note the failure and wait again.
    Skip,
}

/// The controller's decision on one event of its channel.
pub fn route(event: RouterEvent) -> (r: RouterDecision)
    ensures
        match event {
            RouterEvent::Received(ControllerAction::CtrlBuoyData(d)) => r == RouterDecision::Upload(d),
            RouterEvent::Received(ControllerAction::CtrlServerCmd(c)) => r == RouterDecision::Command(c),
            RouterEvent::Timeout => r == RouterDecision::Heartbeat,
            RouterEvent::Disconnected => r == RouterDecision::Skip,
        },
{
    match event {
        RouterEvent::Received(ControllerAction::CtrlBuoyData(d)) => RouterDecision::Upload(d),
        RouterEvent::Received(ControllerAction::CtrlServerCmd(c)) => RouterDecision::Command(c),
        RouterEvent::Timeout => RouterDecision::Heartbeat,
        RouterEvent::Disconnected => RouterDecision::Skip,
    }
}

/// What the power supervisor does after reading the battery.
#[derive(Clone, Copy, Debug, PartialEq, Eq, Structural)]
pub enum PowerAction {
    /// Enough charge: nothing.
    Stay,
    /// Wait `settle_secs`, then put the buoy to sleep for `sleep_secs`.
    Sleep { settle_secs: u64, sleep_secs: u64 },
}

/// The power tier of a battery voltage (millivolts): below the low
/// threshold a long sleep, below the medium one a shorter sleep, else none.
pub fn power_action(voltage_mv: i64) -> (r: PowerAction)
    ensures
        voltage_mv < FX30_PM_POWER_LOW_THRESH_MV ==> r == (PowerAction::Sleep {
            settle_secs: FX30_PM_SETTLE_SECS,
            sleep_secs: FX30_PM_POWER_LOW_SLEEP_TIME_SEC,
        }),
        FX30_PM_POWER_LOW_THRESH_MV <= voltage_mv < FX30_PM_POWER_MEDIUM_THRESH_MV ==> r == (PowerAction::Sleep {
            settle_secs: FX30_PM_SETTLE_SECS,
            sleep_secs: FX30_PM_POWER_MEDIUM_SLEEP_TIME_SEC,
        }),
        FX30_PM_POWER_MEDIUM_THRESH_MV <= voltage_mv ==> r == PowerAction::Stay,
{
    if voltage_mv < FX30_PM_POWER_LOW_THRESH_MV {
        PowerAction::Sleep {
            settle_secs: FX30_PM_SETTLE_SECS,
            sleep_secs: FX30_PM_POWER_LOW_SLEEP_TIME_SEC,
        }
    } else if voltage_mv < FX30_PM_POWER_MEDIUM_THRESH_MV {
        PowerAction::Sleep {
            settle_secs: FX30_PM_SETTLE_SECS,
            sleep_secs: FX30_PM_POWER_MEDIUM_SLEEP_TIME_SEC,
        }
    } else {
        PowerAction::Stay
    }
}

/// The bytes gathered in the current recording window, and when the window
/// started.
pub struct RecordingWindow {
    pub buf: Vec<u8>,
    pub start_time: Vec<u8>,
}

impl RecordingWindow {
    /// An empty window started at `start_time`.
    pub fn new(start_time: Vec<u8>) -> (r: RecordingWindow)
        ensures
            r.buf@ == Seq::<u8>::empty(),
            r.start_time == start_time,
    {
        RecordingWindow { buf: Vec::new(), start_time }
    }

    /// Whether the window is due: it has run longer than a recording and
    /// holds bytes.
    pub fn is_due(&self, elapsed_secs: u64) -> (r: bool)
        ensures
            r == (elapsed_secs > FX30_RECORD_LEN && self.buf@.len() > 0),
    {
        elapsed_secs > FX30_RECORD_LEN && self.buf.len() > 0
    }

    /// Adds the bytes of one serial read.
    pub fn absorb(&mut self, bytes: &[u8])
        ensures
            final(self).buf@ == old(self).buf@ + bytes@,
            final(self).start_time == old(self).start_time,
    {
        push_all(&mut self.buf, bytes);
    }

    /// Closes the window: hands out its clean frames and its start time,
    /// keeps the remainder, and starts the next window at `now`.
    pub fn cut(&mut self, now: Vec<u8>) -> (r: (Vec<u8>, Vec<u8>))
        ensures
            (r.0@, final(self).buf@) == synchronized(old(self).buf@, frame_marker()),
            r.1 == old(self).start_time,
            final(self).start_time == now,
    {
        let marker = frame_marker_bytes();
        let (clean, rest) = clean_x3_data(self.buf.as_slice(), marker.as_slice());
        self.buf = rest;
        let mut started = now;
        core::mem::swap(&mut self.start_time, &mut started);
        (clean, started)
    }
}

/// One step of acquisition: the bytes of a read join the window; where the
/// window is then due, it is cut and its frames and start time come out.
pub fn acquisition_step(
    window: &mut RecordingWindow,
    read: &[u8],
    elapsed_secs: u64,
    now: Vec<u8>,
) -> (r: Option<(Vec<u8>, Vec<u8>)>)
    ensures
        ({
            let gathered = old(window).buf@ + read@;
            let due = elapsed_secs > FX30_RECORD_LEN && gathered.len() > 0;
            match r {
                Some(p) => {
                    &&& due
                    &&& (p.0@, final(window).buf@) == synchronized(gathered, frame_marker())
                    &&& p.1 == old(window).start_time
                    &&& final(window).start_time == now
                },
                None => {
                    &&& !due
                    &&& final(window).buf@ == gathered
                    &&& final(window).start_time == old(window).start_time
                },
            }
        }),
{
    window.absorb(read);
    if window.is_due(elapsed_secs) {
        Some(window.cut(now))
    } else {
        None
    }
}

} // verus!
