//! The payload records of the message schema that producers build before
//! encoding, and the control vocabulary exchanged with a device.

use vstd::prelude::*;
use vstd::slice::slice_to_vec;
use vstd::string::StringSliceAdditionalSpecFns;
use vstd::array::array_as_slice;
use crate::frame::{RouteId, PROTOCOL_VERSION};

verus! {

/// Versions that every payload records: the frame-format version and the
/// version of the payload's own meaning.
#[derive(Clone, Copy, Debug, PartialEq, Eq)]
pub struct Header {
    pub protocol_version: u32,
    pub message_version: u32,
}

/// Kinds of control message.
#[derive(Clone, Copy, Debug, PartialEq, Eq)]
pub enum ControlType {
    Unknown,
    Ack,
    Nack,
    StartNav,
    StopNav,
    PauseNav,
    ResumeNav,
    Heartbeat,
}

impl ControlType {
    /// The number that stands for the kind on the wire.
    pub open spec fn spec_code(self) -> i32 {
        match self {
            ControlType::Unknown => 0,
            ControlType::Ack => 1,
            ControlType::Nack => 2,
            ControlType::StartNav => 3,
            ControlType::StopNav => 4,
            ControlType::PauseNav => 5,
            ControlType::ResumeNav => 6,
            ControlType::Heartbeat => 7,
        }
    }

    /// The number that stands for the kind on the wire.
    pub fn code(&self) -> (r: i32)
        ensures
            r == self.spec_code(),
    {
        match self {
            ControlType::Unknown => 0,
            ControlType::Ack => 1,
            ControlType::Nack => 2,
            ControlType::StartNav => 3,
            ControlType::StopNav => 4,
            ControlType::PauseNav => 5,
            ControlType::ResumeNav => 6,
            ControlType::Heartbeat => 7,
        }
    }
}

/// A control message: acknowledgement, navigation command or heartbeat.
#[derive(Clone, Debug, PartialEq, Eq)]
pub struct Control {
    pub header: Option<Header>,
    pub control_type: i32,
    pub route_id: Vec<u8>,
    pub status_code: u32,
    pub message_text: String,
    pub seq_no: u32,
}

/// What a device reports it can do.
#[derive(Clone, Debug, PartialEq, Eq)]
pub struct DeviceCapabilities {
    pub header: Option<Header>,
    pub device_id: String,
    pub firmware_version: String,
    pub supports_vibration: bool,
    pub supports_voice: bool,
    pub screen_width_px: i32,
    pub screen_height_px: i32,
    pub battery_level_pct: i32,
    pub low_power_mode: bool,
}

/// A device's battery report.
#[derive(Clone, Debug, PartialEq, Eq)]
pub struct BatteryStatus {
    pub header: Option<Header>,
    pub device_id: String,
    pub battery_pct: i32,
    pub is_charging: bool,
    pub estimated_minutes_remaining: i32,
}

/// A header with the current frame-format version.
pub fn create_header(message_version: u32) -> (r: Header)
    ensures
        r.protocol_version == PROTOCOL_VERSION,
        r.message_version == message_version,
{
    Header { protocol_version: PROTOCOL_VERSION, message_version }
}

/// A control message of version 1 for the route `route_id` (its 16 raw
/// bytes, or none), with sequence number 0.
pub fn create_control(
    control_type: i32,
    route_id: Option<RouteId>,
    status_code: u32,
    message_text: String,
) -> (r: Control)
    ensures
        r.header == Some(Header { protocol_version: PROTOCOL_VERSION, message_version: 1 }),
        r.control_type == control_type,
        r.route_id@ == match route_id {
            Some(id) => id.bytes@,
            None => Seq::<u8>::empty(),
        },
        r.status_code == status_code,
        r.message_text@ == message_text@,
        r.seq_no == 0,
{
    let route_bytes = match route_id {
        Some(id) => slice_to_vec(array_as_slice(&id.bytes)),
        None => Vec::new(),
    };
    Control {
        header: Some(create_header(1)),
        control_type,
        route_id: route_bytes,
        status_code,
        message_text,
        seq_no: 0,
    }
}

/// A capabilities report of version 1.
pub fn create_device_capabilities(
    device_id: String,
    firmware_version: String,
    supports_vibration: bool,
    supports_voice: bool,
    screen_width: i32,
    screen_height: i32,
    battery_pct: i32,
    low_power_mode: bool,
) -> (r: DeviceCapabilities)
    ensures
        r.header == Some(Header { protocol_version: PROTOCOL_VERSION, message_version: 1 }),
        r.device_id@ == device_id@,
        r.firmware_version@ == firmware_version@,
        r.supports_vibration == supports_vibration,
        r.supports_voice == supports_voice,
        r.screen_width_px == screen_width,
        r.screen_height_px == screen_height,
        r.battery_level_pct == battery_pct,
        r.low_power_mode == low_power_mode,
{
    DeviceCapabilities {
        header: Some(create_header(1)),
        device_id,
        firmware_version,
        supports_vibration,
        supports_voice,
        screen_width_px: screen_width,
        screen_height_px: screen_height,
        battery_level_pct: battery_pct,
        low_power_mode,
    }
}

/// A battery report of version 1; an unknown estimate is recorded as 0.
pub fn create_battery_status(
    device_id: String,
    battery_pct: i32,
    is_charging: bool,
    estimated_minutes: Option<i32>,
) -> (r: BatteryStatus)
    ensures
        r.header == Some(Header { protocol_version: PROTOCOL_VERSION, message_version: 1 }),
        r.device_id@ == device_id@,
        r.battery_pct == battery_pct,
        r.is_charging == is_charging,
        r.estimated_minutes_remaining == match estimated_minutes {
            Some(m) => m,
            None => 0,
        },
{
    let estimate = match estimated_minutes {
        Some(m) => m,
        None => 0,
    };
    BatteryStatus {
        header: Some(create_header(1)),
        device_id,
        battery_pct,
        is_charging,
        estimated_minutes_remaining: estimate,
    }
}

/// The text with every character upper-cased, as Unicode defines it; it
/// depends on the text alone.
pub uninterp spec fn upper_of(s: Seq<char>) -> Seq<char>;

/// Relies on `str::to_uppercase`: the upper-case form of the text, a
/// function of its characters alone.
#[verifier::external_body]
fn to_upper(s: &str) -> (r: String)
    ensures
        r@ == upper_of(s@),
{
    s.to_uppercase()
}

/// The control kind that an upper-case command name stands for.
pub open spec fn control_type_named(name: Seq<char>) -> Option<ControlType> {
    if name == "ACK"@ {
        Some(ControlType::Ack)
    } else if name == "NACK"@ {
        Some(ControlType::Nack)
    } else if name == "START_NAV"@ {
        Some(ControlType::StartNav)
    } else if name == "STOP_NAV"@ {
        Some(ControlType::StopNav)
    } else if name == "PAUSE_NAV"@ {
        Some(ControlType::PauseNav)
    } else if name == "RESUME_NAV"@ {
        Some(ControlType::ResumeNav)
    } else if name == "HEARTBEAT"@ {
        Some(ControlType::Heartbeat)
    } else {
        None
    }
}

/// The control kind that an upper-case command name stands for, if any.
pub fn control_type_for_upper(name: &String) -> (r: Option<ControlType>)
    ensures
        r == control_type_named(name@),
{
    if *name == "ACK".to_string() {
        Some(ControlType::Ack)
    } else if *name == "NACK".to_string() {
        Some(ControlType::Nack)
    } else if *name == "START_NAV".to_string() {
        Some(ControlType::StartNav)
    } else if *name == "STOP_NAV".to_string() {
        Some(ControlType::StopNav)
    } else if *name == "PAUSE_NAV".to_string() {
        Some(ControlType::PauseNav)
    } else if *name == "RESUME_NAV".to_string() {
        Some(ControlType::ResumeNav)
    } else if *name == "HEARTBEAT".to_string() {
        Some(ControlType::Heartbeat)
    } else {
        None
    }
}

/// The control kind a command name stands for, ignoring letter case.
pub fn parse_control_type(command_type: &str) -> (r: Option<ControlType>)
    ensures
        r == control_type_named(upper_of(command_type@)),
{
    let upper = to_upper(command_type);
    control_type_for_upper(&upper)
}

/// The control message of version 1 for a command named `command_type`
/// (ignoring case), carrying the bytes of `route_id`; `None` where the name
/// stands for no command.
pub fn control_message(
    route_id: &str,
    command_type: &str,
    status_code: u32,
    message: String,
) -> (r: Option<Control>)
    ensures
        r is None <==> control_type_named(upper_of(command_type@)) is None,
        r is Some ==> {
            let c = r->Some_0;
            &&& c.header == Some(Header { protocol_version: PROTOCOL_VERSION, message_version: 1 })
            &&& c.control_type == control_type_named(upper_of(command_type@))->Some_0.spec_code()
            &&& c.route_id@ == route_id.spec_bytes()
            &&& c.status_code == status_code
            &&& c.message_text@ == message@
            &&& c.seq_no == 0
        },
{
    match parse_control_type(command_type) {
        Some(kind) => Some(
            Control {
                header: Some(create_header(1)),
                control_type: kind.code(),
                route_id: slice_to_vec(route_id.as_bytes()),
                status_code,
                message_text: message,
                seq_no: 0,
            },
        ),
        None => None,
    }
}

} // verus!
