//! Value objects and enumerations of the navigation domain that travel with
//! the messages the codec carries.

use vstd::prelude::*;

verus! {

/// Lifecycle state of a navigation session.
#[derive(Clone, Copy, Debug, PartialEq, Eq)]
pub enum NavigationStatus {
    Active,
    Paused,
    Completed,
    Cancelled,
}

/// Kind of device that receives navigation data.
#[derive(Clone, Copy, Debug, PartialEq, Eq)]
pub enum DeviceType {
    WearOsWatch,
    CustomBleDevice,
    Smartphone,
}

/// How strongly a traffic event affects a route.
#[derive(Clone, Copy, Debug, PartialEq, Eq)]
pub enum TrafficSeverity {
    Unknown,
    Low,
    Medium,
    High,
    Critical,
}

/// Control commands exchanged with a device.
#[derive(Clone, Copy, Debug, PartialEq, Eq)]
pub enum ControlCommand {
    StartNavigation,
    PauseNavigation,
    ResumeNavigation,
    StopNavigation,
    Acknowledge,
    NegativeAcknowledge,
    Heartbeat,
}

/// Kind of manoeuvre an instruction asks for.
#[derive(Clone, Copy, Debug, PartialEq, Eq)]
pub enum InstructionType {
    TurnLeft,
    TurnRight,
    Continue,
    Arrive,
    Depart,
    Merge,
    Roundabout,
}

/// A navigation instruction.
#[derive(Clone, Debug)]
pub struct Instruction {
    pub text: String,
    pub distance_meters: u32,
    pub duration_seconds: u32,
    pub instruction_type: InstructionType,
}

/// What a device can display and do.
#[derive(Clone, Debug)]
pub struct DeviceCapabilities {
    pub screen_width: u32,
    pub screen_height: u32,
    pub supports_color: bool,
    pub supports_haptic: bool,
    pub supports_voice: bool,
    pub battery_capacity_mah: u32,
}

impl DeviceCapabilities {
    /// A colour screen of the given size, with no haptics, no voice and an
    /// unknown battery capacity.
    pub fn new(screen_width: u32, screen_height: u32) -> (r: Self)
        ensures
            r.screen_width == screen_width,
            r.screen_height == screen_height,
            r.supports_color,
            !r.supports_haptic,
            !r.supports_voice,
            r.battery_capacity_mah == 0,
    {
        DeviceCapabilities {
            screen_width,
            screen_height,
            supports_color: true,
            supports_haptic: false,
            supports_voice: false,
            battery_capacity_mah: 0,
        }
    }

    /// The same capabilities with the three feature flags replaced.
    pub fn with_features(self, color: bool, haptic: bool, voice: bool) -> (r: Self)
        ensures
            r.screen_width == self.screen_width,
            r.screen_height == self.screen_height,
            r.supports_color == color,
            r.supports_haptic == haptic,
            r.supports_voice == voice,
            r.battery_capacity_mah == self.battery_capacity_mah,
    {
        let mut r = self;
        r.supports_color = color;
        r.supports_haptic = haptic;
        r.supports_voice = voice;
        r
    }
}

/// A device known to the application, with the times (milliseconds since the
/// Unix epoch) it connected and was last heard from.
#[derive(Clone, Debug)]
pub struct Device {
    pub id: String,
    pub name: String,
    pub device_type: DeviceType,
    pub capabilities: DeviceCapabilities,
    pub battery_status: Option<BatteryInfo>,
    pub connected_at_ms: i64,
    pub last_seen_ms: i64,
}

impl Device {
    /// A device that connected at `now_ms`, with no battery report yet.
    pub fn new(
        id: String,
        name: String,
        device_type: DeviceType,
        capabilities: DeviceCapabilities,
        now_ms: i64,
    ) -> (r: Self)
        ensures
            r.id@ == id@,
            r.name@ == name@,
            r.device_type == device_type,
            r.capabilities == capabilities,
            r.battery_status is None,
            r.connected_at_ms == now_ms,
            r.last_seen_ms == now_ms,
    {
        Device {
            id,
            name,
            device_type,
            capabilities,
            battery_status: None,
            connected_at_ms: now_ms,
            last_seen_ms: now_ms,
        }
    }

    /// Records a battery report received at `now_ms`.
    pub fn update_battery(&mut self, battery: BatteryInfo, now_ms: i64)
        ensures
            final(self).battery_status == Some(battery),
            final(self).last_seen_ms == now_ms,
            final(self).id == old(self).id,
            final(self).name == old(self).name,
            final(self).device_type == old(self).device_type,
            final(self).capabilities == old(self).capabilities,
            final(self).connected_at_ms == old(self).connected_at_ms,
    {
        self.battery_status = Some(battery);
        self.last_seen_ms = now_ms;
    }

    /// Records that the device was heard from at `now_ms`.
    pub fn update_last_seen(&mut self, now_ms: i64)
        ensures
            final(self).last_seen_ms == now_ms,
            final(self).id == old(self).id,
            final(self).name == old(self).name,
            final(self).device_type == old(self).device_type,
            final(self).capabilities == old(self).capabilities,
            final(self).battery_status == old(self).battery_status,
            final(self).connected_at_ms == old(self).connected_at_ms,
    {
        self.last_seen_ms = now_ms;
    }
}

/// Charge level and charging state of a device battery.
#[derive(Clone, Copy, Debug)]
pub struct BatteryInfo {
    pub percentage: u8,
    pub is_charging: bool,
    pub time_remaining_minutes: Option<u32>,
}

impl BatteryInfo {
    /// A reading with the percentage capped at 100 and no time estimate.
    pub fn new(percentage: u8, is_charging: bool) -> (r: Self)
        ensures
            r.percentage == if percentage < 100 {
                percentage
            } else {
                100
            },
            r.is_charging == is_charging,
            r.time_remaining_minutes is None,
    {
        let capped: u8 = if percentage < 100 {
            percentage
        } else {
            100
        };
        BatteryInfo { percentage: capped, is_charging, time_remaining_minutes: None }
    }

    /// The same reading with a time estimate.
    pub fn with_time_remaining(self, minutes: u32) -> (r: Self)
        ensures
            r.percentage == self.percentage,
            r.is_charging == self.is_charging,
            r.time_remaining_minutes == Some(minutes),
    {
        let mut r = self;
        r.time_remaining_minutes = Some(minutes);
        r
    }

    /// Below 20 percent and not charging.
    pub fn is_low(&self) -> (r: bool)
        ensures
            r == (self.percentage < 20 && !self.is_charging),
    {
        self.percentage < 20 && !self.is_charging
    }

    /// Below 10 percent and not charging.
    pub fn is_critical(&self) -> (r: bool)
        ensures
            r == (self.percentage < 10 && !self.is_charging),
    {
        self.percentage < 10 && !self.is_charging
    }
}

} // verus!
