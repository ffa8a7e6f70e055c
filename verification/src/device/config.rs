//! Static device configuration: class and radio capabilities, and their
//! single-byte wire encoding.

use vstd::prelude::*;

verus! {

/// Operating class of the device.
#[derive(Debug, Clone, Copy, PartialEq, Eq, Structural)]
pub enum DeviceClass {
    A,
    B,
    C,
}

/// Radio capability set of the device.
#[derive(Debug, Clone, Copy, PartialEq, Eq, Structural)]
pub enum DeviceCapabilities {
    Lora,
    LoraBle,
    LoraWifi,
}

/// Class and capabilities of a node; conveyed as one byte inside
/// discovery payloads.
#[derive(Debug, Clone, Copy, PartialEq, Eq, Structural)]
pub struct DeviceConfig {
    pub device_class: DeviceClass,
    pub device_capabilities: DeviceCapabilities,
}

impl Default for DeviceConfig {
    /// A class-A LoRa-only node.
    fn default() -> (r: Self)
        ensures
            r.device_class == DeviceClass::A,
            r.device_capabilities == DeviceCapabilities::Lora,
    {
        Self { device_class: DeviceClass::A, device_capabilities: DeviceCapabilities::Lora }
    }
}

/// The single-byte encoding of a configuration: class-major, capability-minor.
pub open spec fn spec_config_byte(c: DeviceConfig) -> u8 {
    let class: u8 = match c.device_class {
        DeviceClass::A => 0,
        DeviceClass::B => 1,
        DeviceClass::C => 2,
    };
    let caps: u8 = match c.device_capabilities {
        DeviceCapabilities::Lora => 0,
        DeviceCapabilities::LoraBle => 1,
        DeviceCapabilities::LoraWifi => 2,
    };
    (class * 3 + caps) as u8
}

/// The configuration a byte decodes to; bytes outside the table fall back
/// to the default class-A LoRa-only configuration.
pub open spec fn spec_config_of_byte(value: u8) -> DeviceConfig {
    if value <= 8 {
        let class = if value < 3 {
            DeviceClass::A
        } else if value < 6 {
            DeviceClass::B
        } else {
            DeviceClass::C
        };
        let caps = if value % 3 == 0 {
            DeviceCapabilities::Lora
        } else if value % 3 == 1 {
            DeviceCapabilities::LoraBle
        } else {
            DeviceCapabilities::LoraWifi
        };
        DeviceConfig { device_class: class, device_capabilities: caps }
    } else {
        DeviceConfig { device_class: DeviceClass::A, device_capabilities: DeviceCapabilities::Lora }
    }
}

impl From<DeviceConfig> for u8 {
    /// The wire byte of a configuration, per the class/capability table.
    fn from(value: DeviceConfig) -> (r: u8)
        ensures
            r == spec_config_byte(value),
    {
        match (value.device_class, value.device_capabilities) {
            (DeviceClass::A, DeviceCapabilities::Lora) => 0,
            (DeviceClass::A, DeviceCapabilities::LoraBle) => 1,
            (DeviceClass::A, DeviceCapabilities::LoraWifi) => 2,
            (DeviceClass::B, DeviceCapabilities::Lora) => 3,
            (DeviceClass::B, DeviceCapabilities::LoraBle) => 4,
            (DeviceClass::B, DeviceCapabilities::LoraWifi) => 5,
            (DeviceClass::C, DeviceCapabilities::Lora) => 6,
            (DeviceClass::C, DeviceCapabilities::LoraBle) => 7,
            (DeviceClass::C, DeviceCapabilities::LoraWifi) => 8,
        }
    }
}

impl vstd::std_specs::convert::FromSpecImpl<DeviceConfig> for u8 {
    open spec fn obeys_from_spec() -> bool {
        true
    }

    open spec fn from_spec(c: DeviceConfig) -> u8 {
        spec_config_byte(c)
    }
}

impl From<u8> for DeviceConfig {
    /// The configuration a wire byte denotes; unknown bytes decode to the
    /// default configuration.
    fn from(value: u8) -> (r: DeviceConfig)
        ensures
            r == spec_config_of_byte(value),
    {
        match value {
            1 => Self { device_class: DeviceClass::A, device_capabilities: DeviceCapabilities::LoraBle },
            2 => Self { device_class: DeviceClass::A, device_capabilities: DeviceCapabilities::LoraWifi },
            3 => Self { device_class: DeviceClass::B, device_capabilities: DeviceCapabilities::Lora },
            4 => Self { device_class: DeviceClass::B, device_capabilities: DeviceCapabilities::LoraBle },
            5 => Self { device_class: DeviceClass::B, device_capabilities: DeviceCapabilities::LoraWifi },
            6 => Self { device_class: DeviceClass::C, device_capabilities: DeviceCapabilities::Lora },
            7 => Self { device_class: DeviceClass::C, device_capabilities: DeviceCapabilities::LoraBle },
            8 => Self { device_class: DeviceClass::C, device_capabilities: DeviceCapabilities::LoraWifi },
            _ => Self { device_class: DeviceClass::A, device_capabilities: DeviceCapabilities::Lora },
        }
    }
}

impl vstd::std_specs::convert::FromSpecImpl<u8> for DeviceConfig {
    open spec fn obeys_from_spec() -> bool {
        true
    }

    open spec fn from_spec(value: u8) -> DeviceConfig {
        spec_config_of_byte(value)
    }
}

/// The configuration/byte table round-trips: every configuration is
/// recovered from its own wire byte.
pub proof fn lemma_config_byte_round_trip(c: DeviceConfig)
    ensures
        spec_config_of_byte(spec_config_byte(c)) == c,
{
}

/// The capability byte carried inside discovery payloads.
pub open spec fn spec_caps_byte(caps: DeviceCapabilities) -> u8 {
    match caps {
        DeviceCapabilities::Lora => 0,
        DeviceCapabilities::LoraBle => 1,
        DeviceCapabilities::LoraWifi => 2,
    }
}

/// The capability set a wire byte denotes, if any.
pub open spec fn spec_caps_of_byte(value: u8) -> Option<DeviceCapabilities> {
    if value == 0 {
        Some(DeviceCapabilities::Lora)
    } else if value == 1 {
        Some(DeviceCapabilities::LoraBle)
    } else if value == 2 {
        Some(DeviceCapabilities::LoraWifi)
    } else {
        None
    }
}

impl DeviceCapabilities {
    /// Encodes the capability set as its wire byte.
    pub fn as_byte(self) -> (r: u8)
        ensures
            r == spec_caps_byte(self),
            spec_caps_of_byte(r) == Some(self),
    {
        match self {
            DeviceCapabilities::Lora => 0,
            DeviceCapabilities::LoraBle => 1,
            DeviceCapabilities::LoraWifi => 2,
        }
    }

    /// Decodes a wire byte into a capability set; bytes outside the table
    /// are rejected.
    pub fn from_byte(value: u8) -> (r: Option<DeviceCapabilities>)
        ensures
            r == spec_caps_of_byte(value),
    {
        match value {
            0 => Some(DeviceCapabilities::Lora),
            1 => Some(DeviceCapabilities::LoraBle),
            2 => Some(DeviceCapabilities::LoraWifi),
            _ => None,
        }
    }
}

} // verus!
