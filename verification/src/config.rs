//! What each transport is configured with, and the configuration a fresh
//! session starts from.
use vstd::prelude::*;
use crate::io::MidiCcMap;

verus! {

/// Art-Net settings.
pub struct ArtNetConfig {
    /// Local IP to bind (empty = 0.0.0.0).
    pub ip: String,
    /// Universe to output (0-based Art-Net universe number).
    pub out_universe: u16,
    /// Destination IP for transmit; empty = limited broadcast.
    pub dest_ip: String,
    /// Whether incoming Art-Net is listened to.
    pub rx_enabled: bool,
    /// Comma-separated source IPs accepted on receive; empty = all.
    pub allowed_sources: String,
}

impl Default for ArtNetConfig {
    fn default() -> (c: Self)
        ensures
            c.ip@.len() == 0,
            c.out_universe == 0,
            c.dest_ip@.len() == 0,
            !c.rx_enabled,
            c.allowed_sources@.len() == 0,
    {
        ArtNetConfig {
            ip: String::new(),
            out_universe: 0,
            dest_ip: String::new(),
            rx_enabled: false,
            allowed_sources: String::new(),
        }
    }
}

/// sACN (E1.31) settings.
pub struct SacnConfig {
    pub tx_enabled: bool,
    pub rx_enabled: bool,
    /// Universe to transmit on (1–63999).
    pub out_universe: u16,
    /// Source priority (1–200; 100 is the standard default).
    pub priority: u8,
    /// Unicast destination for transmit; empty = the universe's multicast group.
    pub dest_ip: String,
}

impl Default for SacnConfig {
    fn default() -> (c: Self)
        ensures
            !c.tx_enabled,
            !c.rx_enabled,
            c.out_universe == 1,
            c.priority == 100,
            c.dest_ip@.len() == 0,
    {
        SacnConfig { tx_enabled: false, rx_enabled: false, out_universe: 1, priority: 100, dest_ip: String::new() }
    }
}

/// Enttec USB Pro settings.
pub struct UsbConfig {
    pub tx_enabled: bool,
    /// Serial port path, e.g. "/dev/ttyUSB0" or "COM3".
    pub port: String,
    /// Universe sent to the device.
    pub universe: u16,
}

impl Default for UsbConfig {
    fn default() -> (c: Self)
        ensures
            !c.tx_enabled,
            c.port@.len() == 0,
            c.universe == 1,
    {
        UsbConfig { tx_enabled: false, port: String::new(), universe: 1 }
    }
}

/// MIDI input settings: the port and the controller number of each
/// programmer attribute.
pub struct MidiConfig {
    pub enabled: bool,
    /// Port name as the MIDI backend lists it.
    pub port: String,
    pub cc_dimmer: u8,
    pub cc_pan: u8,
    pub cc_tilt: u8,
    pub cc_red: u8,
    pub cc_green: u8,
    pub cc_blue: u8,
    pub cc_zoom: u8,
    pub cc_strobe: u8,
}

impl Default for MidiConfig {
    fn default() -> (c: Self)
        ensures
            !c.enabled,
            c.port@.len() == 0,
            c.cc_dimmer == 7,
            c.cc_pan == 10,
            c.cc_tilt == 11,
            c.cc_red == 12,
            c.cc_green == 13,
            c.cc_blue == 14,
            c.cc_zoom == 15,
            c.cc_strobe == 16,
    {
        MidiConfig {
            enabled: false,
            port: String::new(),
            cc_dimmer: 7,
            cc_pan: 10,
            cc_tilt: 11,
            cc_red: 12,
            cc_green: 13,
            cc_blue: 14,
            cc_zoom: 15,
            cc_strobe: 16,
        }
    }
}

impl MidiConfig {
    /// The controller numbers that incoming messages are routed by.
    pub fn cc_map(&self) -> (m: MidiCcMap)
        ensures
            m == (MidiCcMap {
                cc_dimmer: self.cc_dimmer,
                cc_pan: self.cc_pan,
                cc_tilt: self.cc_tilt,
                cc_red: self.cc_red,
                cc_green: self.cc_green,
                cc_blue: self.cc_blue,
                cc_zoom: self.cc_zoom,
                cc_strobe: self.cc_strobe,
            }),
    {
        MidiCcMap {
            cc_dimmer: self.cc_dimmer,
            cc_pan: self.cc_pan,
            cc_tilt: self.cc_tilt,
            cc_red: self.cc_red,
            cc_green: self.cc_green,
            cc_blue: self.cc_blue,
            cc_zoom: self.cc_zoom,
            cc_strobe: self.cc_strobe,
        }
    }
}

/// OSC input settings.
pub struct OscConfig {
    pub enabled: bool,
    /// UDP port listened to.
    pub port: u16,
}

impl Default for OscConfig {
    fn default() -> (c: Self)
        ensures
            !c.enabled,
            c.port == 8000,
    {
        OscConfig { enabled: false, port: 8000 }
    }
}

} // verus!
