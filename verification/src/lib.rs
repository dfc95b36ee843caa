//! Verified core of a Bluetooth device monitor: decoders for the vendor
//! advertisement payloads that true-wireless earbuds broadcast, the framing
//! of the Xiaomi/Redmi serial protocol, and the pure decisions behind the
//! dashboard, the tray menu and the settings.

pub mod vendors;
pub mod text;
pub mod xiaomi_mma;
pub mod sorting;
pub mod bluetooth;
pub mod backend;
pub mod theme;
pub mod ui;
pub mod tray;
pub mod config;
pub mod autostart;
pub mod sdp;
