//! Verified core of a TF2 demo manager and cheat detector.
pub mod prng;
pub mod demo_strip;
pub mod demo_header;
pub mod detail;
pub mod detections;
pub mod double_tap;
pub mod text;
pub mod triggerbot;
pub mod firewindow;
pub mod equip_regions;
pub mod invalid_equip;
pub mod jankguard;
pub mod oob_pitch;
pub mod player;
pub mod weapons;
pub mod config;
pub mod backstab;
pub mod silent_aim;
pub mod nospread;
pub mod bunnyhop;
pub mod search;
pub mod steam_library;
pub mod demo;
pub mod decimal;
pub mod steamid;
pub mod profiles;
pub mod report;
