use vstd::prelude::*;

pub mod text;
pub mod types;
pub mod privileged;
pub mod modem;
pub mod nmea;
pub mod network;
pub mod auth;
pub mod failover;
pub mod vpn;
pub mod alerts;
pub mod sysstats;
pub mod motion;
pub mod order;
pub mod devices;
pub mod radio;
pub mod gps;
pub mod audio;
pub mod storage;
pub mod config;
pub mod camera;
pub mod accounts;
pub mod pipeline;

verus! {
} // verus!
