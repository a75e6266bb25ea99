//! Vibration measurement: the wire protocol between an ADS1256 front end and a
//! receiver, the front end's capture and driver state machines, and the
//! receiver's recording session.
//!
//! Everything here is pure: clocks, sockets, SPI transfers and files are values
//! that the surrounding program hands in and takes back.

pub mod ads1256;
pub mod balance;
pub mod batch;
pub mod capture;
pub mod chart;
pub mod comments;
pub mod config;
pub mod keyphasor;
pub mod link;
pub mod packing;
pub mod panel;
pub mod protocol;
pub mod ranking;
pub mod receiver;
pub mod reconfig;
pub mod report;
pub mod session;
pub mod store;
pub mod text;
pub mod timeline;
pub mod types;
pub mod wire;
