//! A ground station's side of a MAVLink connection to a vehicle, and a reader for the files that
//! MAVLink messages are defined in.
//!
//! A connection has two ends within a ground station. The handler ([`handler`]) takes in the bytes
//! that come from the vehicle, finds the packets ([`packet`]) in them, hands the messages
//! ([`message`]) on and tells watchers ([`watcher`]) of them. The vehicle ([`vehicle`]) takes account
//! of the messages, keeps the parameters ([`parameters`]), and answers over its connection
//! ([`connection`]). Neither end does any input or output: each says what is to be written, waited
//! for or shown.
//!
//! A definition file is taken in as a sequence of XML events ([`reader`]) and gives enumerations and
//! messages ([`definitions`]). What holds of the parts of files is stated in [`elements`],
//! and what holds of whole files in [`documents`].
pub mod bits;
pub mod connection;
pub mod decimal;
pub mod definitions;
pub mod documents;
pub mod elements;
pub mod handler;
pub mod message;
pub mod packet;
pub mod parameters;
pub mod reader;
pub mod text;
pub mod vehicle;
pub mod watcher;
