//! Host-side core for talking to Xiaomi devices booted into the MiAssistant
//! recovery mode over USB: the ADB frame codec, the connect and
//! simple-command session state machines, the sideload block-transfer driver
//! with its resume journal, the validation request/response codec, and the
//! device identity probe.
//!
//! All USB, file and HTTP transfers are performed by the embedding program;
//! this crate holds the protocol logic and the byte-level formats.

pub mod adb;
pub mod device;
pub mod errors;
pub mod sideload;
pub mod text;
pub mod usb;
pub mod validate;
