//! Writes operating-system images onto removable drives: the device catalog,
//! the classification of privileged-open failures, and the resumable transfer
//! engine with its progress events.
pub mod os_list;
pub mod access;
pub mod transfer;
pub mod device;
pub mod tracker;
