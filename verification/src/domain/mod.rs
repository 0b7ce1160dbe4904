//! The messages the daemon handles.

pub mod action;
pub mod notification;
