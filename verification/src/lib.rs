//! Byte persistence for an embedded database.
//!
//! A backend holds one buffer of bytes, which is read whole and replaced whole.
//! [`backend::Backend`] is the contract, and [`backend::Memory`] the backend
//! that keeps the buffer in the process.
//!
//! The two file backends, [`file::File`] and [`file_path::FilePath`], decide
//! what is done to the file system without touching it: each of their
//! procedures is a [`session::Session`], which hands out one
//! [`action::Action`] at a time and is told what came of it. Performing the
//! actions is the caller's part.
//!
//! [`model`] describes a file system, and [`file_laws`] and
//! [`file_path_laws`] prove on it what the sessions achieve: that a write
//! replaces the file by exactly the data, that the path backend leaves the
//! file alone until the final rename, and that opening with leave to create
//! reports truly whether the file was there.

pub mod action;
pub mod backend;
pub mod file;
pub mod file_laws;
pub mod file_path;
pub mod file_path_laws;
pub mod model;
pub mod session;
