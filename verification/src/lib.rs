//! The logic of `zeroboot`, a program that forks VMs off snapshots made by Firecracker.
//!
//! The core is the reader of Firecracker's vmstate files: [`layout`] finds where the sections of
//! a file lie, [`vmstate`] reads them, with [`msrs`] and [`cpuid`] for the two tables that lie
//! anywhere, and [`laws`] states what holds of the reader as a whole. [`encoding`] says how a
//! file is written, and [`file_laws`], [`table_laws`] and [`state_laws`] that it is read as it was
//! written. Around the reader stand what the command line asks for ([`cli`]), what a fork is made
//! from ([`snapshot`]), and what the benchmarks and the API server compute ([`bench`],
//! [`status`], [`keys`], [`server`]), over the reading of bytes and text in [`bytes`] and
//! [`text`]; [`text_laws`] and [`program_laws`] say what their calls return.

pub mod bench;
pub mod bytes;
pub mod cli;
pub mod cpuid;
pub mod encoding;
pub mod file_laws;
pub mod keys;
pub mod kvm;
pub mod laws;
pub mod layout;
pub mod msrs;
pub mod program_laws;
pub mod server;
pub mod snapshot;
pub mod state_laws;
pub mod status;
pub mod table_laws;
pub mod text;
pub mod text_laws;
pub mod vmstate;
