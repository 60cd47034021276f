//! A small network-reconnaissance engine: a signature database parsed from
//! probe definitions, a banner matcher, and the decisions of a port sweep.
//!
//! * [`probe`] reads the `match` directives of a probe-definition text into
//!   signatures, filed by port in the order of the text.
//! * [`fingerprint`] holds what a service sent against the signatures filed
//!   under its port, and says when a silent service is to be nudged.
//! * [`scan`] says which ports of which hosts a configuration calls for, and
//!   what each attempt reports.
//! * [`pattern`] is the boundary to the `regex` crate, and [`text`] scans
//!   characters for words, lines and numbers.
//!
//! Nothing here touches the network or the disk: the caller reads, pings and
//! connects, and the library decides.

pub mod fingerprint;
pub mod pattern;
pub mod probe;
pub mod scan;
pub mod text;
