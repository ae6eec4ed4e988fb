//! Packet filtering decisions for an XDP firewall, and the rules of the
//! control plane that configures it.
//!
//! The packet path takes a byte window and a rule snapshot and decides
//! whether the packet passes. [`cursor`] reads the window within its
//! bounds, [`decoder`] views the Ethernet, IPv4 and TCP or UDP headers,
//! [`country`] derives a country code from the source address, [`policy`]
//! holds the rules and decides on the decoded fields, [`pipeline`] runs
//! these in order, and [`verdict`] maps the outcome to an action code.
//!
//! The control plane works on the text of the configuration file:
//! [`config`] reads it and composes the policy to start the filter with,
//! [`update`] sets the interface in it, [`reread`] states what holds when an
//! updated file is read again, [`bridge`] turns a composed policy into a
//! rule snapshot, and [`menu`] holds the decisions of the interactive tool.
//! [`text`] has the operations on strings that these are built from.
//!
//! Every function is verified against its contract. Nothing here reads a
//! file, a terminal or the network: callers hand in bytes and text.

pub mod bridge;
pub mod config;
pub mod country;
pub mod cursor;
pub mod decoder;
pub mod menu;
pub mod pipeline;
pub mod policy;
pub mod reread;
pub mod text;
pub mod update;
pub mod verdict;
