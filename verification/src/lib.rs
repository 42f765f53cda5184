//! Emulated network topologies on physical hosts.
//!
//! A configuration names virtual nodes, the links between them, and the
//! physical hosts with their pools of cores. From it the library
//!
//! - lays every node and every link over the defaults that they share
//!   ([`merge`], [`node`], [`interface`]);
//! - gives each node its interfaces, one for each link end that names it
//!   ([`aggregate`]);
//! - works out the cores that the pinned processes of each node ask for
//!   ([`pinned`]) and places the nodes on the pools of the hosts, all cores of
//!   a node in one pool ([`placement`], [`aggregate`]);
//! - renders what a node holds against the node's own context and takes in the
//!   files and templates that it brings along ([`context`], [`materialize`]);
//! - says, host by host, what it takes to bring the nodes up: the files to
//!   write, the namespaces to create, the interfaces to wire and the commands
//!   to run ([`file`], [`plan`]).
//!
//! The library reads no file and runs no command. What has to be fetched or
//! done it hands to its caller as plain values, and it takes the outcome back
//! the same way.

pub mod aggregate;
pub mod config;
pub mod context;
pub mod datum;
pub mod defaults;
pub mod duplicate;
pub mod endpoint;
pub mod engine;
pub mod file;
pub mod infra;
pub mod interface;
pub mod link;
pub mod materialize;
pub mod merge;
pub mod mpf;
pub mod node;
pub mod pinned;
pub mod placement;
pub mod plan;
pub mod strmap;
pub mod text;
