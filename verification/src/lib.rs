//! A local object-protocol stack: an interface-description compiler and the
//! wire connection runtime that carries the messages it describes, beside
//! what a pointer program on top of them needs to know of key bindings and
//! of rectangles.
//!
//! The compiler reads protocol descriptions ([`parser`]), finds which
//! interfaces a set of requested ones brings with it and in which version
//! ([`resolve`], [`versions`]), leaves of each interface what it has in its
//! version ([`prune`]), and makes the tables by which its messages are
//! written and read ([`gen`], [`codec`]). The runtime queues and frames
//! messages ([`connection`], [`wire`], [`message`]).

pub mod bindings;
pub mod codec;
pub mod config;
pub mod connection;
pub mod dispatch;
pub mod doc;
pub mod endian;
pub mod gen;
pub mod graph;
pub mod ids;
pub mod message;
pub mod names;
pub mod parser;
pub mod pointer;
pub mod protocol;
pub mod prune;
pub mod region;
pub mod resolve;
pub mod ring;
pub mod scanner;
pub mod scfg;
pub mod text;
pub mod versions;
pub mod wire;
pub mod xml;
