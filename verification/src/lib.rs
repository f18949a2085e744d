//! A source-based package manager, as far as it computes and decides.
//!
//! A manifest is turned into a graph of packages, each with a content hash
//! ([`builder`], [`package`], [`graph`]). Packages are built in dependency
//! order, each by a fixed sequence of steps ([`closure`], [`coordinator`],
//! [`plan`], [`sandbox`]). Their sources come through a cache that checks
//! digests and prefers torrents ([`fetch`], [`transport`]), and every cached
//! file gets a torrent of its own for seeding ([`mirror`], [`torrent`]).
//! What is old is swept away ([`cleanup`], [`survey`]). Everything lies at
//! fixed places under one root ([`store`]). A manifest can also describe an
//! interactive environment made of packages ([`venv`]).
//!
//! Two parsers of an outside crate are kept from input on which they
//! cannot be relied on to return: torrent files are framed first
//! ([`bencode`]), and magnet links are judged by their query
//! ([`transport`]).
//!
//! The crate touches no file and opens no connection. It says what is to be
//! done; the program around it does it and reports back.

pub mod acyclic;
pub mod bencode;
pub mod builder;
pub mod cleanup;
pub mod closure;
pub mod coordinator;
pub mod cycles;
pub mod digest;
pub mod error;
pub mod fetch;
pub mod graph;
pub mod manifest;
pub mod mirror;
pub mod package;
pub mod plan;
pub mod reader;
pub mod sandbox;
pub mod store;
pub mod survey;
pub mod text;
pub mod torrent;
pub mod transport;
pub mod venv;
