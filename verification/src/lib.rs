//! The core of a server for the Minecraft Classic protocol, version 7.
//!
//! Players connect over TCP, share one world of blocks, see each other
//! move and chat. This library holds the rules of that: how packets lie on
//! the wire ([`packets`], [`text`], [`framing`], [`stream`]), what the world
//! is and how it changes ([`block`], [`world`]), what a session does with
//! what its player sends ([`client`], [`auth`], [`chat`]), what the hub
//! passes on between the sessions ([`server`]), and what the server lists are
//! told ([`mineonline`], [`mojang`]). It owns no socket, file or clock of its
//! own accord: a program around it reads and writes, and hands it bytes.

pub mod auth;
pub mod block;
pub mod chat;
pub mod client;
pub mod components;
pub mod config;
pub mod event;
pub mod framing;
pub mod mineonline;
pub mod mojang;
pub mod packets;
pub mod server;
pub mod stream;
pub mod text;
pub mod world;
