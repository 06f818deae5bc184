//! A catalog of ritual records, verified with Verus.
//!
//! * [`ritual`] holds the record, [`codec`] reads and writes it as a JSON
//!   object, tolerant of members it does not know and strict about those it
//!   needs.
//! * [`catalog`] is the table of payloads under record ids, and [`seeding`]
//!   fills it from a definition source, once or again, with the same result.
//! * [`negotiation`] chooses between the two renderings of [`render`] from
//!   what a client says of itself, and answers a request for the catalog.
//! * [`document`] and [`json`] stand between the codec and `serde_json`;
//!   [`entries`], [`text_map`] and [`text`] are the keyed sequences and the
//!   texts that all of them are made of.
//!
//! The library reads no file and opens no socket: a program around it loads
//! the table into a [`catalog::Catalog`], hands over the text of the
//! definition source and the identifier of the client, and stores or sends
//! what comes back.

pub mod catalog;
pub mod codec;
pub mod document;
pub mod entries;
pub mod json;
pub mod negotiation;
pub mod render;
pub mod ritual;
pub mod seeding;
pub mod text;
pub mod text_map;
