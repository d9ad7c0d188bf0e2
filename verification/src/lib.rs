//! A registry of contracts that are discovered while a chain is read, and the
//! decoding of block data that the registry gates.
//!
//! A factory contract, known in advance, announces every contract that it
//! creates. The writer registers each of them from the ordinal of the
//! announcement on ([`writer`], [`registry`]). The logs and calls of a block
//! are then decoded only where their contract is registered as of their own
//! ordinal ([`select`], [`decode`]), so that nothing is recognised before the
//! event that created it. What was decoded is recorded ([`record`]), turned
//! into rows ([`rows`]) and put into the tables of a sink ([`entity`],
//! [`database`]), each row under the one text that names its item. Numbers of
//! any size travel as decimal text that is checked when it is taken in
//! ([`text`]). [`pipeline`] runs the stages of one block in their order,
//! [`snapshot`] stands in for a registry that is kept elsewhere, and [`laws`]
//! holds what is proved of all of this for every input.

pub mod hex;
pub mod text;
pub mod registry;
pub mod block;
pub mod record;
pub mod shape;
pub mod select;
pub mod decode;
pub mod writer;
pub mod pipeline;
pub mod snapshot;
pub mod rows;
pub mod entity;
pub mod database;
pub mod laws;
