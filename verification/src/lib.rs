//! Bridge between an event-sourced application's command/query boundary and
//! two external surfaces: a relational store of materialized views, and a
//! chat-platform panel whose only durable state is its rendered text.
//!
//! The crate has two cores: a codec that reconstructs typed panel state from
//! a rendered interaction payload, and the decision logic of a generic view
//! repository (identity parsing, error normalization, create-vs-update
//! dispatch). The store calls themselves are issued by the surrounding
//! application; everything that decides is here, with contracts.

pub mod errors;
pub mod panel;
pub mod repository;
pub mod text;
