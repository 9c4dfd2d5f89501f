//! An in-memory, multi-model key-value database engine.
//!
//! Keys belong to exactly one of three value families: flat KV values
//! (string or integer), JSON documents, or geospatial point sets. The
//! engine keeps a keyspace directory that enforces the single-family
//! rule, an expiration index swept on a tick, a snapshot envelope for
//! persistence, and a spatial index kept in step with each point set.

pub mod reply;

pub mod table;

pub mod numtext;

pub mod json;

pub mod bridge;

pub mod geo;

pub mod db;

pub mod snapshot;

pub mod jsonops;
