//! A virtual network tuner: merges station catalogs of several backends into
//! one lineup, routes stream requests to the owning backend, renders the
//! tuner's lineup payloads and drives the relay of a live segmented playlist.
pub mod text;
pub mod station;
pub mod remap;
pub mod router;
pub mod relay;
pub mod tuner;
