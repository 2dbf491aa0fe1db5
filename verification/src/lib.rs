//! Decision engine for a multi-zone hydronic heating installation.
//!
//! The library keeps an append-only log of sensor and actuator readings,
//! answers derived-fact queries over it (last known state, windowed
//! averages, reconstructed on/off history), and reconciles those facts
//! against a declarative schedule into a minimal set of output changes.
//!
//! Temperatures are carried as thousandths of a degree and instants as
//! whole seconds, so every rule is stated and proved over plain integers.
use vstd::prelude::*;

pub mod config;
pub mod deciders;
pub mod pin;
pub mod repository;
pub mod state_retriever;
pub mod zone;
