//! A verified core for a small clustering pipeline: noisy two-dimensional
//! Gaussian blobs are generated, assembled into one ordered dataset, labeled by
//! a clustering engine, written out as a delimited table and drawn as a
//! scatter plot.
//!
//! Every decision of the pipeline lives here and is proved against its
//! contract. Drawing random numbers, fitting the clustering model, rendering
//! reals as text, and touching files are left to the caller: the library says
//! what to ask for and checks what comes back.
pub mod clustering;
pub mod config;
pub mod dataset;
pub mod error;
pub mod generator;
pub mod plot;
pub mod reader;
pub mod sample;
pub mod scalar;
pub mod table;
