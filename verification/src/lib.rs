//! Cross-session semantic memory: transcript and markdown chunking, wing
//! naming, import and ingestion decisions, settings, telemetry and release
//! handling, each function stated and proved with Verus.

pub mod archive;
pub mod chunking;
pub mod commands;
pub mod config;
pub mod corpus;
pub mod crash;
pub mod dates;
pub mod guard;
pub mod hash;
pub mod health;
pub mod imports;
pub mod json;
pub mod logging;
pub mod model;
pub mod num;
pub mod release;
pub mod sessions;
pub mod telemetry;
pub mod text;
pub mod wing;
