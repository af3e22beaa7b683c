//! Verified core of the Draffity writing studio services: prompt builders,
//! text heuristics, export/import transforms and retention rules.
use vstd::prelude::*;

pub mod ai;
pub mod ai_openrouter;
pub mod ai_prompts;
pub mod ai_validators;
pub mod asr;
pub mod backup;
pub mod bibliography;
pub mod clock;
pub mod crash_reporter;
pub mod domain;
pub mod error;
pub mod exporter;
pub mod ids;
pub mod importer;
pub mod media;
pub mod memory;
pub mod resources;
pub mod retention_policy;
pub mod secrets;
pub mod segments;
pub mod storage;
pub mod templates;
pub mod text;
pub mod token_counter;
pub mod tts;
pub mod user_templates;
pub mod validation_context;

verus! {
} // verus!
