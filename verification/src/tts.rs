//! Text-to-speech: the engine interface and its results.
use vstd::prelude::*;
use vstd::string::*;

use crate::error::{AppError, AppResult};

verus! {

/// A voice the engine can speak with.
#[derive(Debug, Clone, PartialEq, Eq)]
pub struct Voice {
    /// Engine-specific model id.
    pub id: String,
    pub name: String,
    /// Language tag (`es`, `en`, ...).
    pub lang: String,
}

/// Mono PCM16 audio.
#[derive(Debug, Clone, Default, PartialEq, Eq)]
pub struct SynthesizedAudio {
    pub samples_pcm16: Vec<i16>,
    pub sample_rate: u32,
}

/// The refusal of a service without speech synthesis.
pub open spec fn tts_unavailable(e: AppError) -> bool {
    e == AppError::Unsupported(e->Unsupported_0) && e->Unsupported_0@
        == "la lectura en voz alta no está disponible"@
}

/// A speech engine. Without an engine nothing is spoken: no voices, and
/// synthesis is refused.
pub trait TTSService {
    /// Whether the engine can speak.
    fn available(&self) -> bool;

    /// The voices installed locally.
    fn voices(&self) -> (r: Vec<Voice>)
        default_ensures
            r@.len() == 0,
    {
        Vec::new()
    }

    /// Speak `text` with the voice `voice_id`.
    fn synthesize(&self, text: &str, voice_id: &str) -> (r: AppResult<SynthesizedAudio>)
        default_ensures
            r matches Err(e) && tts_unavailable(e),
    {
        Err(AppError::Unsupported(String::from_str("la lectura en voz alta no está disponible")))
    }
}

} // verus!
