//! Voice-to-text results.
use vstd::prelude::*;
use vstd::string::*;

use crate::error::{AppError, AppResult};

verus! {

/// A recognised span of audio with its timing.
#[derive(Debug, Clone, PartialEq, Eq)]
pub struct TranscriptSegment {
    pub text: String,
    pub start_ms: u64,
    pub end_ms: u64,
}

/// A transcription: the text and, when known, its timed segments.
#[derive(Debug, Clone, Default, PartialEq, Eq)]
pub struct Transcript {
    pub text: String,
    pub segments: Vec<TranscriptSegment>,
}

impl Transcript {
    /// A transcript of plain text, without segments.
    pub fn plain(text: &str) -> (r: Self)
        ensures
            r.text@ == text@,
            r.segments@.len() == 0,
    {
        Transcript { text: String::from_str(text), segments: Vec::new() }
    }
}

/// The refusal of a service without voice recognition.
pub open spec fn asr_unavailable(e: AppError) -> bool {
    e == AppError::Unsupported(e->Unsupported_0) && e->Unsupported_0@
        == "la transcripción de voz no está disponible"@
}

/// Voice-to-text: whole files (voice notes) and streamed dictation.
pub trait ASRService {
    /// Whether a recogniser is installed.
    fn available(&self) -> bool;

    /// Transcribe a whole audio file; refused unless an implementation
    /// provides it.
    fn transcribe_file(&self, path: &str) -> (r: AppResult<Transcript>)
        default_ensures
            r matches Err(e) && asr_unavailable(e),
    {
        Err(AppError::Unsupported(String::from_str("la transcripción de voz no está disponible")))
    }

    /// As `transcribe_file`, reporting progress from 0 to 100; by default
    /// it is `transcribe_file` itself and reports no progress.
    fn transcribe_file_with_progress<P: FnMut(u8)>(&self, path: &str, on_progress: &mut P) -> (r: AppResult<Transcript>)
        default_ensures
            call_ensures(Self::transcribe_file, (self, path), r),
    {
        self.transcribe_file(path)
    }

    /// Streamed dictation over 16-bit mono samples; refused unless an
    /// implementation provides it.
    fn transcribe_stream<Q: FnMut(&Transcript)>(
        &self,
        samples: &[i16],
        sample_rate: u32,
        on_partial: &mut Q,
    ) -> (r: AppResult<Transcript>)
        default_ensures
            r matches Err(e) && asr_unavailable(e),
    {
        Err(AppError::Unsupported(String::from_str("la transcripción de voz no está disponible")))
    }
}

} // verus!
