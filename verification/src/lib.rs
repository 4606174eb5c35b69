//! Ribbit's dictation core: the provider stacks and their fallback state
//! machine, the transcript passes (phantom stripping, vocabulary), the guards
//! around the LLM editor, and the small decisions the desktop shell makes.

pub mod text;
pub mod fallback;
pub mod hallucinations;
pub mod vocab;
pub mod postprocess;
pub mod transcribe;
pub mod shell;
pub mod sound;
pub mod inserter;
pub mod tcc_reset;
pub mod pipeline;
pub mod history;
