//! Transcripts of videos and of local media.
//!
//! Whisper gives a transcript its prose, the captions of a video give it its names: the hybrid of
//! both is made by `hybrid`, from subtitle files that `srt` reads and writes. The jobs
//! (`youtube_job`, `local_job`, `merge_job`, with `caption_job` and `media_job`) decide what is
//! done after what; they are told how each action ended, and answer with the next.
//!
//! What holds of all of this, for every input, is stated and proved in the modules whose names end
//! in `_laws`, and for jobs of videos also in `youtube_promises`.
pub mod align;
pub mod align_laws;
pub mod arguments;
pub mod artifacts;
pub mod bounds;
pub mod caption_job;
pub mod caption_laws;
pub mod captions;
pub mod commands;
pub mod edit;
pub mod events;
pub mod file_laws;
pub mod files;
pub mod find;
pub mod hybrid;
pub mod hybrid_files;
pub mod hybrid_laws;
pub mod job_laws;
pub mod local_job;
pub mod media_job;
pub mod merge_job;
pub mod merge_laws;
pub mod metadata;
pub mod metadata_laws;
pub mod models;
pub mod moving;
pub mod names;
pub mod number;
pub mod replacement;
pub mod replacement_laws;
pub mod srt;
pub mod srt_laws;
pub mod subtitle_laws;
pub mod text;
pub mod text_laws;
pub mod tokens;
pub mod tools;
pub mod trim;
pub mod vocab;
pub mod word_laws;
pub mod youtube_job;
pub mod youtube_laws;
pub mod youtube_promises;
