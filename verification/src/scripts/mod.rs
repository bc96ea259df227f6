//! The logic of the two standalone helper programs: rendering Russian
//! sentences to one mp3, and checking the host for the voices and tools.
pub mod json;
pub mod make_ru_mp3;
pub mod setup_piper_voices;
pub mod voice_laws;
