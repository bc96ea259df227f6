//! Russian/English sentence-pair practice: selecting records by printer-style
//! id lists, choosing the Piper voice to speak with, splitting sentences into
//! clauses, and the argument handling and planning of the command-line tools.
pub mod db;
pub mod decimal;
pub mod paths;
pub mod play;
pub mod say;
pub mod scripts;
pub mod text;
