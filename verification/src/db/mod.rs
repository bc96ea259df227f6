//! The sentence-pair records and the id lists that select them.
pub mod sentence_pairs;
pub mod id_list_laws;
