//! Verified core of an image-prompt library: text normalisation of prompt
//! tokens, import identities, the artist dictionary builder, library
//! filters compiled to SQL, quick edits and automation rules (conditions,
//! actions and runs), schema upgrades and the records storage hands back.
pub mod text;
pub mod identity;
pub mod weight;
pub mod prompt_tokens;
pub mod name_index;
pub mod artist_dictionary;
pub mod dictionary_snapshot;
pub mod errors;
pub mod query;
pub mod batches;
pub mod records;
pub mod quick_edit;
pub mod rules;
pub mod rule_conditions;
pub mod rule_actions;
pub mod rule_run;
pub mod rule_simulation;
pub mod auto_prefix;
pub mod candidate_tally;
pub mod library_filters;
pub mod schema;
pub mod rule_transfer;
