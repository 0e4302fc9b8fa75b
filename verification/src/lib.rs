//! A code index that answers questions about functions, types, call chains and
//! mailing-list archives, with every rule it applies stated and proved.
pub mod text;
pub mod text_laws;
pub mod order;
pub mod names;
pub mod resolution;
pub mod resolution_laws;
pub mod row_order;
pub mod types;
pub mod keyed;
pub mod aggregate;
pub mod aggregate_laws;
pub mod revision;
pub mod revision_laws;
pub mod database_utils;
pub mod file_extensions;
pub mod paths;
pub mod sql;
pub mod hexadecimal;
pub mod json;
pub mod stored;
pub mod callchain;
pub mod callchain_text;
pub mod colors;
pub mod answer_laws;
pub mod answers;
pub mod chain_answers;
pub mod display;
pub mod help;
pub mod file_survey;
pub mod survey_laws;
pub mod syntax;
pub mod tables;
pub mod selection;
pub mod call_laws;
pub mod call_rows;
pub mod overlay;
pub mod patterns;
pub mod dates;
pub mod chunks;
pub mod grep;
pub mod lookup_laws;
pub mod chained;
pub mod references;
pub mod lore;
pub mod lore_search;
pub mod lore_insert;
pub mod commits;
pub mod archive_laws;
pub mod duplicates;
pub mod reports;
pub mod index_state;
pub mod inserts;
pub mod chain_laws;
pub mod collect;
pub mod row_laws;
pub mod rows;
