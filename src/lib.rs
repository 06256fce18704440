//! Quest submissions: a record store of quests and proof submissions, its two
//! append-only indexes, and the workflow that accepts a proof at most once per
//! quest and submitter, only while the quest is active and unexpired.
pub mod laws;
pub mod ledger;
pub mod submission;
pub mod types;
