//! The rules of a repository of changes: which files a view shows and what they
//! hold, how a working copy is compared with a view and brought to another one,
//! how operations on disk are leased, backed up and undone, and when a workspace
//! shared with Git may be entered.
//!
//! The library decides; it performs nothing itself. What lies on disk, in the
//! database or in Git comes in as plain values, and what is to be done goes out
//! as plans and steps.

pub mod alignment_laws;
pub mod bytes;
pub mod change_order;
pub mod collection_laws;
pub mod collections;
pub mod conflict_markers;
pub mod content;
pub mod content_laws;
pub mod deferred_tree;
pub mod disk;
pub mod disk_laws;
pub mod effect_paths;
pub mod effects;
pub mod error;
pub mod git_index;
pub mod git_state;
pub mod health_laws;
pub mod index_laws;
pub mod journal_laws;
pub mod materialize;
pub mod native_build;
pub mod native_index;
pub mod native_laws;
pub mod native_order;
pub mod native_roots;
pub mod native_tables;
pub mod operation;
pub mod operation_laws;
pub mod ordering;
pub mod path_laws;
pub mod paths;
pub mod plan_laws;
pub mod planner_laws;
pub mod pristine;
pub mod projection;
pub mod provenance_relink;
pub mod rebuild_laws;
pub mod recovery;
pub mod render_laws;
pub mod repair_laws;
pub mod refusal_laws;
pub mod replay;
pub mod repository;
pub mod row_text;
pub mod selective_repair;
pub mod snapshot;
pub mod snapshot_laws;
pub mod status;
pub mod status_laws;
pub mod status_rules;
pub mod switch;
pub mod switch_laws;
pub mod text;
pub mod tree_alignment;
pub mod tree_collection;
pub mod tree_laws;
pub mod types;
pub mod view_alignment;
pub mod word_laws;
pub mod workspace_laws;
pub mod workspace_txn;
pub mod worktree;
