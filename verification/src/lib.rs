pub mod audit_laws;
pub mod batch_session;
pub mod bytes;
pub mod command_laws;
pub mod config_laws;
pub mod content_seal;
pub mod control_laws;
pub mod control_scan;
pub mod control_snapshot;
pub mod diagnostics;
pub mod digest;
pub mod error_laws;
pub mod errors;
pub mod evidence_laws;
pub mod exact_walk;
pub mod fresh_audit;
pub mod git_control;
pub mod git_evidence;
pub mod git_object;
pub mod git_output;
pub mod git_runner;
pub mod held_reading;
pub mod hex;
pub mod identity;
pub mod initial_authority;
pub mod inventory_walk;
pub mod making_laws;
pub mod manifest;
pub mod marker_audit;
pub mod namespace;
pub mod object_batch;
pub mod object_laws;
pub mod object_proof;
pub mod object_union;
pub mod path_components;
pub mod path_parents;
pub mod physical_walk;
pub mod plan_laws;
pub mod portable_laws;
pub mod portable_path;
pub mod portable_source;
pub mod publication;
pub mod publication_claim;
pub mod publication_laws;
pub mod reading_laws;
pub mod repository_commands;
pub mod revalidation;
pub mod seal;
pub mod seal_agreement;
pub mod seal_framing;
pub mod seal_laws;
pub mod seal_records;
pub mod slash_path;
pub mod sorting;
pub mod source_checks;
pub mod source_content;
pub mod source_endpoints;
pub mod source_laws;
pub mod source_plan;
pub mod source_planning;
pub mod source_snapshot;
pub mod source_tree;
pub mod target_audit;
pub mod target_config;
pub mod target_construction;
pub mod target_control;
pub mod target_laws;
pub mod target_making;
pub mod target_objects;
pub mod target_semantics;
pub mod target_tree;
pub mod target_worktree;
pub mod text;
pub mod text_map;
pub mod tree_body;
pub mod tree_path;
pub mod tree_place;
pub mod tree_walk;
pub mod walk_laws;
pub mod wiped;
pub mod worktree_evidence;
