# inex_git

The Git side of importing a repository into an Inex vault, verified with Verus.

An import reads one clean source repository, encrypts it into a staging vault, makes a fresh target
repository of the ciphertext with a single parentless commit, and publishes the result under a content
seal. Whether a step may be taken, and what is concluded from what was seen, is decided in `src/`;
every function there carries a contract that Verus proves.

## Layout

- `src/seal*.rs`, `content_seal.rs`: the candidate content seal, its byte stream and its digest.
- `src/manifest.rs`, `revalidation.rs`, `physical_walk.rs`, `exact_walk.rs`, `control_snapshot.rs`: the physical
  manifest of a candidate, looking at it again, and reading single control files of it.
- `src/git_object.rs`, `tree_body.rs`, `tree_path.rs`, `tree_place.rs`, `target_tree.rs`: blobs, canonical trees
  and the one commit, with their ids.
- `src/path_components.rs`, `path_parents.rs`, `slash_path.rs`: paths cut at their slashes, their one form with
  single slashes, and the directories above them.
- `src/wiped.rs`: bytes of files, commands and commits, which are overwritten when they are dropped.
- `src/git_control.rs`, `control_scan.rs`, `object_union.rs`, `git_evidence.rs`, `object_proof.rs`: the exact
  control directory of a fresh target, and the proof of its objects.
- `src/tree_walk.rs`, `namespace.rs`, `inventory_walk.rs`, `held_reading.rs`: walks through directories, what is
  listed of them, and reading single files.
- `src/source_*.rs`, `portable_*.rs`: what a source must be, and its snapshot.
- `src/target_*.rs`, `marker_audit.rs`: making a target and auditing it, with a publication marker or without.
- `src/git_runner.rs`, `batch_session.rs`, `object_batch.rs`, `repository_commands.rs`: how Git is run and
  what is made of its output.
- `src/fresh_audit.rs`, `initial_authority.rs`, `publication*.rs`: who may publish a candidate, and every
  state that a publication passes through.
- `src/diagnostics.rs`: what may be printed of a value, which is counts and fixed words only.
- `app/`: files, processes and the services of the vault's core, around the library.
- `tests/`: tests of the library.

SHA-1, SHA-256, Unicode normalization, random identifiers and bytes that are wiped come from the crates `sha1`,
`sha2`, `unicode-normalization`, `uuid` and `zeroize`, behind the few trusted functions in `digest.rs`, `text.rs`,
`target_construction.rs` and `wiped.rs`. `sorting.rs` holds one for the sort of the standard library, and
`manifest.rs` one for its comparison of two references, by which one manifest is told from another that says the
same.
