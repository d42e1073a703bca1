//! Bulk archive extraction and audio-tag stripping: the decisions of the
//! batch engine (discovery filtering, partitioning, per-item plans and
//! outcome assembly), each with a verified contract. Walking the tree,
//! reading and writing files, and running the workers is left to callers.

pub mod batch;
pub mod discovery;
pub mod extract;
pub mod fields;
pub mod partition;
pub mod paths;
pub mod strip;

pub use batch::{
    metadata_args, output_root_to_create, record_outcomes, select_strip_targets, ItemStatus, MetadataArgs, Outcome, StripOptions,
    StripProgress, UnzipOptions, UnzipProgress,
};
pub use discovery::{
    audio_candidates, find_mp3_files, find_zip_files, select_matching, Mp3File, WalkEntry,
    ZipFile,
};
pub use extract::{
    action_for_entry, extract_target, safe_entry_name, skips_extraction, unpack_archive, ArchiveEntry,
    ArchivePlan, ExtractAction, ExtractFailure, Unpacker,
};
pub use fields::{classify_field, parse_keep_fields, trim_text, KeepField};
pub use partition::{gather, partition};
pub use paths::{file_name_of, file_stem_of, has_extension, join_path};
pub use strip::{keep_ops, plan_strip, tag_rewrite, KeepOp, StripPlan, TagRecord, TagRewrite};
