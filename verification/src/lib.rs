//! Archive unpacking decisions: format detection by magic bytes, the
//! command lines handed to each extraction tool, the parsing of their
//! listings, the command line, and the choice of a destination directory.

mod backend;
mod cli;
mod format;
mod listing;
mod paths;
mod plan;
mod text;

pub use backend::{
    backend_for, backend_of, lemma_line_listings_keep_every_line, Backend, Extractor, RarBackend,
    SevenZipBackend, TarBackend, ZipBackend,
};
pub use cli::{
    dry_run_message, lemma_answer_words, lemma_conflicting_flags_refused, lemma_finish_accepts,
    lemma_flags_take_effect, lemma_plain_argument_names_archive, overwrite_answer, Answer,
    ArgError, ArgEvent, ArgParser, Options, SpecialExecutionFlag,
};
pub use format::{
    detect_format, format_of, lemma_format_depends_on_signature_bytes, lemma_signatures_decide,
    Format,
};
pub use listing::{
    lemma_listing_entries_clean, lemma_listing_line_by_line, lemma_listing_single_line,
    lemma_root_exactly, lemma_root_ignores_order, lemma_sevenzip_paths_after_separator,
    listing_lines, root_entry_name, sevenzip_listing,
};
pub use paths::{
    archive_stem, join_path, lemma_flattening_keeps_place, lemma_stem_drops_last_extension,
    lemma_stem_drops_tarball_extension, lemma_stem_is_prefix, resolve_dest, source_dir,
    temp_dir_name, DestError,
};
pub use plan::{extraction_plan, ExtractPlan};
pub use text::lemma_decimal_denotes;
