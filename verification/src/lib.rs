//! Point-in-time integrity snapshots of a file tree.
//!
//! The library enumerates regular files under a root, filters out volatile
//! pseudo-filesystem paths, computes an MD5 content digest for each eligible
//! file, and assembles a dated report mapping file paths to digests.
//! All policy (eligibility, digest semantics, error-tolerant aggregation,
//! report encoding) lives here and is verified; a thin unverified shell
//! around the library performs the file and directory I/O and hands plain
//! values in and out.

mod data;
mod file_listing;
mod filter;
mod hash;
mod json;
mod path_list;

pub use data::FileInfo;
pub use data::FileList;
pub use file_listing::regular_file_paths;
pub use filter::is_eligible;
pub use hash::build_dated_report;
pub use hash::build_report;
pub use hash::calculate_md5_hash;
pub use hash::hash_file_content;
pub use json::parse_report;
pub use json::report_to_json;
pub use path_list::path_list_text;
pub use path_list::split_path_list;
