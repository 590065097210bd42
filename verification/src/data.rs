//! Report data model: one entry per digested file, gathered into a dated list.

use vstd::prelude::*;

verus! {

/// One digested file: its path as enumerated, and the digest of its content.
///
/// `md5_hash` is either 32 lowercase hexadecimal digits or the sentinel
/// `"none"` recording that the content could not be read or decoded.
pub struct FileInfo {
    pub filename: String,
    pub md5_hash: String,
}

/// A snapshot report: the calendar date of the run and the digested entries,
/// in the order the paths were processed.
pub struct FileList {
    pub date: String,
    pub files: Vec<FileInfo>,
}

/// Mathematical image of a `FileInfo`: both fields as character sequences.
pub ghost struct FileInfoV {
    pub filename: Seq<char>,
    pub md5_hash: Seq<char>,
}

impl View for FileInfo {
    type V = FileInfoV;

    open spec fn view(&self) -> FileInfoV {
        FileInfoV { filename: self.filename@, md5_hash: self.md5_hash@ }
    }
}

/// Mathematical image of a whole report.
pub ghost struct FileListV {
    pub date: Seq<char>,
    pub files: Seq<FileInfoV>,
}

impl View for FileList {
    type V = FileListV;

    open spec fn view(&self) -> FileListV {
        FileListV { date: self.date@, files: self.files@.map_values(|fi: FileInfo| fi@) }
    }
}

/// The sentinel digest recorded when a file's content could not be digested.
pub open spec fn none_sentinel() -> Seq<char> {
    seq!['n', 'o', 'n', 'e']
}

/// A lowercase hexadecimal digit.
pub open spec fn is_lower_hex_digit(c: char) -> bool {
    ('0' <= c && c <= '9') || ('a' <= c && c <= 'f')
}

/// A digest string is either the sentinel or exactly 32 lowercase hex digits.
pub open spec fn valid_digest(s: Seq<char>) -> bool {
    s == none_sentinel() || (s.len() == 32 && forall|i: int|
        0 <= i < s.len() ==> is_lower_hex_digit(#[trigger] s[i]))
}

} // verus!
