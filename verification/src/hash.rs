//! Digest engine and snapshot builder: per-file MD5 outcomes, gathered into a
//! dated report, tolerating per-file failures without aborting the run.

use vstd::prelude::*;
use vstd::utf8::valid_utf8;
use vstd::utf8::decode_utf8;
use md5::Digest;
use md5::Md5;
use crate::data::FileInfo;
use crate::data::FileInfoV;
use crate::data::FileList;
use crate::data::is_lower_hex_digit;
use crate::data::none_sentinel;
use crate::data::valid_digest;
use crate::filter::spec_is_eligible;
use crate::filter::is_eligible;

verus! {

/// The MD5 digest of a text, rendered as hexadecimal digits: a fixed function
/// of the input characters alone, stable across calls, processes and machines.
pub uninterp spec fn md5_hex_of(s: Seq<char>) -> Seq<char>;

/// Relies on md-5's `Md5` (through the `digest` traits) and generic-array's
/// `LowerHex` formatting: the result is the 16-byte MD5 digest of the input's
/// bytes, rendered as 32 lowercase hexadecimal digits, and depends on the
/// input characters alone.
#[verifier::external_body]
pub fn calculate_md5_hash(input: &String) -> (r: String)
    ensures
        r@ == md5_hex_of(input@),
        r@.len() == 32,
        forall|i: int| 0 <= i < r@.len() ==> is_lower_hex_digit(#[trigger] r@[i]),
{
    let mut hasher = Md5::new();
    hasher.update(input);
    let result = hasher.finalize();
    format!("{:x}", result)
}

/// Relies on `std::str::from_utf8`: succeeds exactly on valid UTF-8 and
/// returns the decoded characters of those bytes.
#[verifier::external_body]
fn decode_text(bytes: &Vec<u8>) -> (r: Option<String>)
    ensures
        match r {
            Some(s) => valid_utf8(bytes@) && s@ == decode_utf8(bytes@),
            None => !valid_utf8(bytes@),
        },
{
    match std::str::from_utf8(bytes.as_slice()) {
        Ok(s) => Some(s.to_owned()),
        Err(_) => None,
    }
}

/// Relies on chrono's `Local::now` formatted with `%Y-%m-%d`: the local
/// calendar date as year, month and day, each zero-padded (the year to at
/// least four digits), joined by hyphens — so at least ten characters.
/// Nothing more is promised of a clock reading.
#[verifier::external_body]
pub(crate) fn today_string() -> (r: String)
    ensures
        r@.len() >= 10,
{
    chrono::Local::now().format("%Y-%m-%d").to_string()
}

/// The digest recorded for a file: `None` content stands for a failed open
/// or read and yields the sentinel, as does content that is not UTF-8 text;
/// readable text is digested.
pub open spec fn digest_of_content(c: Option<Seq<u8>>) -> Seq<char> {
    match c {
        None => none_sentinel(),
        Some(b) => if valid_utf8(b) {
            md5_hex_of(decode_utf8(b))
        } else {
            none_sentinel()
        },
    }
}

/// Digest one file's content into its report entry. `content` is the full
/// byte content as read, or `None` when the file could not be opened or read;
/// every failure degrades to the `"none"` sentinel, never to an error.
pub fn hash_file_content(filename: String, content: &Option<Vec<u8>>) -> (fi: FileInfo)
    ensures
        fi.filename == filename,
        fi.md5_hash@ == digest_of_content(content.deep_view()),
        valid_digest(fi.md5_hash@),
{
    proof {
        reveal_strlit("none");
        assert("none"@ =~= none_sentinel());
    }
    match content {
        None => {
            assert(content.deep_view() is None);
            FileInfo { filename, md5_hash: "none".to_owned() }
        },
        Some(bytes) => {
            assert(content.deep_view() == Some(bytes.deep_view()));
            assert(bytes.deep_view() == bytes@);
            match decode_text(bytes) {
                None => FileInfo { filename, md5_hash: "none".to_owned() },
                Some(text) => FileInfo { filename, md5_hash: calculate_md5_hash(&text) },
            }
        },
    }
}

/// The entry that a path with the given read outcome contributes.
pub open spec fn entry_for(path: Seq<char>, content: Option<Seq<u8>>) -> FileInfoV {
    FileInfoV { filename: path, md5_hash: digest_of_content(content) }
}

/// The entries of a report built from a list of (path, read outcome) pairs:
/// one entry per eligible path, in order; ineligible paths are skipped
/// silently and contribute nothing.
pub open spec fn entries_for(items: Seq<(Seq<char>, Option<Seq<u8>>)>) -> Seq<FileInfoV>
    decreases items.len(),
{
    if items.len() == 0 {
        Seq::empty()
    } else {
        entries_for(items.drop_last()) + (if spec_is_eligible(items.last().0) {
            seq![entry_for(items.last().0, items.last().1)]
        } else {
            Seq::empty()
        })
    }
}

/// Law: a report's entries never include an ineligible path, whatever list
/// they were built from.
pub proof fn lemma_excluded_paths_never_reported(items: Seq<(Seq<char>, Option<Seq<u8>>)>)
    ensures
        forall|j: int|
            0 <= j < entries_for(items).len() ==> spec_is_eligible(
                #[trigger] entries_for(items)[j].filename,
            ),
    decreases items.len(),
{
    if items.len() > 0 {
        lemma_excluded_paths_never_reported(items.drop_last());
        let pre = entries_for(items.drop_last());
        assert forall|j: int|
            0 <= j < entries_for(items).len() implies spec_is_eligible(
            entries_for(items)[j].filename,
        ) by {
            if j < pre.len() {
                assert(entries_for(items)[j] == pre[j]);
            } else {
                assert(spec_is_eligible(items.last().0));
                assert(entries_for(items)[j] == entry_for(items.last().0, items.last().1));
            }
        }
    }
}

/// Law: for a path matching a reserved prefix, no entry with that path ever
/// appears among the entries built from any list — also one containing it.
pub proof fn lemma_no_entry_for_excluded(items: Seq<(Seq<char>, Option<Seq<u8>>)>, p: Seq<char>)
    requires
        !spec_is_eligible(p),
    ensures
        forall|j: int|
            0 <= j < entries_for(items).len() ==> #[trigger] entries_for(items)[j].filename != p,
{
    lemma_excluded_paths_never_reported(items);
}

/// Assemble a dated report from a source of (path, read outcome) pairs.
///
/// A missing source (`None`, standing for an absent or unreadable path list)
/// degrades to a report with zero entries; otherwise every eligible path
/// yields exactly one entry, in order, and no failure aborts the run.
pub fn build_report(date: String, source: Option<Vec<(String, Option<Vec<u8>>)>>) -> (r: FileList)
    ensures
        r@.date == date@,
        match source {
            Some(items) => r@.files == entries_for(items.deep_view()),
            None => r@.files == Seq::<FileInfoV>::empty(),
        },
        forall|j: int| 0 <= j < r@.files.len() ==> valid_digest(#[trigger] r@.files[j].md5_hash),
        forall|j: int|
            0 <= j < r@.files.len() ==> spec_is_eligible(#[trigger] r@.files[j].filename),
{
    let items = match source {
        None => {
            let r = FileList { date, files: Vec::new() };
            proof {
                assert(r@.files =~= Seq::<FileInfoV>::empty());
            }
            return r;
        },
        Some(items) => items,
    };
    let ghost items_view = items.deep_view();
    let mut files: Vec<FileInfo> = Vec::new();
    let mut i: usize = 0;
    while i < items.len()
        invariant
            i <= items.len(),
            items_view == items.deep_view(),
            items_view.len() == items.len(),
            files@.map_values(|fi: FileInfo| fi@) == entries_for(items_view.subrange(0, i as int)),
            forall|j: int| 0 <= j < files.len() ==> valid_digest(#[trigger] files@[j]@.md5_hash),
            forall|j: int|
                0 <= j < files.len() ==> spec_is_eligible(#[trigger] files@[j]@.filename),
        decreases items.len() - i,
    {
        let item = &items[i];
        proof {
            assert(items_view.subrange(0, i + 1 as int).drop_last() =~= items_view.subrange(
                0,
                i as int,
            ));
            assert(items_view.subrange(0, i + 1 as int).last() == items_view[i as int]);
            assert(items_view[i as int].0 == item.0@);
        }
        if is_eligible(item.0.as_str()) {
            let fi = hash_file_content(item.0.clone(), &item.1);
            files.push(fi);
            proof {
                assert(files@.map_values(|fi: FileInfo| fi@) =~= entries_for(
                    items_view.subrange(0, i + 1 as int),
                ));
            }
        } else {
            proof {
                assert(files@.map_values(|fi: FileInfo| fi@) =~= entries_for(
                    items_view.subrange(0, i + 1 as int),
                ));
            }
        }
        i += 1;
    }
    proof {
        assert(items_view.subrange(0, items_view.len() as int) =~= items_view);
    }
    FileList { date, files }
}

/// Assemble a report stamped with today's calendar date, as a snapshot run
/// does; otherwise exactly `build_report`.
pub fn build_dated_report(source: Option<Vec<(String, Option<Vec<u8>>)>>) -> (r: FileList)
    ensures
        r@.date.len() >= 10,
        match source {
            Some(items) => r@.files == entries_for(items.deep_view()),
            None => r@.files == Seq::<FileInfoV>::empty(),
        },
        forall|j: int| 0 <= j < r@.files.len() ==> valid_digest(#[trigger] r@.files[j].md5_hash),
        forall|j: int|
            0 <= j < r@.files.len() ==> spec_is_eligible(#[trigger] r@.files[j].filename),
{
    let date = today_string();
    build_report(date, source)
}

} // verus!
