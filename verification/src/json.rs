//! Report encoding: a verified JSON writer and reader for the report shape
//! `{"date":"...","files":[{"filename":"...","md5_hash":"..."},...]}`.
//!
//! Reading back what was written recovers the report exactly; the law is
//! stated on `parse_report`.

use vstd::prelude::*;
use vstd::string::StrSliceExecFns;
use crate::data::FileInfo;
use crate::data::FileInfoV;
use crate::data::FileList;

verus! {

// ---------------------------------------------------------------------------
// The encoded shape, at the level of character sequences.
// ---------------------------------------------------------------------------
/// How one character is written inside a JSON string value.
pub open spec fn escape_char(c: char) -> Seq<char> {
    if c == '"' {
        seq!['\\', '"']
    } else if c == '\\' {
        seq!['\\', '\\']
    } else if c == '\n' {
        seq!['\\', 'n']
    } else if c == '\r' {
        seq!['\\', 'r']
    } else if c == '\t' {
        seq!['\\', 't']
    } else {
        seq![c]
    }
}

/// How a whole string value is written, character by character.
pub open spec fn escape_string(s: Seq<char>) -> Seq<char>
    decreases s.len(),
{
    if s.len() == 0 {
        Seq::empty()
    } else {
        escape_char(s[0]) + escape_string(s.drop_first())
    }
}

/// `{"date":"` — opens the report and the date value.
pub open spec fn report_open() -> Seq<char> {
    seq!['{', '"', 'd', 'a', 't', 'e', '"', ':', '"']
}

/// `","files":[` — closes the date value and opens the entry array.
pub open spec fn files_key() -> Seq<char> {
    seq!['"', ',', '"', 'f', 'i', 'l', 'e', 's', '"', ':', '[']
}

/// `{"filename":"` — opens an entry and its path value.
pub open spec fn entry_open() -> Seq<char> {
    seq!['{', '"', 'f', 'i', 'l', 'e', 'n', 'a', 'm', 'e', '"', ':', '"']
}

/// `","md5_hash":"` — closes the path value and opens the digest value.
pub open spec fn entry_mid() -> Seq<char> {
    seq!['"', ',', '"', 'm', 'd', '5', '_', 'h', 'a', 's', 'h', '"', ':', '"']
}

/// `"}` — closes the digest value and the entry.
pub open spec fn entry_close() -> Seq<char> {
    seq!['"', '}']
}

/// `]}` — closes the entry array and the report.
pub open spec fn report_close() -> Seq<char> {
    seq![']', '}']
}

/// The encoding of one entry.
pub open spec fn json_of_entry(e: FileInfoV) -> Seq<char> {
    entry_open() + escape_string(e.filename) + entry_mid() + escape_string(e.md5_hash)
        + entry_close()
}

/// The encoding of the entry array's interior: entries joined by commas.
pub open spec fn json_of_entries(es: Seq<FileInfoV>) -> Seq<char>
    decreases es.len(),
{
    if es.len() == 0 {
        Seq::empty()
    } else if es.len() == 1 {
        json_of_entry(es[0])
    } else {
        json_of_entry(es[0]) + seq![','] + json_of_entries(es.drop_first())
    }
}

/// The encoding of a whole report.
pub open spec fn json_of_report(date: Seq<char>, es: Seq<FileInfoV>) -> Seq<char> {
    report_open() + escape_string(date) + files_key() + json_of_entries(es) + report_close()
}

// ---------------------------------------------------------------------------
// Lemmas used by the writer: the encoding grows from the end.
// ---------------------------------------------------------------------------
proof fn lemma_escape_push(s: Seq<char>, c: char)
    ensures
        escape_string(s.push(c)) == escape_string(s) + escape_char(c),
    decreases s.len(),
{
    if s.len() == 0 {
        assert(s.push(c).len() == 1);
        assert(s.push(c)[0] == c);
        assert(s.push(c).drop_first() =~= Seq::<char>::empty());
        assert(escape_string(s.push(c)) == escape_char(c) + escape_string(Seq::<char>::empty()));
        assert(escape_string(s.push(c)) =~= escape_char(c));
        assert(escape_string(s) + escape_char(c) =~= escape_char(c));
    } else {
        assert(s.push(c)[0] == s[0]);
        assert(s.push(c).drop_first() =~= s.drop_first().push(c));
        lemma_escape_push(s.drop_first(), c);
        assert(escape_string(s.push(c)) == escape_char(s[0]) + escape_string(
            s.drop_first().push(c),
        ));
        assert(escape_string(s.push(c)) =~= escape_string(s) + escape_char(c));
    }
}

proof fn lemma_entries_push(es: Seq<FileInfoV>, e: FileInfoV)
    ensures
        json_of_entries(es.push(e)) == json_of_entries(es) + (if es.len() > 0 {
            seq![',']
        } else {
            Seq::<char>::empty()
        }) + json_of_entry(e),
    decreases es.len(),
{
    if es.len() == 0 {
        assert(es.push(e) =~= seq![e]);
        assert(json_of_entries(es) + Seq::<char>::empty() + json_of_entry(e) =~= json_of_entry(
            e,
        ));
    } else {
        assert(es.push(e).drop_first() =~= es.drop_first().push(e));
        lemma_entries_push(es.drop_first(), e);
        if es.len() == 1 {
            assert(json_of_entries(es.push(e)) =~= json_of_entries(es) + seq![',']
                + json_of_entry(e));
        } else {
            assert(json_of_entries(es.push(e)) =~= json_of_entries(es) + seq![',']
                + json_of_entry(e));
        }
    }
}

// ---------------------------------------------------------------------------
// Character plumbing between `String` and `Vec<char>`.
// ---------------------------------------------------------------------------
/// Relies on `String::push`: appends exactly the one character.
#[verifier::external_body]
pub(crate) fn push_char(s: &mut String, c: char)
    ensures
        final(s)@ == old(s)@.push(c),
{
    s.push(c);
}

/// Build a `String` holding exactly the given characters.
pub(crate) fn chars_to_string(v: &Vec<char>) -> (s: String)
    ensures
        s@ == v@,
{
    let mut s = String::new();
    let mut i: usize = 0;
    while i < v.len()
        invariant
            i <= v.len(),
            s@ == v@.subrange(0, i as int),
        decreases v.len() - i,
    {
        push_char(&mut s, v[i]);
        proof {
            assert(v@.subrange(0, i as int).push(v@[i as int]) =~= v@.subrange(0, i + 1 as int));
        }
        i += 1;
    }
    proof {
        assert(v@.subrange(0, v@.len() as int) =~= v@);
    }
    s
}

/// Read a string slice out into its characters.
fn str_to_chars(s: &str) -> (v: Vec<char>)
    ensures
        v@ == s@,
{
    let n = s.unicode_len();
    let mut v: Vec<char> = Vec::new();
    let mut i: usize = 0;
    while i < n
        invariant
            i <= n,
            n == s@.len(),
            v@ == s@.subrange(0, i as int),
        decreases n - i,
    {
        v.push(s.get_char(i));
        proof {
            assert(s@.subrange(0, i as int).push(s@[i as int]) =~= s@.subrange(0, i + 1 as int));
        }
        i += 1;
    }
    proof {
        assert(s@.subrange(0, s@.len() as int) =~= s@);
    }
    v
}

// ---------------------------------------------------------------------------
// The writer.
// ---------------------------------------------------------------------------
fn push_escaped_char(out: &mut Vec<char>, c: char)
    ensures
        final(out)@ == old(out)@ + escape_char(c),
{
    if c == '"' {
        out.push('\\');
        out.push('"');
    } else if c == '\\' {
        out.push('\\');
        out.push('\\');
    } else if c == '\n' {
        out.push('\\');
        out.push('n');
    } else if c == '\r' {
        out.push('\\');
        out.push('r');
    } else if c == '\t' {
        out.push('\\');
        out.push('t');
    } else {
        out.push(c);
    }
    proof {
        assert(out@ =~= old(out)@ + escape_char(c));
    }
}

fn push_escaped(out: &mut Vec<char>, s: &String)
    ensures
        final(out)@ == old(out)@ + escape_string(s@),
{
    let n = s.as_str().unicode_len();
    let mut i: usize = 0;
    while i < n
        invariant
            i <= n,
            n == s@.len(),
            out@ == old(out)@ + escape_string(s@.subrange(0, i as int)),
        decreases n - i,
    {
        let c = s.as_str().get_char(i);
        push_escaped_char(out, c);
        proof {
            assert(s@.subrange(0, i as int).push(s@[i as int]) =~= s@.subrange(0, i + 1 as int));
            lemma_escape_push(s@.subrange(0, i as int), s@[i as int]);
        }
        i += 1;
    }
    proof {
        assert(s@.subrange(0, s@.len() as int) =~= s@);
    }
}

fn push_lit(out: &mut Vec<char>, lit: &Vec<char>)
    ensures
        final(out)@ == old(out)@ + lit@,
{
    let mut i: usize = 0;
    while i < lit.len()
        invariant
            i <= lit.len(),
            out@ == old(out)@ + lit@.subrange(0, i as int),
        decreases lit.len() - i,
    {
        out.push(lit[i]);
        proof {
            assert(lit@.subrange(0, i as int).push(lit@[i as int]) =~= lit@.subrange(
                0,
                i + 1 as int,
            ));
        }
        i += 1;
    }
    proof {
        assert(lit@.subrange(0, lit@.len() as int) =~= lit@);
    }
}

fn report_open_chars() -> (r: Vec<char>)
    ensures
        r@ == report_open(),
{
    let s = "{\"date\":\"";
    proof {
        reveal_strlit("{\"date\":\"");
        assert(s@ =~= report_open());
    }
    str_to_chars(s)
}

fn files_key_chars() -> (r: Vec<char>)
    ensures
        r@ == files_key(),
{
    let s = "\",\"files\":[";
    proof {
        reveal_strlit("\",\"files\":[");
        assert(s@ =~= files_key());
    }
    str_to_chars(s)
}

fn entry_open_chars() -> (r: Vec<char>)
    ensures
        r@ == entry_open(),
{
    let s = "{\"filename\":\"";
    proof {
        reveal_strlit("{\"filename\":\"");
        assert(s@ =~= entry_open());
    }
    str_to_chars(s)
}

fn entry_mid_chars() -> (r: Vec<char>)
    ensures
        r@ == entry_mid(),
{
    let s = "\",\"md5_hash\":\"";
    proof {
        reveal_strlit("\",\"md5_hash\":\"");
        assert(s@ =~= entry_mid());
    }
    str_to_chars(s)
}

fn push_entry(out: &mut Vec<char>, fi: &FileInfo)
    ensures
        final(out)@ == old(out)@ + json_of_entry(fi@),
{
    let open = entry_open_chars();
    let mid = entry_mid_chars();
    push_lit(out, &open);
    push_escaped(out, &fi.filename);
    push_lit(out, &mid);
    push_escaped(out, &fi.md5_hash);
    out.push('"');
    out.push('}');
    proof {
        assert(out@ =~= old(out)@ + json_of_entry(fi@));
    }
}

/// Encode a report. The result is exactly `json_of_report` of the report's
/// date and entries, so reading it back recovers the report (`parse_report`).
pub fn report_to_json(r: &FileList) -> (s: String)
    ensures
        s@ == json_of_report(r@.date, r@.files),
{
    let mut out: Vec<char> = Vec::new();
    let open = report_open_chars();
    let fkey = files_key_chars();
    push_lit(&mut out, &open);
    push_escaped(&mut out, &r.date);
    push_lit(&mut out, &fkey);
    let ghost entries_view = r@.files;
    let mut i: usize = 0;
    while i < r.files.len()
        invariant
            i <= r.files.len(),
            entries_view == r@.files,
            entries_view.len() == r.files.len(),
            out@ == report_open() + escape_string(r@.date) + files_key() + json_of_entries(
                entries_view.subrange(0, i as int),
            ),
        decreases r.files.len() - i,
    {
        if i > 0 {
            out.push(',');
        }
        push_entry(&mut out, &r.files[i]);
        proof {
            assert(entries_view.subrange(0, i as int).push(entries_view[i as int])
                =~= entries_view.subrange(0, i + 1 as int));
            lemma_entries_push(entries_view.subrange(0, i as int), entries_view[i as int]);
            assert(entries_view[i as int] == r.files[i as int]@);
            assert(out@ =~= report_open() + escape_string(r@.date) + files_key()
                + json_of_entries(entries_view.subrange(0, i + 1 as int)));
        }
        i += 1;
    }
    out.push(']');
    out.push('}');
    proof {
        assert(entries_view.subrange(0, entries_view.len() as int) =~= entries_view);
        assert(out@ =~= json_of_report(r@.date, r@.files));
    }
    chars_to_string(&out)
}


// ---------------------------------------------------------------------------
// The decoded shape: scanners over character sequences.
// ---------------------------------------------------------------------------
/// `,"files":[` — what follows once the date value's closing quote is read.
pub open spec fn files_key_rest() -> Seq<char> {
    seq![',', '"', 'f', 'i', 'l', 'e', 's', '"', ':', '[']
}

/// `,"md5_hash":"` — what follows once the path value's closing quote is read.
pub open spec fn entry_mid_rest() -> Seq<char> {
    seq![',', '"', 'm', 'd', '5', '_', 'h', 'a', 's', 'h', '"', ':', '"']
}

/// The character an escape introducer stands for, if any.
pub open spec fn unescape_char(c: char) -> Option<char> {
    if c == '"' {
        Some('"')
    } else if c == '\\' {
        Some('\\')
    } else if c == 'n' {
        Some('\n')
    } else if c == 'r' {
        Some('\r')
    } else if c == 't' {
        Some('\t')
    } else {
        None
    }
}

/// Scan a string value up to and including its closing quote: the decoded
/// characters and what remains after the quote.
pub open spec fn scan_string(s: Seq<char>) -> Option<(Seq<char>, Seq<char>)>
    decreases s.len(),
{
    if s.len() == 0 {
        None
    } else if s[0] == '"' {
        Some((Seq::empty(), s.drop_first()))
    } else if s[0] == '\\' {
        if s.len() < 2 {
            None
        } else {
            match unescape_char(s[1]) {
                None => None,
                Some(c) => match scan_string(s.subrange(2, s.len() as int)) {
                    None => None,
                    Some(p) => Some((seq![c] + p.0, p.1)),
                },
            }
        }
    } else {
        match scan_string(s.drop_first()) {
            None => None,
            Some(p) => Some((seq![s[0]] + p.0, p.1)),
        }
    }
}

proof fn lemma_scan_string_shrinks(s: Seq<char>)
    ensures
        scan_string(s) matches Some(p) ==> p.1.len() < s.len(),
    decreases s.len(),
{
    if s.len() == 0 {
    } else if s[0] == '"' {
    } else if s[0] == '\\' {
        if s.len() >= 2 {
            lemma_scan_string_shrinks(s.subrange(2, s.len() as int));
        }
    } else {
        lemma_scan_string_shrinks(s.drop_first());
    }
}

/// Scan one entry `{"filename":"...","md5_hash":"..."}` and return it with
/// what remains after its closing brace.
pub open spec fn scan_entry(s: Seq<char>) -> Option<(FileInfoV, Seq<char>)> {
    if !entry_open().is_prefix_of(s) {
        None
    } else {
        match scan_string(s.skip(entry_open().len() as int)) {
            None => None,
            Some(p1) => if !entry_mid_rest().is_prefix_of(p1.1) {
                None
            } else {
                match scan_string(p1.1.skip(entry_mid_rest().len() as int)) {
                    None => None,
                    Some(p2) => if p2.1.len() > 0 && p2.1[0] == '}' {
                        Some(
                            (
                                FileInfoV { filename: p1.0, md5_hash: p2.0 },
                                p2.1.drop_first(),
                            ),
                        )
                    } else {
                        None
                    },
                }
            },
        }
    }
}

proof fn lemma_scan_entry_shrinks(s: Seq<char>)
    ensures
        scan_entry(s) matches Some(p) ==> p.1.len() < s.len(),
{
    if entry_open().is_prefix_of(s) {
        lemma_scan_string_shrinks(s.skip(entry_open().len() as int));
        match scan_string(s.skip(entry_open().len() as int)) {
            None => {},
            Some(p1) => {
                if entry_mid_rest().is_prefix_of(p1.1) {
                    lemma_scan_string_shrinks(p1.1.skip(entry_mid_rest().len() as int));
                }
            },
        }
    }
}

/// Scan the interior of the entry array, up to and including its closing
/// bracket: the entries and what remains after the bracket.
pub open spec fn scan_entries(s: Seq<char>) -> Option<(Seq<FileInfoV>, Seq<char>)>
    decreases s.len(),
    via scan_entries_decreases
{
    if s.len() == 0 {
        None
    } else if s[0] == ']' {
        Some((Seq::empty(), s.drop_first()))
    } else {
        match scan_entry(s) {
            None => None,
            Some(p) => if p.1.len() > 0 && p.1[0] == ',' {
                match scan_entries(p.1.drop_first()) {
                    None => None,
                    Some(q) => Some((seq![p.0] + q.0, q.1)),
                }
            } else if p.1.len() > 0 && p.1[0] == ']' {
                Some((seq![p.0], p.1.drop_first()))
            } else {
                None
            },
        }
    }
}

#[via_fn]
proof fn scan_entries_decreases(s: Seq<char>) {
    lemma_scan_entry_shrinks(s);
}

/// Scan a whole report document: its date and its entries. Succeeds only
/// when the document is consumed exactly.
pub open spec fn scan_report(s: Seq<char>) -> Option<(Seq<char>, Seq<FileInfoV>)> {
    if !report_open().is_prefix_of(s) {
        None
    } else {
        match scan_string(s.skip(report_open().len() as int)) {
            None => None,
            Some(p1) => if !files_key_rest().is_prefix_of(p1.1) {
                None
            } else {
                match scan_entries(p1.1.skip(files_key_rest().len() as int)) {
                    None => None,
                    Some(p2) => if p2.1 == seq!['}'] {
                        Some((p1.0, p2.0))
                    } else {
                        None
                    },
                }
            },
        }
    }
}

// ---------------------------------------------------------------------------
// Round trip: scanning an encoding recovers what was encoded.
// ---------------------------------------------------------------------------
proof fn lemma_scan_string_of_escape(d: Seq<char>, rest: Seq<char>)
    ensures
        scan_string(escape_string(d) + seq!['"'] + rest) == Some((d, rest)),
    decreases d.len(),
{
    let s = escape_string(d) + seq!['"'] + rest;
    if d.len() == 0 {
        assert(escape_string(d) =~= Seq::<char>::empty());
        assert(s =~= seq!['"'] + rest);
        assert(s[0] == '"');
        assert(s.drop_first() =~= rest);
        assert(d =~= Seq::<char>::empty());
    } else {
        let c = d[0];
        let e = escape_char(c);
        let d1 = d.drop_first();
        assert(escape_string(d) == e + escape_string(d1));
        let s1 = escape_string(d1) + seq!['"'] + rest;
        lemma_scan_string_of_escape(d1, rest);
        if c == '"' || c == '\\' || c == '\n' || c == '\r' || c == '\t' {
            assert(e.len() == 2);
            assert(s.len() >= 2);
            assert(s[0] == e[0]);
            assert(s[1] == e[1]);
            assert(s[0] == '\\');
            assert(unescape_char(e[1]) == Some(c));
            assert(s.subrange(2, s.len() as int) =~= s1);
            assert(seq![c] + d1 =~= d);
        } else {
            assert(e =~= seq![c]);
            assert(s[0] == c);
            assert(c != '"' && c != '\\');
            assert(s.drop_first() =~= s1);
            assert(seq![c] + d1 =~= d);
        }
    }
}

proof fn lemma_scan_entry_of_json(e: FileInfoV, rest: Seq<char>)
    ensures
        scan_entry(json_of_entry(e) + rest) == Some((e, rest)),
{
    let s = json_of_entry(e) + rest;
    assert(entry_open().is_prefix_of(s)) by {
        assert(s.subrange(0, entry_open().len() as int) =~= entry_open());
    }
    let r1 = entry_mid_rest() + (escape_string(e.md5_hash) + seq!['"'] + (seq!['}'] + rest));
    assert(s.skip(entry_open().len() as int) =~= escape_string(e.filename) + seq!['"'] + r1);
    lemma_scan_string_of_escape(e.filename, r1);
    assert(entry_mid_rest().is_prefix_of(r1)) by {
        assert(r1.subrange(0, entry_mid_rest().len() as int) =~= entry_mid_rest());
    }
    let r2 = seq!['}'] + rest;
    assert(r1.skip(entry_mid_rest().len() as int) =~= escape_string(e.md5_hash) + seq!['"'] + r2);
    lemma_scan_string_of_escape(e.md5_hash, r2);
    assert(r2[0] == '}');
    assert(r2.drop_first() =~= rest);
    assert(FileInfoV { filename: e.filename, md5_hash: e.md5_hash } == e);
}

proof fn lemma_scan_entries_of_json(es: Seq<FileInfoV>, rest: Seq<char>)
    ensures
        scan_entries(json_of_entries(es) + seq![']'] + rest) == Some((es, rest)),
    decreases es.len(),
{
    let s = json_of_entries(es) + seq![']'] + rest;
    if es.len() == 0 {
        assert(s =~= seq![']'] + rest);
        assert(s[0] == ']');
        assert(s.drop_first() =~= rest);
        assert(es =~= Seq::<FileInfoV>::empty());
    } else if es.len() == 1 {
        let x = seq![']'] + rest;
        assert(s =~= json_of_entry(es[0]) + x);
        lemma_scan_entry_of_json(es[0], x);
        assert(s.len() > 0);
        assert(s[0] == entry_open()[0]);
        assert(s[0] != ']');
        assert(x[0] == ']');
        assert(x[0] != ',');
        assert(x.drop_first() =~= rest);
        assert(seq![es[0]] =~= es);
    } else {
        let x = seq![','] + (json_of_entries(es.drop_first()) + seq![']'] + rest);
        assert(s =~= json_of_entry(es[0]) + x);
        lemma_scan_entry_of_json(es[0], x);
        assert(s.len() > 0);
        assert(s[0] == entry_open()[0]);
        assert(s[0] != ']');
        assert(x[0] == ',');
        assert(x.drop_first() =~= json_of_entries(es.drop_first()) + seq![']'] + rest);
        lemma_scan_entries_of_json(es.drop_first(), rest);
        assert(seq![es[0]] + es.drop_first() =~= es);
    }
}

proof fn lemma_scan_report_of_json(d: Seq<char>, es: Seq<FileInfoV>)
    ensures
        scan_report(json_of_report(d, es)) == Some((d, es)),
{
    let s = json_of_report(d, es);
    assert(report_open().is_prefix_of(s)) by {
        assert(s.subrange(0, report_open().len() as int) =~= report_open());
    }
    let r1 = files_key_rest() + (json_of_entries(es) + seq![']'] + seq!['}']);
    assert(s.skip(report_open().len() as int) =~= escape_string(d) + seq!['"'] + r1);
    lemma_scan_string_of_escape(d, r1);
    assert(files_key_rest().is_prefix_of(r1)) by {
        assert(r1.subrange(0, files_key_rest().len() as int) =~= files_key_rest());
    }
    assert(r1.skip(files_key_rest().len() as int) =~= json_of_entries(es) + seq![']']
        + seq!['}']);
    lemma_scan_entries_of_json(es, seq!['}']);
}


// ---------------------------------------------------------------------------
// The reader.
// ---------------------------------------------------------------------------
fn unescape_char_exec(c: char) -> (r: Option<char>)
    ensures
        r == unescape_char(c),
{
    if c == '"' {
        Some('"')
    } else if c == '\\' {
        Some('\\')
    } else if c == 'n' {
        Some('\n')
    } else if c == 'r' {
        Some('\r')
    } else if c == 't' {
        Some('\t')
    } else {
        None
    }
}

fn files_key_rest_chars() -> (r: Vec<char>)
    ensures
        r@ == files_key_rest(),
{
    let s = ",\"files\":[";
    proof {
        reveal_strlit(",\"files\":[");
        assert(s@ =~= files_key_rest());
    }
    str_to_chars(s)
}

fn entry_mid_rest_chars() -> (r: Vec<char>)
    ensures
        r@ == entry_mid_rest(),
{
    let s = ",\"md5_hash\":\"";
    proof {
        reveal_strlit(",\"md5_hash\":\"");
        assert(s@ =~= entry_mid_rest());
    }
    str_to_chars(s)
}

fn match_lit(v: &Vec<char>, i: usize, lit: &Vec<char>) -> (b: bool)
    requires
        i <= v.len(),
    ensures
        b == lit@.is_prefix_of(v@.skip(i as int)),
{
    if v.len() - i < lit.len() {
        return false;
    }
    let mut j: usize = 0;
    while j < lit.len()
        invariant
            j <= lit.len(),
            i <= v.len(),
            lit.len() <= v.len() - i,
            forall|k: int| 0 <= k < j ==> v@[i + k] == lit@[k],
        decreases lit.len() - j,
    {
        if v[i + j] != lit[j] {
            proof {
                assert(v@.skip(i as int).subrange(0, lit@.len() as int)[j as int] == v@[i + j]);
            }
            return false;
        }
        j += 1;
    }
    proof {
        assert(lit@ =~= v@.skip(i as int).subrange(0, lit@.len() as int));
    }
    true
}

fn parse_string_at(v: &Vec<char>, i: usize) -> (r: Option<(Vec<char>, usize)>)
    requires
        i <= v.len(),
    ensures
        r is None ==> scan_string(v@.skip(i as int)) is None,
        r matches Some(p) ==> i < p.1 <= v.len() && scan_string(v@.skip(i as int)) == Some(
            (p.0@, v@.skip(p.1 as int)),
        ),
    decreases v.len() - i,
{
    let ghost s = v@.skip(i as int);
    if i == v.len() {
        proof {
            assert(s.len() == 0);
        }
        return None;
    }
    let c = v[i];
    proof {
        assert(s[0] == c);
    }
    if c == '"' {
        let e: Vec<char> = Vec::new();
        proof {
            assert(s.drop_first() =~= v@.skip(i + 1 as int));
            assert(e@ =~= Seq::<char>::empty());
        }
        return Some((e, i + 1));
    }
    if c == '\\' {
        if i + 1 == v.len() {
            proof {
                assert(s.len() < 2);
            }
            return None;
        }
        proof {
            assert(s[1] == v@[i + 1 as int]);
        }
        let u = unescape_char_exec(v[i + 1]);
        match u {
            None => None,
            Some(uc) => {
                proof {
                    assert(s.subrange(2, s.len() as int) =~= v@.skip(i + 2 as int));
                }
                match parse_string_at(v, i + 2) {
                    None => None,
                    Some((t, j)) => {
                        let ghost t_old = t@;
                        let mut t = t;
                        t.insert(0, uc);
                        proof {
                            assert(t@ =~= seq![uc] + t_old);
                        }
                        Some((t, j))
                    },
                }
            },
        }
    } else {
        proof {
            assert(s.drop_first() =~= v@.skip(i + 1 as int));
        }
        match parse_string_at(v, i + 1) {
            None => None,
            Some((t, j)) => {
                let ghost t_old = t@;
                let mut t = t;
                t.insert(0, c);
                proof {
                    assert(t@ =~= seq![c] + t_old);
                }
                Some((t, j))
            },
        }
    }
}

fn parse_entry_at(v: &Vec<char>, i: usize) -> (r: Option<(FileInfo, usize)>)
    requires
        i <= v.len(),
    ensures
        r is None ==> scan_entry(v@.skip(i as int)) is None,
        r matches Some(p) ==> i < p.1 <= v.len() && scan_entry(v@.skip(i as int)) == Some(
            (p.0@, v@.skip(p.1 as int)),
        ),
{
    let ghost s = v@.skip(i as int);
    let open = entry_open_chars();
    if !match_lit(v, i, &open) {
        return None;
    }
    proof {
        assert(open@.len() <= s.len());
        assert(s.skip(entry_open().len() as int) =~= v@.skip(i + open@.len()));
    }
    let after_open = i + open.len();
    match parse_string_at(v, after_open) {
        None => None,
        Some((f, j)) => {
            let midr = entry_mid_rest_chars();
            proof {
                assert(v@.skip(j as int) == scan_string(s.skip(entry_open().len() as int))->Some_0.1);
            }
            if !match_lit(v, j, &midr) {
                return None;
            }
            proof {
                assert(midr@.len() <= v@.skip(j as int).len());
                assert(v@.skip(j as int).skip(entry_mid_rest().len() as int) =~= v@.skip(
                    j + midr@.len(),
                ));
            }
            let after_mid = j + midr.len();
            match parse_string_at(v, after_mid) {
                None => None,
                Some((h, k)) => {
                    if k < v.len() {
                        let close = v[k];
                        proof {
                            assert(v@.skip(k as int)[0] == close);
                        }
                        if close == '}' {
                            proof {
                                assert(v@.skip(k as int).drop_first() =~= v@.skip(k + 1 as int));
                            }
                            let fi = FileInfo {
                                filename: chars_to_string(&f),
                                md5_hash: chars_to_string(&h),
                            };
                            Some((fi, k + 1))
                        } else {
                            None
                        }
                    } else {
                        proof {
                            assert(v@.skip(k as int).len() == 0);
                        }
                        None
                    }
                },
            }
        },
    }
}

fn parse_entries_at(v: &Vec<char>, i: usize) -> (r: Option<(Vec<FileInfo>, usize)>)
    requires
        i <= v.len(),
    ensures
        r is None ==> scan_entries(v@.skip(i as int)) is None,
        r matches Some(p) ==> i < p.1 <= v.len() && scan_entries(v@.skip(i as int)) == Some(
            (p.0@.map_values(|fi: FileInfo| fi@), v@.skip(p.1 as int)),
        ),
    decreases v.len() - i,
{
    let ghost s = v@.skip(i as int);
    if i == v.len() {
        proof {
            assert(s.len() == 0);
        }
        return None;
    }
    let c = v[i];
    proof {
        assert(s[0] == c);
    }
    if c == ']' {
        let e: Vec<FileInfo> = Vec::new();
        proof {
            assert(s.drop_first() =~= v@.skip(i + 1 as int));
            assert(e@.map_values(|fi: FileInfo| fi@) =~= Seq::<FileInfoV>::empty());
        }
        return Some((e, i + 1));
    }
    match parse_entry_at(v, i) {
        None => None,
        Some((fi, j)) => {
            if j == v.len() {
                proof {
                    assert(v@.skip(j as int).len() == 0);
                }
                return None;
            }
            let sep = v[j];
            proof {
                assert(v@.skip(j as int)[0] == sep);
            }
            if sep == ',' {
                proof {
                    assert(v@.skip(j as int).drop_first() =~= v@.skip(j + 1 as int));
                }
                match parse_entries_at(v, j + 1) {
                    None => None,
                    Some((list, k)) => {
                        let ghost list_old = list@;
                        let mut list = list;
                        list.insert(0, fi);
                        proof {
                            assert(list@ =~= seq![fi] + list_old);
                            assert(list@.map_values(|x: FileInfo| x@) =~= seq![fi@]
                                + list_old.map_values(|x: FileInfo| x@));
                        }
                        Some((list, k))
                    },
                }
            } else if sep == ']' {
                proof {
                    assert(v@.skip(j as int).drop_first() =~= v@.skip(j + 1 as int));
                }
                let mut list: Vec<FileInfo> = Vec::new();
                list.push(fi);
                proof {
                    assert(list@.map_values(|x: FileInfo| x@) =~= seq![fi@]);
                }
                Some((list, j + 1))
            } else {
                None
            }
        },
    }
}

/// Decode a report document.
///
/// Law (round trip): any document written by `report_to_json` parses back to
/// a report with the same date and the same entries, in the same order —
/// hence also the same (date, set of (path, digest)) pair.
pub fn parse_report(s: &str) -> (r: Option<FileList>)
    ensures
        r is None ==> scan_report(s@) is None,
        r matches Some(list) ==> scan_report(s@) == Some((list@.date, list@.files)),
        forall|d: Seq<char>, es: Seq<FileInfoV>|
            s@ == #[trigger] json_of_report(d, es) ==> (r matches Some(list) && list@.date == d
                && list@.files == es),
{
    let v = str_to_chars(s);
    let res = parse_report_chars(&v);
    proof {
        assert forall|d: Seq<char>, es: Seq<FileInfoV>|
            s@ == #[trigger] json_of_report(d, es) implies (res matches Some(list) && list@.date
            == d && list@.files == es) by {
            lemma_scan_report_of_json(d, es);
        }
    }
    res
}

fn parse_report_chars(v: &Vec<char>) -> (r: Option<FileList>)
    ensures
        r is None ==> scan_report(v@) is None,
        r matches Some(list) ==> scan_report(v@) == Some((list@.date, list@.files)),
{
    let open = report_open_chars();
    if !match_lit(v, 0, &open) {
        proof {
            assert(v@.skip(0) =~= v@);
        }
        return None;
    }
    proof {
        assert(v@.skip(0) =~= v@);
        assert(v@.skip(report_open().len() as int) =~= v@.skip(0).skip(
            report_open().len() as int,
        ));
    }
    match parse_string_at(v, open.len()) {
        None => None,
        Some((d, j)) => {
            let fkr = files_key_rest_chars();
            if !match_lit(v, j, &fkr) {
                return None;
            }
            proof {
                assert(fkr@.len() <= v@.skip(j as int).len());
                assert(v@.skip(j as int).skip(files_key_rest().len() as int) =~= v@.skip(
                    j + fkr@.len(),
                ));
            }
            match parse_entries_at(v, j + fkr.len()) {
                None => None,
                Some((entries, k)) => {
                    if k < v.len() && v[k] == '}' && k + 1 == v.len() {
                        proof {
                            assert(v@.skip(k as int) =~= seq!['}']);
                        }
                        let list = FileList { date: chars_to_string(&d), files: entries };
                        Some(list)
                    } else {
                        proof {
                            if v@.skip(k as int) == seq!['}'] {
                                assert(v@.skip(k as int).len() == 1);
                                assert(k < v.len() && k + 1 == v.len());
                                assert(v@.skip(k as int)[0] == v@[k as int]);
                                assert(v@[k as int] == '}');
                                assert(false);
                            }
                        }
                        None
                    }
                },
            }
        },
    }
}

} // verus!
