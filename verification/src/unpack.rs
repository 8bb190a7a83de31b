//! Trusted bindings to the outside decompression and archive crates, and
//! the byte-to-text conversion the archives need.

use vstd::prelude::*;
use std::io::Read;

verus! {

/// Whether gzip decoding of these bytes succeeds.
pub uninterp spec fn gunzip_ok(b: Seq<u8>) -> bool;

/// What gzip decoding of these bytes yields when it succeeds.
pub uninterp spec fn gunzip_of(b: Seq<u8>) -> Seq<u8>;

/// Relies on libflate's `gzip::Decoder`: decompressing a byte buffer is a
/// pure function of the bytes; failures come back as io errors.
#[verifier::external_body]
pub fn gzip_decode(bytes: &[u8]) -> (r: Result<Vec<u8>, String>)
    ensures
        r is Ok <==> gunzip_ok(bytes@),
        r is Ok ==> r->Ok_0@ == gunzip_of(bytes@),
{
    let mut d = match libflate::gzip::Decoder::new(bytes) {
        Ok(d) => d,
        Err(e) => return Err(format!("{}", e)),
    };
    let mut out = Vec::new();
    match d.read_to_end(&mut out) {
        Ok(_) => Ok(out),
        Err(e) => Err(format!("{}", e)),
    }
}

/// Whether listing the entries of this tar archive succeeds.
pub uninterp spec fn tar_ok(b: Seq<u8>) -> bool;

/// The entries of the archive: each entry's path text and contents.
pub uninterp spec fn tar_entries_of(b: Seq<u8>) -> Seq<(Seq<char>, Seq<u8>)>;

/// The pairs an entry vector stands for.
pub open spec fn view_entries(v: Seq<(String, Vec<u8>)>) -> Seq<(Seq<char>, Seq<u8>)> {
    v.map_values(|e: (String, Vec<u8>)| (e.0@, e.1@))
}

/// Relies on `tar::Archive`: listing the entries of a tar held in a byte
/// buffer is a pure function of the bytes.  Entry paths are decoded
/// lossily to text.
#[verifier::external_body]
pub fn tar_entry_list(bytes: &[u8]) -> (r: Result<Vec<(String, Vec<u8>)>, String>)
    ensures
        r is Ok <==> tar_ok(bytes@),
        r is Ok ==> view_entries(r->Ok_0@) == tar_entries_of(bytes@),
{
    let mut archive = tar::Archive::new(bytes);
    let mut out = Vec::new();
    let entries = archive.entries().map_err(|e| format!("{}", e))?;
    for entry in entries {
        let mut entry = entry.map_err(|e| format!("{}", e))?;
        let path = String::from_utf8_lossy(&entry.path_bytes()).into_owned();
        let mut contents = Vec::new();
        entry.read_to_end(&mut contents).map_err(|e| format!("{}", e))?;
        out.push((path, contents));
    }
    Ok(out)
}

/// The entries a tame manifest parses to: each entry as its path text, a
/// file-type code (0 file, 1 directory, 2 symbolic link, 3 other) and a
/// recorded size.
pub uninterp spec fn mtree_entries_of(b: Seq<u8>) -> Seq<(Seq<char>, Option<u8>, Option<u64>)>;

/// The triples an entry vector stands for.
pub open spec fn view_mtree_entries(v: Seq<(String, Option<u8>, Option<u64>)>) -> Seq<
    (Seq<char>, Option<u8>, Option<u64>),
> {
    v.map_values(|e: (String, Option<u8>, Option<u64>)| (e.0@, e.1, e.2))
}

/// Relies on the mtree crate's parser.  On a tame manifest (see
/// `mtree_screen`) every line is blank, a comment, `..`, `/set`, or an
/// entry whose path stands on its own, and every keyword keeps to the
/// grammar the parser implements, so the parse succeeds, never panics, and
/// depends on the bytes alone.  A manifest that is not tame must not be
/// handed here: a bare relative path would be resolved against the process
/// working directory, and lines the parser does not implement would stop
/// the process.
#[verifier::external_body]
pub fn mtree_entry_list(bytes: &[u8]) -> (r: Result<Vec<(String, Option<u8>, Option<u64>)>, String>)
    requires
        crate::mtree_screen::spec_mtree_tame(bytes@),
    ensures
        r is Ok,
        view_mtree_entries(r->Ok_0@) == mtree_entries_of(bytes@),
{
    let mut out = Vec::new();
    for entry in mtree::MTree::from_reader(bytes) {
        let e = entry.map_err(|e| format!("{}", e))?;
        let ty = e.file_type().map(|t| match t {
            mtree::FileType::File => 0u8,
            mtree::FileType::Directory => 1,
            mtree::FileType::SymbolicLink => 2,
            _ => 3,
        });
        out.push((e.path().to_string_lossy().into_owned(), ty, e.size()));
    }
    Ok(out)
}

/// Relies on `String::from_utf8`: it succeeds exactly on valid UTF-8 and
/// the text it returns decodes those bytes.
#[verifier::external_body]
pub fn bytes_to_string(bytes: Vec<u8>) -> (r: Result<String, String>)
    ensures
        r is Ok <==> vstd::utf8::valid_utf8(bytes@),
        r is Ok ==> r->Ok_0@ == vstd::utf8::decode_utf8(bytes@),
{
    match String::from_utf8(bytes) {
        Ok(s) => Ok(s),
        Err(e) => Err(format!("{}", e)),
    }
}

} // verus!
