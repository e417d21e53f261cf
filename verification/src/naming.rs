//! Deterministic asset naming: display-name sanitization, extension choice,
//! and the file-name and blob-path functions that make ingestion idempotent.

use vstd::prelude::*;
use crate::strutil::str_eq;

verus! {

/// Characters kept by sanitization: ASCII letters, digits, `.`, `-`, `_`
/// and space. Everything else is replaced.
pub open spec fn spec_keep_char(c: char) -> bool {
    ||| ('a' as u32) <= (c as u32) && (c as u32) <= ('z' as u32)
    ||| ('A' as u32) <= (c as u32) && (c as u32) <= ('Z' as u32)
    ||| ('0' as u32) <= (c as u32) && (c as u32) <= ('9' as u32)
    ||| c == '.'
    ||| c == '-'
    ||| c == '_'
    ||| c == ' '
}

/// A kept character stays; any other becomes an underscore.
pub open spec fn spec_sanitize_char(c: char) -> char {
    if spec_keep_char(c) {
        c
    } else {
        '_'
    }
}

/// Sanitization of a display name, character by character.
pub open spec fn spec_sanitize(s: Seq<char>) -> Seq<char> {
    s.map_values(|c: char| spec_sanitize_char(c))
}

/// The file extension for a chosen MIME type; anything unknown gets `.png`.
pub open spec fn spec_extension(m: Seq<char>) -> Seq<char> {
    if m == "image/webp"@ {
        ".webp"@
    } else if m == "image/gif"@ {
        ".gif"@
    } else if m == "image/avif"@ {
        ".avif"@
    } else {
        ".png"@
    }
}

/// The deterministic file name: sanitized display name, underscore, external
/// id, extension. A pure function of those three inputs and nothing else.
pub open spec fn spec_file_name(name: Seq<char>, id: Seq<char>, mime: Seq<char>) -> Seq<char> {
    spec_sanitize(name) + "_"@ + id + spec_extension(mime)
}

/// The blob path of a file within a folder.
pub open spec fn spec_blob_path(folder: Seq<char>, file: Seq<char>) -> Seq<char> {
    folder + "/"@ + file
}

fn keep_char(c: char) -> (r: bool)
    ensures
        r == spec_keep_char(c),
{
    let u = c as u32;
    (u >= 'a' as u32 && u <= 'z' as u32) || (u >= 'A' as u32 && u <= 'Z' as u32) || (u >= '0'
        as u32 && u <= '9' as u32) || c == '.' || c == '-' || c == '_' || c == ' '
}

/// Replaces every character outside `[A-Za-z0-9._- ]` with an underscore.
pub fn sanitize_name(name: &str) -> (r: String)
    ensures
        r@ == spec_sanitize(name@),
{
    let n = name.unicode_len();
    let mut out = String::new();
    let mut i: usize = 0;
    while i < n
        invariant
            n == name@.len(),
            i <= n,
            out@ == spec_sanitize(name@.subrange(0, i as int)),
        decreases n - i,
    {
        let c = name.get_char(i);
        if keep_char(c) {
            out.push(c);
        } else {
            out.push('_');
        }
        proof {
            assert(spec_sanitize(name@.subrange(0, i + 1 as int)) =~= spec_sanitize(
                name@.subrange(0, i as int),
            ).push(spec_sanitize_char(name@[i as int])));
        }
        i += 1;
    }
    proof {
        assert(name@.subrange(0, n as int) =~= name@);
    }
    out
}

/// Maps the chosen MIME type to the stored file extension.
pub fn extension_for_mime(m: &str) -> (r: &'static str)
    ensures
        r@ == spec_extension(m@),
{
    if str_eq(m, "image/webp") {
        ".webp"
    } else if str_eq(m, "image/gif") {
        ".gif"
    } else if str_eq(m, "image/avif") {
        ".avif"
    } else {
        ".png"
    }
}

/// Computes the deterministic file name for an asset.
pub fn file_name_for(name: &str, id: &str, mime: &str) -> (r: String)
    ensures
        r@ == spec_file_name(name@, id@, mime@),
{
    let mut out = sanitize_name(name);
    out.append("_");
    out.append(id);
    out.append(extension_for_mime(mime));
    out
}

/// Joins a folder and a file name into a blob path.
pub fn blob_path(folder: &str, file_name: &str) -> (r: String)
    ensures
        r@ == spec_blob_path(folder@, file_name@),
{
    let mut out = folder.to_owned();
    out.append("/");
    out.append(file_name);
    out
}

/// Naming is deterministic: the file name and blob path depend on the
/// display name, the external id, the chosen MIME type and the folder alone,
/// so reprocessing an identical raw record always yields the identical name
/// and path, and never a duplicate asset.
pub proof fn lemma_naming_deterministic(
    name1: Seq<char>,
    id1: Seq<char>,
    mime1: Seq<char>,
    folder1: Seq<char>,
    name2: Seq<char>,
    id2: Seq<char>,
    mime2: Seq<char>,
    folder2: Seq<char>,
)
    requires
        name1 == name2,
        id1 == id2,
        mime1 == mime2,
        folder1 == folder2,
    ensures
        spec_file_name(name1, id1, mime1) == spec_file_name(name2, id2, mime2),
        spec_blob_path(folder1, spec_file_name(name1, id1, mime1)) == spec_blob_path(
            folder2,
            spec_file_name(name2, id2, mime2),
        ),
{
}

} // verus!
