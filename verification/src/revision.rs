//! Revision identifiers: canonical content-hash form, resolution of
//! abbreviated identifiers against the version-control tool's answer, and
//! the artifact and archive paths a revision determines.

use vstd::prelude::*;
use crate::strutil::str_chars;

verus! {

/// A lowercase hexadecimal digit.
pub open spec fn is_hex_digit(c: char) -> bool {
    ('0' <= c && c <= '9') || ('a' <= c && c <= 'f')
}

/// A canonical revision identifier: a full content hash of exactly forty
/// lowercase hexadecimal digits.
pub open spec fn is_canonical_id(s: Seq<char>) -> bool {
    s.len() == 40 && forall|i: int| 0 <= i < s.len() ==> is_hex_digit(#[trigger] s[i])
}

/// Resolution of a revision identifier failed: the tool could not resolve
/// it, or what came back is no canonical identifier.
#[derive(Debug, PartialEq, Eq, Structural)]
pub struct RevisionResolutionError;

/// Decides whether `s` is a canonical revision identifier.
pub fn is_canonical(s: &str) -> (r: bool)
    ensures
        r == is_canonical_id(s@),
{
    let cs = str_chars(s);
    let n = cs.len();
    if n != 40 {
        return false;
    }
    let mut i: usize = 0;
    while i < n
        invariant
            cs@ == s@,
            n == s@.len(),
            i <= n,
            forall|j: int| 0 <= j < i ==> is_hex_digit(#[trigger] s@[j]),
        decreases n - i,
    {
        let c = cs[i];
        if !(('0' <= c && c <= '9') || ('a' <= c && c <= 'f')) {
            return false;
        }
        i = i + 1;
    }
    true
}

/// The canonical identifier of a revision, given the version-control
/// tool's answer for it. An already-canonical identifier resolves to
/// itself, whatever the tool answered; anything else resolves to the
/// tool's answer exactly when that answer is canonical.
pub fn resolve_revision(input: &str, lookup: Option<&String>) -> (r: Result<
    String,
    RevisionResolutionError,
>)
    ensures
        is_canonical_id(input@) ==> (r matches Ok(o) && o@ == input@),
        !is_canonical_id(input@) ==> match lookup {
            Some(h) => if is_canonical_id(h@) {
                r matches Ok(o) && o@ == h@
            } else {
                r matches Err(e) && e == RevisionResolutionError
            },
            None => (r matches Err(e) && e == RevisionResolutionError),
        },
{
    if is_canonical(input) {
        return Ok(input.to_owned());
    }
    match lookup {
        Some(h) => {
            if is_canonical(h.as_str()) {
                Ok(h.clone())
            } else {
                Err(RevisionResolutionError)
            }
        },
        None => Err(RevisionResolutionError),
    }
}

/// The twelve-character prefix of a canonical identifier that build
/// outputs are keyed by.
pub open spec fn short_id(commit: Seq<char>) -> Seq<char> {
    commit.subrange(0, 12)
}

/// The short prefix of a revision identifier.
pub fn short_commit(commit: &str) -> (r: String)
    requires
        commit@.len() >= 12,
    ensures
        r@ == short_id(commit@),
{
    let r = commit.substring_char(0, 12);
    r.to_owned()
}

/// The path of the archive the build tool leaves for a revision.
pub open spec fn archive_path_spec(src_dir: Seq<char>, commit: Seq<char>) -> Seq<char> {
    src_dir + "/guix-build-"@ + short_id(commit) + "/output/x86_64-linux-gnu/bitcoin-"@
        + short_id(commit) + "-x86_64-linux-gnu.tar.gz"@
}

/// The directory a revision's archive extracts into, beside the sources.
pub open spec fn scratch_dir_spec(src_dir: Seq<char>, commit: Seq<char>) -> Seq<char> {
    src_dir + "/bitcoin-"@ + short_id(commit)
}

/// The path of the freshly extracted binary for a revision.
pub open spec fn extracted_binary_spec(src_dir: Seq<char>, commit: Seq<char>) -> Seq<char> {
    scratch_dir_spec(src_dir, commit) + "/bin/bitcoind"@
}

/// The path the binary is relocated to, keyed by the full identifier.
pub open spec fn artifact_path_spec(out_dir: Seq<char>, commit: Seq<char>) -> Seq<char> {
    out_dir + "/bitcoind-"@ + commit
}

/// The archive path for a revision.
pub fn archive_path(src_dir: &str, commit: &str) -> (r: String)
    requires
        commit@.len() >= 12,
    ensures
        r@ == archive_path_spec(src_dir@, commit@),
{
    let short = short_commit(commit);
    let mut r = src_dir.to_owned();
    r.append("/guix-build-");
    r.append(short.as_str());
    r.append("/output/x86_64-linux-gnu/bitcoin-");
    r.append(short.as_str());
    r.append("-x86_64-linux-gnu.tar.gz");
    proof {
        assert(r@ =~= archive_path_spec(src_dir@, commit@));
    }
    r
}

/// The extraction scratch directory for a revision.
pub fn scratch_dir(src_dir: &str, commit: &str) -> (r: String)
    requires
        commit@.len() >= 12,
    ensures
        r@ == scratch_dir_spec(src_dir@, commit@),
{
    let short = short_commit(commit);
    let mut r = src_dir.to_owned();
    r.append("/bitcoin-");
    r.append(short.as_str());
    proof {
        assert(r@ =~= scratch_dir_spec(src_dir@, commit@));
    }
    r
}

/// The path of the extracted binary for a revision.
pub fn extracted_binary(src_dir: &str, commit: &str) -> (r: String)
    requires
        commit@.len() >= 12,
    ensures
        r@ == extracted_binary_spec(src_dir@, commit@),
{
    let mut r = scratch_dir(src_dir, commit);
    r.append("/bin/bitcoind");
    proof {
        assert(r@ =~= extracted_binary_spec(src_dir@, commit@));
    }
    r
}

/// The relocated artifact path for a revision.
pub fn artifact_path(out_dir: &str, commit: &str) -> (r: String)
    ensures
        r@ == artifact_path_spec(out_dir@, commit@),
{
    let mut r = out_dir.to_owned();
    r.append("/bitcoind-");
    r.append(commit);
    proof {
        assert(r@ =~= artifact_path_spec(out_dir@, commit@));
    }
    r
}

} // verus!
