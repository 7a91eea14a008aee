//! What a build says of itself: the target it was made for and the revision
//! it was made from, each as stamped at build time or `unknown`.

use vstd::prelude::*;
use vstd::string::StringSliceAdditionalSpecFns;
use vstd::utf8::{decode_utf8, encode_utf8, is_char_boundary};

verus! {

/// A stamp as it reads: the stamp, or `unknown` where none was made.
pub open spec fn stamp_text(stamp: Option<&'static str>) -> Seq<char> {
    match stamp {
        Some(s) => s@,
        None => "unknown"@,
    }
}

/// The target that the build was made for.
pub fn build_target(stamp: Option<&'static str>) -> (r: &'static str)
    ensures
        r@ == stamp_text(stamp),
{
    match stamp {
        Some(s) => s,
        None => "unknown",
    }
}

/// The revision that the build was made from.
pub fn git_sha(stamp: Option<&'static str>) -> (r: &'static str)
    ensures
        r@ == stamp_text(stamp),
{
    match stamp {
        Some(s) => s,
        None => "unknown",
    }
}

/// A revision cut short: the text that its first seven bytes give, where it
/// has seven bytes and they end with a character; else the revision whole.
pub open spec fn short_sha_text(sha: Seq<char>) -> Seq<char> {
    let bytes = encode_utf8(sha);
    if bytes.len() >= 7 && is_char_boundary(bytes, 7) {
        decode_utf8(bytes.subrange(0, 7))
    } else {
        sha
    }
}

/// Cuts a revision short.
pub fn short_sha(sha: &str) -> (r: &str)
    ensures
        r@ == short_sha_text(sha@),
{
    if sha.as_bytes().len() >= 7 && sha.is_char_boundary(7) {
        let (head, _) = sha.split_at(7);
        proof {
            vstd::utf8::encode_utf8_decode_utf8(head@);
        }
        head
    } else {
        sha
    }
}

} // verus!
