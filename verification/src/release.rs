//! Guards for fetching upstream release artifacts.
//!
//! NodeDesk downloads and then runs third-party installers. HTTPS protects
//! the connection, not the choice of artifact: the download URL comes out of
//! a JSON response. Two things are checked before anything is written or
//! run: that the asset comes from the expected GitHub repository, and that
//! its name is a plain filename.

use vstd::prelude::*;
use crate::text::{chars_of, contains_char, contains_chars, has_substring, starts_with_chars};

verus! {

/// The URL prefix of release assets of `owner/repo` on GitHub.
pub open spec fn asset_prefix(owner: Seq<char>, repo: Seq<char>) -> Seq<char> {
    "https://github.com/"@ + owner + "/"@ + repo + "/releases/download/"@
}

/// Confirms a release asset URL belongs to `owner/repo` on GitHub.
pub fn verify_asset_url(url: &str, owner: &str, repo: &str) -> (res: Result<(), String>)
    ensures
        res is Ok <==> asset_prefix(owner@, repo@).is_prefix_of(url@),
        res matches Err(m) ==> m@ == "refusing to download "@ + url@ + ": not an official "@
            + owner@ + "/"@ + repo@ + " release asset"@,
{
    let mut expected = "https://github.com/".to_owned();
    expected.append(owner);
    expected.append("/");
    expected.append(repo);
    expected.append("/releases/download/");
    let url_chars = chars_of(url);
    let expected_chars = chars_of(expected.as_str());
    if starts_with_chars(&url_chars, &expected_chars) {
        return Ok(());
    }
    let mut msg = "refusing to download ".to_owned();
    msg.append(url);
    msg.append(": not an official ");
    msg.append(owner);
    msg.append("/");
    msg.append(repo);
    msg.append(" release asset");
    Err(msg)
}

/// A name that cannot leave its directory: not empty, and without `/`,
/// `\`, `..`, `:` or NUL.
pub open spec fn plain_file_name(name: Seq<char>) -> bool {
    &&& name.len() > 0
    &&& !name.contains('/')
    &&& !name.contains('\\')
    &&& !has_substring(name, ".."@)
    &&& !name.contains(':')
    &&& !name.contains('\0')
}

/// Confirms an asset name is a bare filename, safe to join onto a directory.
pub fn safe_asset_name(name: &str) -> (res: Result<&str, String>)
    ensures
        res is Ok <==> plain_file_name(name@),
        res matches Ok(n) ==> n == name,
        res matches Err(m) ==> m@ == "refusing to use unsafe asset name: "@ + name@,
{
    let chars = chars_of(name);
    let dots: Vec<char> = vec!['.', '.'];
    proof {
        reveal_strlit("..");
        assert(dots@ =~= ".."@);
    }
    let bad = chars.len() == 0 || contains_char(&chars, '/') || contains_char(&chars, '\\')
        || contains_chars(&chars, &dots) || contains_char(&chars, ':') || contains_char(&chars, '\0');
    if bad {
        let mut msg = "refusing to use unsafe asset name: ".to_owned();
        msg.append(name);
        return Err(msg);
    }
    Ok(name)
}

} // verus!
