//! Source-repository URL handling: normalizing a URL for cloning and
//! splitting it into owner and repository name.

use vstd::prelude::*;
use crate::strings::{ends_with, has_prefix, has_suffix, split_at_char, split_str_at_char,
    starts_with};

verus! {

/// `s` with every leading repetition of `p` removed.
pub open spec fn strip_prefix_all(s: Seq<char>, p: Seq<char>) -> Seq<char>
    decreases s.len(),
{
    if p.len() > 0 && has_prefix(s, p) {
        strip_prefix_all(s.skip(p.len() as int), p)
    } else {
        s
    }
}

/// `s` with every trailing repetition of `p` removed.
pub open spec fn strip_suffix_all(s: Seq<char>, p: Seq<char>) -> Seq<char>
    decreases s.len(),
{
    if p.len() > 0 && has_suffix(s, p) {
        strip_suffix_all(s.take(s.len() - p.len()), p)
    } else {
        s
    }
}

/// Removes every leading repetition of `p` from `s`.
fn strip_prefix_all_exec(s: &str, p: &str) -> (r: String)
    requires
        p@.len() > 0,
    ensures
        r@ == strip_prefix_all(s@, p@),
    decreases s@.len(),
{
    if starts_with(s, p) {
        let slen = s.unicode_len();
        let plen = p.unicode_len();
        let rest = s.substring_char(plen, slen);
        proof {
            assert(rest@ == s@.skip(p@.len() as int));
        }
        strip_prefix_all_exec(rest, p)
    } else {
        s.to_owned()
    }
}

/// Removes every trailing repetition of `p` from `s`.
fn strip_suffix_all_exec(s: &str, p: &str) -> (r: String)
    requires
        p@.len() > 0,
    ensures
        r@ == strip_suffix_all(s@, p@),
    decreases s@.len(),
{
    if ends_with(s, p) {
        let slen = s.unicode_len();
        let plen = p.unicode_len();
        let rest = s.substring_char(0, slen - plen);
        proof {
            assert(rest@ == s@.take(s@.len() - p@.len()));
        }
        strip_suffix_all_exec(rest, p)
    } else {
        s.to_owned()
    }
}

/// The owner/repository form of a source URL: scheme, host prefix and a
/// trailing `.git` are stripped, and the first two `/`-separated parts
/// are the owner and the repository name.
pub open spec fn github_url_parts(url: Seq<char>) -> Seq<Seq<char>> {
    let u1 = strip_prefix_all(url, "https://"@);
    let u2 = strip_prefix_all(u1, "http://"@);
    let u3 = strip_prefix_all(u2, "github.com/"@);
    let u4 = strip_suffix_all(u3, ".git"@);
    split_at_char(u4, '/')
}

/// Splits a source URL into owner and repository name; a URL without
/// both parts is rejected and handed back.
pub fn parse_github_url(url: &str) -> (r: Result<(String, String), String>)
    ensures
        github_url_parts(url@).len() >= 2 ==> (r matches Ok(p) && p.0@ == github_url_parts(
            url@,
        )[0] && p.1@ == github_url_parts(url@)[1]),
        github_url_parts(url@).len() < 2 ==> (r matches Err(e) && e@ == url@),
{
    proof {
        reveal_strlit("https://");
        reveal_strlit("http://");
        reveal_strlit("github.com/");
        reveal_strlit(".git");
        assert("https://"@.len() == 8);
        assert("http://"@.len() == 7);
        assert("github.com/"@.len() == 11);
        assert(".git"@.len() == 4);
    }
    let u1 = strip_prefix_all_exec(url, "https://");
    let u2 = strip_prefix_all_exec(u1.as_str(), "http://");
    let u3 = strip_prefix_all_exec(u2.as_str(), "github.com/");
    let u4 = strip_suffix_all_exec(u3.as_str(), ".git");
    let parts = split_str_at_char(u4.as_str(), '/');
    if parts.len() >= 2 {
        proof {
            assert(parts.deep_view()[0] == parts@[0]@);
            assert(parts.deep_view()[1] == parts@[1]@);
        }
        Ok((parts[0].clone(), parts[1].clone()))
    } else {
        Err(url.to_owned())
    }
}

/// The URL a clone actually uses: a bare `github.com/...` gains the
/// scheme; everything else is used as given.
pub open spec fn normalized_clone_url(url: Seq<char>) -> Seq<char> {
    if has_prefix(url, "https://github.com/"@) {
        url
    } else if has_prefix(url, "github.com/"@) {
        "https://"@ + url
    } else {
        url
    }
}

/// Normalizes a source URL for cloning.
pub fn normalize_clone_url(url: &str) -> (r: String)
    ensures
        r@ == normalized_clone_url(url@),
{
    if starts_with(url, "https://github.com/") {
        url.to_owned()
    } else if starts_with(url, "github.com/") {
        let mut out = "https://".to_owned();
        out.append(url);
        out
    } else {
        url.to_owned()
    }
}

} // verus!
