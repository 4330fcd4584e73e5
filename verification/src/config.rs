//! Runtime configuration: the image pull policy and the decision it
//! induces on each pull request.

use vstd::prelude::*;

verus! {

/// When to pull an image from its registry.
#[derive(Clone, Copy, Debug, PartialEq, Eq, Structural)]
pub enum ImagePullPolicy {
    /// Always pull, even when a local copy exists.
    Always,
    /// Pull only when no local copy exists.
    IfNotPresent,
}

impl Default for ImagePullPolicy {
    fn default() -> (r: Self)
        ensures
            r == ImagePullPolicy::IfNotPresent,
    {
        ImagePullPolicy::IfNotPresent
    }
}

/// Lowers the ASCII letters `A`..`Z`; leaves every other character
/// unchanged.
pub open spec fn ascii_lower_char(c: char) -> char {
    if c == 'A' {
        'a'
    } else if c == 'B' {
        'b'
    } else if c == 'C' {
        'c'
    } else if c == 'D' {
        'd'
    } else if c == 'E' {
        'e'
    } else if c == 'F' {
        'f'
    } else if c == 'G' {
        'g'
    } else if c == 'H' {
        'h'
    } else if c == 'I' {
        'i'
    } else if c == 'J' {
        'j'
    } else if c == 'K' {
        'k'
    } else if c == 'L' {
        'l'
    } else if c == 'M' {
        'm'
    } else if c == 'N' {
        'n'
    } else if c == 'O' {
        'o'
    } else if c == 'P' {
        'p'
    } else if c == 'Q' {
        'q'
    } else if c == 'R' {
        'r'
    } else if c == 'S' {
        's'
    } else if c == 'T' {
        't'
    } else if c == 'U' {
        'u'
    } else if c == 'V' {
        'v'
    } else if c == 'W' {
        'w'
    } else if c == 'X' {
        'x'
    } else if c == 'Y' {
        'y'
    } else if c == 'Z' {
        'z'
    } else {
        c
    }
}

/// The ASCII-lowercase form of `s`.
pub open spec fn ascii_lower(s: Seq<char>) -> Seq<char> {
    s.map_values(|c: char| ascii_lower_char(c))
}

/// Executable form of [`ascii_lower_char`].
fn lower_char(c: char) -> (r: char)
    ensures
        r == ascii_lower_char(c),
{
    match c {
        'A' => 'a',
        'B' => 'b',
        'C' => 'c',
        'D' => 'd',
        'E' => 'e',
        'F' => 'f',
        'G' => 'g',
        'H' => 'h',
        'I' => 'i',
        'J' => 'j',
        'K' => 'k',
        'L' => 'l',
        'M' => 'm',
        'N' => 'n',
        'O' => 'o',
        'P' => 'p',
        'Q' => 'q',
        'R' => 'r',
        'S' => 's',
        'T' => 't',
        'U' => 'u',
        'V' => 'v',
        'W' => 'w',
        'X' => 'x',
        'Y' => 'y',
        'Z' => 'z',
        _ => c,
    }
}

/// Whether the ASCII-lowercase form of `s` equals `lower`, which callers
/// pass already lowercased.
fn matches_lowered(s: &str, lower: &str) -> (r: bool)
    ensures
        r == (ascii_lower(s@) == lower@),
{
    let slen = s.unicode_len();
    let llen = lower.unicode_len();
    if slen != llen {
        assert(ascii_lower(s@).len() == s@.len());
        return false;
    }
    let mut i: usize = 0;
    while i < slen
        invariant
            0 <= i <= slen,
            slen == s@.len(),
            slen == lower@.len(),
            forall|j: int| 0 <= j < i ==> ascii_lower_char(s@[j]) == lower@[j],
        decreases slen - i,
    {
        if lower_char(s.get_char(i)) != lower.get_char(i) {
            assert(ascii_lower(s@)[i as int] != lower@[i as int]);
            return false;
        }
        i += 1;
    }
    proof {
        assert(ascii_lower(s@) =~= lower@);
    }
    true
}

impl ImagePullPolicy {
    /// Parses a policy name, ASCII case-insensitively: `always`,
    /// `ifnotpresent` or `if_not_present`. Returns the offending input
    /// otherwise.
    pub fn from_str(s: &str) -> (r: Result<Self, String>)
        ensures
            ascii_lower(s@) == "always"@ ==> r == Result::<Self, String>::Ok(
                ImagePullPolicy::Always,
            ),
            (ascii_lower(s@) == "ifnotpresent"@ || ascii_lower(s@) == "if_not_present"@) ==> r
                == Result::<Self, String>::Ok(ImagePullPolicy::IfNotPresent),
            (ascii_lower(s@) != "always"@ && ascii_lower(s@) != "ifnotpresent"@ && ascii_lower(s@)
                != "if_not_present"@) ==> r is Err && r->Err_0@ == s@,
    {
        proof {
            reveal_strlit("always");
            reveal_strlit("ifnotpresent");
            reveal_strlit("if_not_present");
        }
        if matches_lowered(s, "always") {
            proof {
                assert("always"@.len() == 6);
                assert("ifnotpresent"@.len() == 12);
                assert("if_not_present"@.len() == 14);
            }
            Ok(ImagePullPolicy::Always)
        } else if matches_lowered(s, "ifnotpresent") || matches_lowered(s, "if_not_present") {
            Ok(ImagePullPolicy::IfNotPresent)
        } else {
            Err(s.to_owned())
        }
    }

    /// Whether an image must actually be pulled, given whether a local
    /// copy exists: `Always` always pulls, `IfNotPresent` pulls exactly
    /// when the image is absent locally.
    pub fn requires_pull(&self, exists_locally: bool) -> (r: bool)
        ensures
            r == (self is Always || !exists_locally),
    {
        match self {
            ImagePullPolicy::Always => true,
            ImagePullPolicy::IfNotPresent => !exists_locally,
        }
    }
}

/// Application configuration, constructed once at startup and passed into
/// the engine; the engine itself never consults the environment.
#[derive(Clone, Copy, Debug)]
pub struct Config {
    pub image_pull_policy: ImagePullPolicy,
}

impl Default for Config {
    fn default() -> (r: Self)
        ensures
            r.image_pull_policy == ImagePullPolicy::IfNotPresent,
    {
        Config { image_pull_policy: ImagePullPolicy::IfNotPresent }
    }
}

impl Config {
    /// The default configuration.
    pub fn new() -> (r: Self)
        ensures
            r.image_pull_policy == ImagePullPolicy::IfNotPresent,
    {
        Config { image_pull_policy: ImagePullPolicy::IfNotPresent }
    }
}

} // verus!
