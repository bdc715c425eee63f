//! Paths below a directory.

use vstd::prelude::*;

use crate::text;

verus! {

/// A relative path below a directory. The empty path is the directory that
/// relative paths start from.
pub open spec fn below(dir: Seq<char>, part: Seq<char>) -> Seq<char> {
    if dir.len() == 0 || dir.last() == '/' {
        dir + part
    } else {
        dir + seq!['/'] + part
    }
}

/// A relative path below a directory.
pub fn join(dir: &str, part: &str) -> (r: String)
    requires
        part@.len() > 0,
        part@[0] != '/',
    ensures
        r@ == below(dir@, part@),
{
    let mut out: String = dir.to_string();
    let chars = text::chars_of(dir);
    let n = chars.len();
    if n > 0 && chars[n - 1] != '/' {
        out.push('/');
        assert(out@ =~= dir@ + seq!['/']);
    }
    out.append(part);
    out
}

/// Where leftovers of packages are looked for in $HOME.
pub open spec fn leftover_dirs_of(home: Seq<char>) -> Seq<Seq<char>> {
    seq![
        below(home, ".config"@),
        below(home, ".cache"@),
        below(home, ".local/share"@),
        below(home, ".local/state"@),
    ]
}

/// Where leftovers of packages are looked for in $HOME.
pub fn leftover_dirs(home: &str) -> (r: Vec<String>)
    ensures
        text::texts(r@) == leftover_dirs_of(home@),
{
    proof {
        reveal_strlit(".config");
        reveal_strlit(".cache");
        reveal_strlit(".local/share");
        reveal_strlit(".local/state");
    }
    let mut out: Vec<String> = Vec::new();
    out.push(join(home, ".config"));
    out.push(join(home, ".cache"));
    out.push(join(home, ".local/share"));
    out.push(join(home, ".local/state"));
    assert(text::texts(out@) =~= leftover_dirs_of(home@));
    out
}

} // verus!
