//! The version line.

use vstd::prelude::*;

verus! {

/// The version line: the package version, the build date and the short
/// commit hash, separated by single spaces.
pub fn version_string(version: &str, build_date: &str, git_hash: &str) -> (r: String)
    ensures
        r@ == version@ + " "@ + build_date@ + " "@ + git_hash@,
{
    let mut r = String::from_str(version);
    r.append(" ");
    r.append(build_date);
    r.append(" ");
    r.append(git_hash);
    r
}

/// A part of the version line: not empty, and free of spaces and newlines.
pub open spec fn plain_part(s: Seq<char>) -> bool {
    s.len() > 0 && forall|i: int| 0 <= i < s.len() ==> #[trigger] s[i] != ' ' && s[i] != '\n'
}

/// When its three parts are plain, the version line splits at spaces into
/// exactly those three non-empty parts, and holds no newline.
pub proof fn lemma_version_line_parts(version: Seq<char>, build_date: Seq<char>, git_hash: Seq<char>)
    requires
        plain_part(version),
        plain_part(build_date),
        plain_part(git_hash),
    ensures
        ({
            let line = version + " "@ + build_date + " "@ + git_hash;
            let a = version.len() as int;
            let b = a + 1 + build_date.len();
            &&& forall|i: int| 0 <= i < line.len() ==> (#[trigger] line[i] == ' ' <==> (i == a || i == b))
            &&& forall|i: int| 0 <= i < line.len() ==> #[trigger] line[i] != '\n'
            &&& line.subrange(0, a) == version
            &&& line.subrange(a + 1, b) == build_date
            &&& line.subrange(b + 1, line.len() as int) == git_hash
        }),
{
    reveal_strlit(" ");
    let line = version + " "@ + build_date + " "@ + git_hash;
    let a = version.len() as int;
    let b = a + 1 + build_date.len();
    assert forall|i: int| 0 <= i < line.len() implies (#[trigger] line[i] == ' ' <==> (i == a || i
        == b)) && line[i] != '\n' by {
        if i < a {
            assert(line[i] == version[i]);
        } else if i == a {
            assert(line[i] == ' ');
        } else if i < b {
            assert(line[i] == build_date[i - a - 1]);
        } else if i == b {
            assert(line[i] == ' ');
        } else {
            assert(line[i] == git_hash[i - b - 1]);
        }
    }
    assert(line.subrange(0, a) =~= version);
    assert(line.subrange(a + 1, b) =~= build_date);
    assert(line.subrange(b + 1, line.len() as int) =~= git_hash);
}

} // verus!
