//! Patching the import line of the configuration file.
//!
//! The configuration is handled as an ordered sequence of text lines. The
//! first line that mentions `import` is replaced by a single-element list
//! assignment naming the new theme path; every other line, and the order
//! and count of the lines, stay as they were. A file without an import
//! line comes back unchanged.

use crate::extract::{lines_view, seq_contains};
use vstd::prelude::*;
use vstd::string::*;

verus! {

/// A line that mentions `import`.
pub open spec fn is_import_line(line: Seq<char>) -> bool {
    seq_contains(line, "import"@)
}

/// The position of the first import line, or `lines.len()` when there is
/// none.
pub open spec fn first_import_index(lines: Seq<Seq<char>>) -> nat
    decreases lines.len(),
{
    if lines.len() == 0 {
        0
    } else if is_import_line(lines[0]) {
        0
    } else {
        1 + first_import_index(lines.drop_first())
    }
}

/// Whether some line mentions `import`.
pub open spec fn has_import_line(lines: Seq<Seq<char>>) -> bool {
    first_import_index(lines) < lines.len()
}

/// The replacement line: `import = ["<path>"]`.
pub open spec fn import_line(path: Seq<char>) -> Seq<char> {
    "import = [\""@ + path + "\"]"@
}

proof fn lemma_first_import_index_at(lines: Seq<Seq<char>>, k: int)
    requires
        0 <= k <= lines.len(),
        forall|i: int| 0 <= i < k ==> !is_import_line(lines[i]),
        k == lines.len() || is_import_line(lines[k]),
    ensures
        first_import_index(lines) == k,
    decreases k,
{
    if k > 0 {
        lemma_first_import_index_at(lines.drop_first(), k - 1);
    }
}

/// The full path of a theme file: the base directory followed by the
/// file's name.
pub fn theme_import_path(base: &str, name: &str) -> (r: String)
    ensures
        r@ == base@ + name@,
{
    let s = String::from_str(base);
    s.concat(name)
}

/// Builds the replacement import line for `path`.
fn build_import_line(path: &str) -> (r: String)
    ensures
        r@ == import_line(path@),
{
    let s = String::from_str("import = [\"");
    let s = s.concat(path);
    let s = s.concat("\"]");
    proof {
        assert(s@ =~= import_line(path@));
    }
    s
}

/// Rewrites the first line that mentions `import` to point at `new_path`;
/// every other line is kept as it was, in its place. Without an import
/// line the result equals the input.
pub fn patch_import_line(lines: &Vec<String>, new_path: &str) -> (res: Vec<String>)
    ensures
        ({
            let lv = lines_view(lines@);
            let rv = lines_view(res@);
            &&& rv.len() == lv.len()
            &&& forall|j: int| 0 <= j < lv.len() && j != first_import_index(lv) ==> rv[j] == lv[j]
            &&& has_import_line(lv) ==> rv[first_import_index(lv) as int] == import_line(new_path@)
        }),
{
    let ghost lv = lines_view(lines@);
    let n = lines.len();
    let mut res: Vec<String> = Vec::new();
    let mut i: usize = 0;
    let mut replaced = false;
    while i < n
        invariant
            i <= n,
            n == lines@.len(),
            lv == lines_view(lines@),
            res@.len() == i,
            replaced ==> first_import_index(lv) < i && res@[first_import_index(lv) as int]@
                == import_line(new_path@),
            forall|j: int| 0 <= j < i && j != first_import_index(lv) ==> res@[j]@ == lv[j],
            !replaced ==> forall|j: int| 0 <= j < i ==> !is_import_line(lv[j]),
        decreases n - i,
    {
        let line = lines[i].as_str();
        proof {
            assert(lv[i as int] == lines@[i as int]@);
        }
        if !replaced && crate::extract::str_contains(line, "import") {
            proof {
                assert(is_import_line(lv[i as int]));
                lemma_first_import_index_at(lv, i as int);
            }
            let newline = build_import_line(new_path);
            res.push(newline);
            proof {
                assert(res@[i as int]@ == import_line(new_path@));
            }
            replaced = true;
        } else {
            let ghost prev = res@;
            res.push(lines[i].clone());
            proof {
                assert(res@ =~= prev.push(res@[i as int]));
                if !replaced {
                    assert(!is_import_line(lv[i as int]));
                } else {
                    assert(res@[first_import_index(lv) as int] == prev[first_import_index(lv) as int]);
                }
            }
        }
        i += 1;
    }
    proof {
        if !replaced {
            lemma_first_import_index_at(lv, n as int);
        }
        assert(lines_view(res@).len() == lv.len());
        assert forall|j: int| 0 <= j < lv.len() && j != first_import_index(lv) implies lines_view(
            res@,
        )[j] == lv[j] by {
            assert(res@[j]@ == lv[j]);
        }
        if has_import_line(lv) {
            assert(lines_view(res@)[first_import_index(lv) as int] == res@[first_import_index(lv) as int]@);
        }
    }
    res
}

/// A patch of lines without an import line changes nothing: what
/// `patch_import_line` ensures pins the whole result to the input then.
pub proof fn lemma_patch_without_import(lines: Seq<Seq<char>>, patched: Seq<Seq<char>>)
    requires
        !has_import_line(lines),
        patched.len() == lines.len(),
        forall|j: int| 0 <= j < lines.len() && j != first_import_index(lines) ==> patched[j]
            == lines[j],
    ensures
        patched =~= lines,
{
}

} // verus!
