use vstd::prelude::*;
use vstd::string::StrSliceExecFns;
use crate::text::{chars_of, concat_text, ends_with, ends_with_seq, lower_of, lowercase};

verus! {

/// A name that starts with `.`, other than `.env`.
pub open spec fn hidden_name(n: Seq<char>) -> bool {
    n.len() > 0 && n[0] == '.' && n != ".env"@
}

/// A name on the fixed list of tool and build directories that scans skip.
pub open spec fn ignored_name(n: Seq<char>) -> bool {
    ||| n == ".git"@
    ||| n == ".vscode"@
    ||| n == "node_modules"@
    ||| n == "vendor"@
    ||| n == "__pycache__"@
    ||| n == ".idea"@
    ||| n == "target"@
    ||| n == "dist"@
    ||| n == "build"@
    ||| n == "coverage"@
    ||| n == ".next"@
    ||| n == ".nuxt"@
    ||| n == "storage"@
}

/// A directory entry of this name is kept by a scan.
pub open spec fn entry_admitted(n: Seq<char>) -> bool {
    !hidden_name(n) && !ignored_name(n)
}

/// A file of this name is kept by a scan: it is admitted as an entry and is
/// not the default export file.
pub open spec fn file_admitted(n: Seq<char>) -> bool {
    entry_admitted(n) && n != "full_code.txt"@
}

/// Index of the last `.` in `n`, or -1.
pub open spec fn last_dot(n: Seq<char>) -> int
    decreases n.len(),
{
    if n.len() == 0 {
        -1
    } else if n.last() == '.' {
        n.len() - 1
    } else {
        last_dot(n.drop_last())
    }
}

/// The extension of a file name: what follows its last `.`, where that dot
/// is not the name's first character; empty when there is none.
pub open spec fn extension_part(n: Seq<char>) -> Seq<char> {
    if last_dot(n) <= 0 {
        Seq::empty()
    } else {
        n.subrange(last_dot(n) + 1, n.len() as int)
    }
}

/// The extension recorded for a file: `blade.php` for a name that ends in
/// `.blade.php` in any case, else the lower-case extension.
pub open spec fn extension_of(name: Seq<char>) -> Seq<char> {
    if ends_with_seq(lower_of(name), ".blade.php"@) {
        "blade.php"@
    } else {
        lower_of(extension_part(name))
    }
}

/// A path below the root: `name` itself at the top, else `prefix/name`.
pub open spec fn rel_join(prefix: Seq<char>, name: Seq<char>) -> Seq<char> {
    if prefix.len() == 0 {
        name
    } else {
        prefix + "/"@ + name
    }
}

fn same_text(a: &String, b: &str) -> (r: bool)
    ensures
        r == (a@ == b@),
{
    *a == b.to_owned()
}

/// Whether `name` is on the list of skipped directories.
pub fn is_ignored(name: &String) -> (r: bool)
    ensures
        r == ignored_name(name@),
{
    same_text(name, ".git") || same_text(name, ".vscode") || same_text(name, "node_modules")
        || same_text(name, "vendor") || same_text(name, "__pycache__") || same_text(name, ".idea")
        || same_text(name, "target") || same_text(name, "dist") || same_text(name, "build")
        || same_text(name, "coverage") || same_text(name, ".next") || same_text(name, ".nuxt")
        || same_text(name, "storage")
}

/// Whether a directory entry named `name` is kept by a scan.
pub fn is_admitted_entry(name: &String) -> (r: bool)
    ensures
        r == entry_admitted(name@),
{
    let hidden = !name.as_str().is_empty() && name.as_str().get_char(0) == '.' && !same_text(name, ".env");
    !hidden && !is_ignored(name)
}

/// Whether a file named `name` is kept by a scan.
pub fn is_admitted_file(name: &String) -> (r: bool)
    ensures
        r == file_admitted(name@),
{
    is_admitted_entry(name) && !same_text(name, crate::export::DEFAULT_OUTPUT_FILENAME)
}

/// The extension recorded for a file named `name`.
pub fn file_extension(name: &str) -> (r: String)
    ensures
        r@ == extension_of(name@),
{
    let lower = lowercase(name);
    let lower_chars = chars_of(lower.as_str());
    let blade = chars_of(".blade.php");
    if ends_with(&lower_chars, &blade) {
        return "blade.php".to_owned();
    }
    let cs = chars_of(name);
    let mut k: usize = cs.len();
    assert(cs@.take(cs@.len() as int) =~= cs@);
    while k > 0 && cs[k - 1] != '.'
        invariant
            k <= cs@.len(),
            last_dot(cs@) == last_dot(cs@.take(k as int)),
        decreases k,
    {
        proof {
            assert(cs@.take(k as int).drop_last() =~= cs@.take(k - 1));
        }
        k = k - 1;
    }
    proof {
        assert(cs@.take(cs@.len() as int) =~= cs@);
        if k > 0 {
            assert(cs@.take(k as int).last() == '.');
        } else {
            assert(cs@.take(0) =~= Seq::<char>::empty());
        }
    }
    if k <= 1 {
        let empty = lowercase("");
        proof {
            reveal_strlit("");
            assert(""@ =~= Seq::<char>::empty());
            assert(extension_part(name@) =~= Seq::<char>::empty());
        }
        return empty;
    }
    let ext = name.substring_char(k, cs.len());
    lowercase(ext)
}

/// The path below the root of the entry `name` in the directory at `prefix`.
pub fn join_rel(prefix: &String, name: &String) -> (r: String)
    ensures
        r@ == rel_join(prefix@, name@),
{
    if prefix.as_str().is_empty() {
        name.clone()
    } else {
        let with_sep = concat_text(prefix.as_str(), "/");
        concat_text(with_sep.as_str(), name.as_str())
    }
}

} // verus!
