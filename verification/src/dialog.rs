//! Data shapes for the dialog-driven workflows, and the path
//! normalisation applied to what the OS pickers hand back.

use vstd::prelude::*;
use vstd::string::StrSliceExecFns;
use crate::strutil::{spec_starts_with, str_starts_with};
use crate::tree::FileTreeNode;

verus! {

/// What the open-file workflow delivers to the UI.
#[derive(Debug, Clone, PartialEq)]
pub struct OpenedFileData {
    pub path: String,
    pub content: String,
    pub name: String,
}

/// What the open-folder workflow delivers to the UI: the folder and its
/// built tree.
#[derive(Debug, Clone, PartialEq)]
pub struct FolderData {
    pub path: String,
    pub tree: Vec<FileTreeNode>,
}

/// What the save-file workflow delivers to the UI.
#[derive(Debug, Clone, PartialEq)]
pub struct FileSavedData {
    pub path: String,
    pub name: String,
}

/// The characters of `s` after its last `/`; the whole of `s` where it
/// has none.
pub open spec fn spec_after_last_sep(s: Seq<char>) -> Seq<char>
    decreases s.len(),
{
    if s.len() == 0 {
        Seq::empty()
    } else if s.last() == '/' {
        Seq::empty()
    } else {
        spec_after_last_sep(s.drop_last()).push(s.last())
    }
}

/// `s` with any trailing separators removed.
pub open spec fn spec_strip_trailing_seps(s: Seq<char>) -> Seq<char>
    decreases s.len(),
{
    if s.len() > 0 && s.last() == '/' {
        spec_strip_trailing_seps(s.drop_last())
    } else {
        s
    }
}

/// What `file_basename` returns: the last path component, trailing
/// separators ignored, or `untitled` where no component remains.
pub open spec fn spec_file_basename(s: Seq<char>) -> Seq<char> {
    if spec_after_last_sep(spec_strip_trailing_seps(s)).len() == 0 {
        "untitled"@
    } else {
        spec_after_last_sep(spec_strip_trailing_seps(s))
    }
}

/// The prefix up to position `e` is the path without its trailing
/// separators, when only separators stand at and beyond `e` and none
/// stands just before.
proof fn lemma_strip_trailing_seps(s: Seq<char>, e: int)
    requires
        0 <= e <= s.len(),
        forall|j: int| e <= j < s.len() ==> s[j] == '/',
        e > 0 ==> s[e - 1] != '/',
    ensures
        spec_strip_trailing_seps(s) == s.take(e),
    decreases s.len(),
{
    if s.len() == 0 {
        assert(s.take(0) =~= s);
    } else if e == s.len() {
        assert(s.last() != '/');
        assert(s.take(e) =~= s);
    } else {
        assert(s.last() == s[s.len() - 1]);
        assert(s.last() == '/');
        lemma_strip_trailing_seps(s.drop_last(), e);
        assert(s.drop_last().take(e) =~= s.take(e));
    }
}

/// The suffix after position `i` is the part after the last separator,
/// when no separator stands at or beyond `i` and one stands just before.
proof fn lemma_after_last_sep(s: Seq<char>, i: int)
    requires
        0 <= i <= s.len(),
        forall|j: int| i <= j < s.len() ==> s[j] != '/',
        i > 0 ==> s[i - 1] == '/',
    ensures
        spec_after_last_sep(s) == s.skip(i),
    decreases s.len(),
{
    if s.len() == 0 {
        assert(s.skip(0) =~= Seq::<char>::empty());
    } else if i == s.len() {
        assert(s.last() == '/');
        assert(s.skip(i) =~= Seq::<char>::empty());
    } else {
        assert(s.last() == s[s.len() - 1]);
        assert(s.last() != '/');
        lemma_after_last_sep(s.drop_last(), i);
        assert(s.drop_last().skip(i).push(s.last()) =~= s.skip(i));
    }
}

/// The base name of a `/`-separated path: the last component, with
/// trailing separators ignored, or `untitled` where no component
/// remains (an empty path, or one of separators alone).
pub fn file_basename(path: &str) -> (r: String)
    ensures
        r@ == spec_file_basename(path@),
{
    let n = path.unicode_len();
    let mut e: usize = n;
    while e > 0 && path.get_char(e - 1) == '/'
        invariant
            e <= n,
            n == path@.len(),
            forall|j: int| e <= j < n ==> path@[j] == '/',
        decreases e,
    {
        e -= 1;
    }
    proof {
        lemma_strip_trailing_seps(path@, e as int);
    }
    let mut i: usize = e;
    while i > 0 && path.get_char(i - 1) != '/'
        invariant
            i <= e,
            e <= n,
            n == path@.len(),
            forall|j: int| i <= j < e ==> path@[j] != '/',
        decreases i,
    {
        i -= 1;
    }
    proof {
        let stripped = path@.take(e as int);
        assert(forall|j: int| i <= j < stripped.len() ==> stripped[j] != '/');
        lemma_after_last_sep(stripped, i as int);
    }
    if i == e {
        let r = "untitled";
        r.to_owned()
    } else {
        let name = path.substring_char(i, e);
        proof {
            assert(name@ =~= path@.take(e as int).skip(i as int));
        }
        name.to_owned()
    }
}

/// The file name offered by the save dialog: the caller's suggestion,
/// or `untitled.txt` where none was given.
pub fn default_save_name(suggested: String) -> (r: String)
    ensures
        suggested@.len() == 0 ==> r@ == "untitled.txt"@,
        suggested@.len() > 0 ==> r == suggested,
{
    if suggested.as_str().is_empty() {
        let r = "untitled.txt";
        r.to_owned()
    } else {
        suggested
    }
}

/// The normalised form of a dialog-supplied path: a `file://` scheme
/// prefix is removed, anything else is kept as it is.
pub open spec fn spec_clean_file_path(s: Seq<char>) -> Seq<char> {
    if spec_starts_with(s, "file://"@) {
        s.skip("file://"@.len() as int)
    } else {
        s
    }
}

/// Strips the `file://` scheme prefix from a path if present.
pub fn clean_file_path(path: &str) -> (r: &str)
    ensures
        r@ == spec_clean_file_path(path@),
{
    proof {
        reveal_strlit("file://");
    }
    if str_starts_with(path, "file://") {
        let n = path.unicode_len();
        let r = path.substring_char(7, n);
        proof {
            assert(r@ =~= path@.skip(7));
        }
        r
    } else {
        path
    }
}

} // verus!
