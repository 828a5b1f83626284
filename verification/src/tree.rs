//! The workspace directory-tree builder.
//!
//! Given a point-in-time snapshot of a directory's contents, the builder
//! produces the ordered, filtered, depth-limited tree shown in the
//! file-browser panel.  Entries named with a leading `.` or exactly
//! `node_modules` are dropped; directories sort before files and each
//! group is ordered by case-insensitive name; directories more than six
//! levels below the root are silently left unexpanded.  The first failed
//! read anywhere in the walk fails the whole build.
//!
//! The snapshot is handed in by the caller (the I/O layer walks the real
//! filesystem); the builder itself is pure, and its result is pinned
//! exactly by [`spec_build`].  Paths are joined with `/`, and whether an
//! entry counts as a directory is whatever the walk reported (on symlinks
//! that is the platform's default interpretation).

use vstd::prelude::*;
use vstd::string::StrSliceExecFns;
use vstd::string::StringExecFns;
use crate::strutil::{str_eq, lex_le, lex_le_exec};
use crate::casefold::{lower_of, lowercase};

verus! {

/// One node of the finished tree: a file or a directory, with `children`
/// present exactly when the node is a directory.
#[derive(Debug, PartialEq)]
pub struct FileTreeNode {
    pub name: String,
    pub path: String,
    pub is_directory: bool,
    pub children: Option<Vec<FileTreeNode>>,
}

/// What one directory read yielded: its entries, or the description of
/// the error that the read ended with.
#[derive(Debug, PartialEq)]
pub enum DirSnapshot {
    Entries(Vec<EntrySnapshot>),
    Unreadable(String),
}

/// One enumerated entry: a plain file, or a directory together with the
/// snapshot of its own contents (left empty where the walk did not
/// descend).
#[derive(Debug, PartialEq)]
pub enum EntrySnapshot {
    File { name: String },
    Dir { name: String, contents: DirSnapshot },
}

/// A failed build: the directory whose read failed, and the underlying
/// error description.
#[derive(Debug, Clone, PartialEq)]
pub struct TreeError {
    pub path: String,
    pub message: String,
}

/// Ghost image of a [`FileTreeNode`].
pub struct NodeModel {
    pub name: Seq<char>,
    pub path: Seq<char>,
    pub is_directory: bool,
    pub children: Option<Seq<NodeModel>>,
}

/// Ghost image of a [`TreeError`].
pub struct ErrorModel {
    pub path: Seq<char>,
    pub message: Seq<char>,
}

impl View for TreeError {
    type V = ErrorModel;

    open spec fn view(&self) -> ErrorModel {
        ErrorModel { path: self.path@, message: self.message@ }
    }
}

impl Clone for FileTreeNode {
    /// A structurally identical copy of the node.
    fn clone(&self) -> (r: Self)
        ensures
            node_model(r) == node_model(*self),
        decreases self, 1nat,
    {
        broadcast use lemma_nodes_model;

        let children = match &self.children {
            Option::None => Option::None,
            Option::Some(v) => Option::Some(clone_nodes(v)),
        };
        let r = FileTreeNode {
            name: self.name.clone(),
            path: self.path.clone(),
            is_directory: self.is_directory,
            children,
        };
        proof {
            if r.children is Some {
                assert(nodes_model(r.children->Some_0@) =~= nodes_model(
                    self.children->Some_0@,
                ));
            }
        }
        r
    }
}

/// Copies of each node of a list, in order.
fn clone_nodes(v: &Vec<FileTreeNode>) -> (r: Vec<FileTreeNode>)
    ensures
        r@.len() == v@.len(),
        forall|i: int| 0 <= i < v@.len() ==> node_model(#[trigger] r@[i]) == node_model(v@[i]),
    decreases v, 0nat,
{
    let mut out: Vec<FileTreeNode> = Vec::new();
    let n = v.len();
    for i in 0..n
        invariant
            n == v@.len(),
            out@.len() == i,
            forall|k: int| 0 <= k < i ==> node_model(#[trigger] out@[k]) == node_model(v@[k]),
    {
        out.push(v[i].clone());
    }
    out
}

/// The ghost image of a finished node.
pub open spec fn node_model(n: FileTreeNode) -> NodeModel
    decreases n, 1nat,
{
    NodeModel {
        name: n.name@,
        path: n.path@,
        is_directory: n.is_directory,
        children: match n.children {
            Option::None => Option::None,
            Option::Some(v) => Option::Some(nodes_model(v@)),
        },
    }
}

/// The ghost image of a sequence of finished nodes.
pub open spec fn nodes_model(s: Seq<FileTreeNode>) -> Seq<NodeModel>
    decreases s, 0nat,
{
    if s.len() == 0 {
        Seq::empty()
    } else {
        nodes_model(s.drop_last()).push(node_model(s.last()))
    }
}

/// `nodes_model` maps the sequence pointwise.
pub broadcast proof fn lemma_nodes_model(s: Seq<FileTreeNode>)
    ensures
        (#[trigger] nodes_model(s)).len() == s.len(),
        forall|i: int| 0 <= i < s.len() ==> nodes_model(s)[i] == node_model(s[i]),
    decreases s.len(),
{
    if s.len() > 0 {
        lemma_nodes_model(s.drop_last());
    }
}

/// The ghost image of a build result.
pub open spec fn result_model(r: Result<Vec<FileTreeNode>, TreeError>) -> Result<
    Seq<NodeModel>,
    ErrorModel,
> {
    match r {
        Result::Ok(v) => Result::Ok(nodes_model(v@)),
        Result::Err(e) => Result::Err(e@),
    }
}

/// True for entry names the tree never shows: dotfiles and `node_modules`.
pub open spec fn excluded_name(name: Seq<char>) -> bool {
    (name.len() > 0 && name[0] == '.') || name == "node_modules"@
}

/// Decides whether an entry name is excluded from the tree.
pub fn is_excluded_name(name: &str) -> (r: bool)
    ensures
        r == excluded_name(name@),
{
    let n = name.unicode_len();
    if n > 0 && name.get_char(0) == '.' {
        return true;
    }
    str_eq(name, "node_modules")
}

/// The name of a snapshot entry.
pub open spec fn entry_name(e: EntrySnapshot) -> Seq<char> {
    match e {
        EntrySnapshot::File { name } => name@,
        EntrySnapshot::Dir { name, .. } => name@,
    }
}

/// Whether a snapshot entry is a directory.
pub open spec fn entry_is_dir(e: EntrySnapshot) -> bool {
    e is Dir
}

/// Sibling order: directories before files; within a kind, by the
/// case-folded name; folded ties by the raw name.
pub open spec fn entry_le(a: EntrySnapshot, b: EntrySnapshot) -> bool {
    if entry_is_dir(a) != entry_is_dir(b) {
        entry_is_dir(a)
    } else if lower_of(entry_name(a)) != lower_of(entry_name(b)) {
        lex_le(lower_of(entry_name(a)), lower_of(entry_name(b)))
    } else {
        lex_le(entry_name(a), entry_name(b))
    }
}

/// The entries that survive the exclusion filter, in their given order.
pub open spec fn keep_entries(s: Seq<EntrySnapshot>) -> Seq<EntrySnapshot>
    decreases s.len(),
{
    if s.len() == 0 {
        Seq::empty()
    } else {
        let rest = keep_entries(s.drop_last());
        if excluded_name(entry_name(s.last())) {
            rest
        } else {
            rest.push(s.last())
        }
    }
}

/// Insertion of `e` into `s` behind every element that is `entry_le` it.
pub open spec fn insert_entry(e: EntrySnapshot, s: Seq<EntrySnapshot>) -> Seq<EntrySnapshot>
    decreases s.len(),
{
    if s.len() == 0 {
        seq![e]
    } else if entry_le(s[0], e) {
        seq![s[0]] + insert_entry(e, s.drop_first())
    } else {
        seq![e] + s
    }
}

/// Insertion sort of the entries under `entry_le`.
pub open spec fn sort_entries(s: Seq<EntrySnapshot>) -> Seq<EntrySnapshot>
    decreases s.len(),
{
    if s.len() == 0 {
        Seq::empty()
    } else {
        insert_entry(s.last(), sort_entries(s.drop_last()))
    }
}

/// A child's path: the parent's path, a separator, and the child's name.
pub open spec fn join_path(parent: Seq<char>, name: Seq<char>) -> Seq<char> {
    parent + seq!['/'] + name
}

/// The node built for a file entry.
pub open spec fn file_node(parent: Seq<char>, name: Seq<char>) -> NodeModel {
    NodeModel {
        name: name,
        path: join_path(parent, name),
        is_directory: false,
        children: Option::None,
    }
}

/// The node built for a directory entry with the given children.
pub open spec fn dir_node(parent: Seq<char>, name: Seq<char>, children: Seq<NodeModel>) -> NodeModel {
    NodeModel {
        name: name,
        path: join_path(parent, name),
        is_directory: true,
        children: Option::Some(children),
    }
}

/// How many further levels the builder may expand below `depth`.
pub open spec fn depth_fuel(depth: int) -> nat {
    if depth > 5 {
        0
    } else {
        (6 - depth) as nat
    }
}

/// What the builder returns for the directory `snap` standing at `parent`
/// with the given recursion depth: the filtered entries in sibling order,
/// each directory expanded recursively, or the first error in that order.
pub open spec fn spec_build(parent: Seq<char>, snap: DirSnapshot, depth: int) -> Result<
    Seq<NodeModel>,
    ErrorModel,
>
    decreases depth_fuel(depth), 1nat, 0nat,
{
    if depth > 5 {
        Result::Ok(Seq::empty())
    } else {
        match snap {
            DirSnapshot::Unreadable(msg) => Result::Err(
                ErrorModel { path: parent, message: msg@ },
            ),
            DirSnapshot::Entries(v) => spec_build_nodes(
                parent,
                sort_entries(keep_entries(v@)),
                depth,
            ),
        }
    }
}

/// The nodes built for the already filtered and sorted entries `es`.
pub open spec fn spec_build_nodes(parent: Seq<char>, es: Seq<EntrySnapshot>, depth: int) -> Result<
    Seq<NodeModel>,
    ErrorModel,
>
    decreases depth_fuel(depth), 0nat, es.len(),
{
    if depth > 5 || es.len() == 0 {
        Result::Ok(Seq::empty())
    } else {
        match es[0] {
            EntrySnapshot::File { name } => {
                match spec_build_nodes(parent, es.drop_first(), depth) {
                    Result::Ok(ns) => Result::Ok(seq![file_node(parent, name@)] + ns),
                    Result::Err(err) => Result::Err(err),
                }
            },
            EntrySnapshot::Dir { name, contents } => {
                match spec_build(join_path(parent, name@), contents, depth + 1) {
                    Result::Err(err) => Result::Err(err),
                    Result::Ok(children) => {
                        match spec_build_nodes(parent, es.drop_first(), depth) {
                            Result::Ok(ns) => Result::Ok(
                                seq![dir_node(parent, name@, children)] + ns,
                            ),
                            Result::Err(err) => Result::Err(err),
                        }
                    },
                }
            },
        }
    }
}

/// The name of an entry, borrowed.
fn entry_name_ref(e: &EntrySnapshot) -> (r: &String)
    ensures
        r@ == entry_name(*e),
{
    match e {
        EntrySnapshot::File { name } => name,
        EntrySnapshot::Dir { name, .. } => name,
    }
}

/// Whether an entry is a directory.
fn entry_is_dir_exec(e: &EntrySnapshot) -> (r: bool)
    ensures
        r == entry_is_dir(*e),
{
    match e {
        EntrySnapshot::Dir { .. } => true,
        EntrySnapshot::File { .. } => false,
    }
}

/// Decides the sibling order between two entries.
fn entry_le_exec(a: &EntrySnapshot, b: &EntrySnapshot) -> (r: bool)
    ensures
        r == entry_le(*a, *b),
{
    let a_dir = entry_is_dir_exec(a);
    let b_dir = entry_is_dir_exec(b);
    if a_dir != b_dir {
        return a_dir;
    }
    let an = entry_name_ref(a);
    let bn = entry_name_ref(b);
    let fa = lowercase(an.as_str());
    let fb = lowercase(bn.as_str());
    if !str_eq(fa.as_str(), fb.as_str()) {
        lex_le_exec(fa.as_str(), fb.as_str())
    } else {
        lex_le_exec(an.as_str(), bn.as_str())
    }
}

/// Joins a parent path and an entry name with a separator.
fn join_path_exec(parent: &str, name: &str) -> (r: String)
    ensures
        r@ == join_path(parent@, name@),
{
    let mut s = parent.to_owned();
    s.append("/");
    s.append(name);
    proof {
        reveal_strlit("/");
        assert(s@ =~= join_path(parent@, name@));
    }
    s
}

/// The ghost image of a sequence of borrowed entries.
pub open spec fn refs_model(s: Seq<&EntrySnapshot>) -> Seq<EntrySnapshot> {
    Seq::new(s.len(), |i: int| *s[i])
}

/// Where `e` belongs in the already sorted prefix: the index of the first
/// element that is not `entry_le` `e`.
fn insert_position(sorted: &Vec<&EntrySnapshot>, e: &EntrySnapshot) -> (j: usize)
    ensures
        j <= sorted@.len(),
        forall|k: int| 0 <= k < j ==> entry_le(*sorted@[k], *e),
        j < sorted@.len() ==> !entry_le(*sorted@[j as int], *e),
{
    let mut j: usize = 0;
    while j < sorted.len()
        invariant
            j <= sorted@.len(),
            forall|k: int| 0 <= k < j ==> entry_le(*sorted@[k], *e),
        decreases sorted@.len() - j,
    {
        if !entry_le_exec(sorted[j], e) {
            return j;
        }
        j += 1;
    }
    j
}

/// Splicing at the first non-`entry_le` position is what `insert_entry`
/// produces.
proof fn lemma_insert_entry_at(e: EntrySnapshot, s: Seq<EntrySnapshot>, j: int)
    requires
        0 <= j <= s.len(),
        forall|k: int| 0 <= k < j ==> entry_le(#[trigger] s[k], e),
        j < s.len() ==> !entry_le(s[j], e),
    ensures
        insert_entry(e, s) == s.take(j).push(e) + s.skip(j),
    decreases j,
{
    if j == 0 {
        if s.len() == 0 {
            assert(insert_entry(e, s) =~= s.take(0).push(e) + s.skip(0));
        } else {
            assert(!entry_le(s[0], e));
            assert(insert_entry(e, s) =~= s.take(0).push(e) + s.skip(0));
        }
    } else {
        assert(entry_le(s[0], e));
        let rest = s.drop_first();
        assert(forall|k: int| 0 <= k < j - 1 ==> entry_le(#[trigger] rest[k], e));
        lemma_insert_entry_at(e, rest, j - 1);
        assert(rest.take(j - 1) =~= s.skip(1).take(j - 1));
        assert(insert_entry(e, s) =~= s.take(j).push(e) + s.skip(j));
    }
}

/// Builds the tree for one directory snapshot at the given depth.
#[verifier::loop_isolation(false)]
fn build_file_tree(path: &str, snap: &DirSnapshot, depth: u32) -> (r: Result<
    Vec<FileTreeNode>,
    TreeError,
>)
    ensures
        result_model(r) == spec_build(path@, *snap, depth as int),
    decreases depth_fuel(depth as int), 1nat, 0nat,
{
    broadcast use lemma_nodes_model;

    if depth > 5 {
        proof {
            assert(nodes_model(Seq::<FileTreeNode>::empty()) =~= Seq::<NodeModel>::empty());
        }
        return Result::Ok(Vec::new());
    }
    match snap {
        DirSnapshot::Unreadable(msg) => Result::Err(
            TreeError { path: path.to_owned(), message: msg.clone() },
        ),
        DirSnapshot::Entries(v) => {
            // Filter.
            let mut kept: Vec<&EntrySnapshot> = Vec::new();
            let n = v.len();
            for i in 0..n
                invariant
                    n == v@.len(),
                    refs_model(kept@) == keep_entries(v@.take(i as int)),
            {
                proof {
                    assert(v@.take(i + 1).drop_last() =~= v@.take(i as int));
                    assert(v@.take(i + 1).last() == v@[i as int]);
                }
                let name = entry_name_ref(&v[i]);
                if !is_excluded_name(name.as_str()) {
                    kept.push(&v[i]);
                }
                proof {
                    assert(refs_model(kept@) =~= keep_entries(v@.take(i + 1)));
                }
            }
            proof {
                assert(v@.take(n as int) =~= v@);
            }
            // Sort.
            let mut sorted: Vec<&EntrySnapshot> = Vec::new();
            let kn = kept.len();
            for i in 0..kn
                invariant
                    kn == kept@.len(),
                    refs_model(sorted@) == sort_entries(refs_model(kept@).take(i as int)),
            {
                let e = kept[i];
                let j = insert_position(&sorted, e);
                proof {
                    lemma_insert_entry_at(*e, refs_model(sorted@), j as int);
                }
                sorted.insert(j, e);
                proof {
                    let km = refs_model(kept@);
                    assert(km.take(i + 1).drop_last() =~= km.take(i as int));
                    assert(km.take(i + 1).last() == km[i as int]);
                    assert(refs_model(sorted@) =~= sort_entries(km.take(i as int)).take(j as int).push(
                        *e,
                    ) + sort_entries(km.take(i as int)).skip(j as int));
                    assert(refs_model(sorted@) =~= sort_entries(km.take(i + 1)));
                }
            }
            proof {
                assert(refs_model(kept@).take(kn as int) =~= refs_model(kept@));
            }
            // Build nodes in sibling order.
            let ghost sm = refs_model(sorted@);
            proof {
                assert(sm == sort_entries(keep_entries(v@)));
                assert(spec_build(path@, *snap, depth as int) == spec_build_nodes(
                    path@,
                    sm,
                    depth as int,
                ));
            }
            let mut out: Vec<FileTreeNode> = Vec::new();
            let sn = sorted.len();
            proof {
                assert(sm.skip(0) =~= sm);
                let r0 = spec_build_nodes(path@, sm, depth as int);
                if r0 is Ok {
                    assert(nodes_model(out@) + r0->Ok_0 =~= r0->Ok_0);
                }
            }
            for i in 0..sn
                invariant
                    sn == sorted@.len(),
                    sm == refs_model(sorted@),
                    depth <= 5,
                    spec_build_nodes(path@, sm, depth as int) == match spec_build_nodes(
                        path@,
                        sm.skip(i as int),
                        depth as int,
                    ) {
                        Result::Ok(rest) => Result::Ok(
                            nodes_model(out@) + rest,
                        ),
                        Result::Err(err) => Result::Err::<Seq<NodeModel>, ErrorModel>(err),
                    },
            {
                proof {
                    assert(sm.skip(i as int).len() == sn - i);
                    assert(sm.skip(i as int)[0] == sm[i as int]);
                    assert(sm.skip(i as int).drop_first() =~= sm.skip(i + 1));
                }
                let e = sorted[i];
                let ghost out0 = out@;
                match e {
                    EntrySnapshot::File { name } => {
                        let p = join_path_exec(path, name.as_str());
                        let node = FileTreeNode {
                            name: name.clone(),
                            path: p,
                            is_directory: false,
                            children: Option::None,
                        };
                        proof {
                            assert(node_model(node) == file_node(path@, name@));
                        }
                        out.push(node);
                        proof {
                            assert(nodes_model(out@) =~= nodes_model(out0).push(
                                file_node(path@, name@),
                            ));
                            let after = spec_build_nodes(path@, sm.skip(i + 1), depth as int);
                            if after is Ok {
                                assert(nodes_model(out0) + (seq![file_node(path@, name@)]
                                    + after->Ok_0) =~= nodes_model(out@) + after->Ok_0);
                            }
                        }
                    },
                    EntrySnapshot::Dir { name, contents } => {
                        let p = join_path_exec(path, name.as_str());
                        match build_file_tree(p.as_str(), contents, depth + 1) {
                            Result::Err(err) => {
                                return Result::Err(err);
                            },
                            Result::Ok(children) => {
                                let ghost cm = nodes_model(children@);
                                let node = FileTreeNode {
                                    name: name.clone(),
                                    path: p,
                                    is_directory: true,
                                    children: Option::Some(children),
                                };
                                proof {
                                    assert(node_model(node).children->Some_0 =~= cm);
                                    assert(node_model(node) == dir_node(path@, name@, cm));
                                }
                                out.push(node);
                                proof {
                                    assert(nodes_model(out@) =~= nodes_model(out0).push(
                                        dir_node(path@, name@, cm),
                                    ));
                                    let after = spec_build_nodes(
                                        path@,
                                        sm.skip(i + 1),
                                        depth as int,
                                    );
                                    if after is Ok {
                                        assert(nodes_model(out0) + (seq![dir_node(
                                            path@,
                                            name@,
                                            cm,
                                        )] + after->Ok_0) =~= nodes_model(out@) + after->Ok_0);
                                    }
                                }
                            },
                        }
                    },
                }
            }
            proof {
                assert(sm.skip(sn as int) =~= Seq::<EntrySnapshot>::empty());
                assert(nodes_model(out@) + Seq::<NodeModel>::empty() =~= nodes_model(out@));
            }
            Result::Ok(out)
        },
    }
}

/// Any two entries are comparable under the sibling order.
pub proof fn lemma_entry_le_total(a: EntrySnapshot, b: EntrySnapshot)
    ensures
        entry_le(a, b) || entry_le(b, a),
{
    if entry_is_dir(a) == entry_is_dir(b) {
        if lower_of(entry_name(a)) != lower_of(entry_name(b)) {
            crate::strutil::lemma_lex_le_total(lower_of(entry_name(a)), lower_of(entry_name(b)));
        } else {
            crate::strutil::lemma_lex_le_total(entry_name(a), entry_name(b));
        }
    }
}

/// The sibling order is transitive.
pub proof fn lemma_entry_le_transitive(a: EntrySnapshot, b: EntrySnapshot, c: EntrySnapshot)
    requires
        entry_le(a, b),
        entry_le(b, c),
    ensures
        entry_le(a, c),
{
    let da = entry_is_dir(a);
    let db = entry_is_dir(b);
    let dc = entry_is_dir(c);
    let fa = lower_of(entry_name(a));
    let fb = lower_of(entry_name(b));
    let fc = lower_of(entry_name(c));
    if da == db && db == dc {
        if fa != fb && fb != fc {
            crate::strutil::lemma_lex_le_transitive(fa, fb, fc);
            if fa == fc {
                crate::strutil::lemma_lex_le_antisymmetric(fb, fc);
            }
        } else if fa == fb && fb != fc {
            assert(entry_le(a, c));
        } else if fa != fb && fb == fc {
            assert(entry_le(a, c));
        } else {
            crate::strutil::lemma_lex_le_transitive(entry_name(a), entry_name(b), entry_name(c));
        }
    }
}

/// Every earlier entry is ordered before every later one.
pub open spec fn entries_sorted(s: Seq<EntrySnapshot>) -> bool {
    forall|i: int, j: int| 0 <= i < j < s.len() ==> entry_le(#[trigger] s[i], #[trigger] s[j])
}

/// Inserting into a sorted sequence keeps it sorted, grows it by one and
/// adds no element but the inserted one.
proof fn lemma_insert_entry_sorted(e: EntrySnapshot, s: Seq<EntrySnapshot>)
    requires
        entries_sorted(s),
    ensures
        entries_sorted(insert_entry(e, s)),
        insert_entry(e, s).len() == s.len() + 1,
        forall|k: int|
            0 <= k < insert_entry(e, s).len() ==> s.contains(#[trigger] insert_entry(e, s)[k])
                || insert_entry(e, s)[k] == e,
    decreases s.len(),
{
    let r = insert_entry(e, s);
    if s.len() == 0 {
        assert(r =~= seq![e]);
    } else if entry_le(s[0], e) {
        let rest = s.drop_first();
        assert(entries_sorted(rest)) by {
            assert(forall|i: int, j: int|
                0 <= i < j < rest.len() ==> rest[i] == s[i + 1] && rest[j] == s[j + 1]);
        }
        lemma_insert_entry_sorted(e, rest);
        let ri = insert_entry(e, rest);
        assert(r =~= seq![s[0]] + ri);
        // s[0] is ordered before everything in ri.
        assert forall|k: int| 0 <= k < ri.len() implies entry_le(s[0], ri[k]) by {
            if ri[k] == e {
                assert(entry_le(s[0], e));
            } else {
                assert(rest.contains(ri[k]));
                let w = choose|w: int| 0 <= w < rest.len() && rest[w] == ri[k];
                assert(s[w + 1] == rest[w]);
                assert(entry_le(s[0], s[w + 1]));
            }
        }
        assert forall|k: int| 0 <= k < r.len() implies s.contains(r[k]) || r[k] == e by {
            if k == 0 {
                assert(s[0] == r[0]);
                assert(s.contains(s[0]));
            } else {
                assert(r[k] == ri[k - 1]);
                if rest.contains(ri[k - 1]) {
                    let w = choose|w: int| 0 <= w < rest.len() && rest[w] == ri[k - 1];
                    assert(s[w + 1] == rest[w]);
                    assert(s.contains(s[w + 1]));
                }
            }
        }
        assert(entries_sorted(r)) by {
            assert(forall|i: int, j: int|
                0 <= i < j < r.len() && i > 0 ==> r[i] == ri[i - 1] && r[j] == ri[j - 1]);
        }
    } else {
        lemma_entry_le_total(s[0], e);
        assert(entry_le(e, s[0]));
        assert(r =~= seq![e] + s);
        assert forall|j: int| 1 <= j < r.len() implies entry_le(e, r[j]) by {
            assert(r[j] == s[j - 1]);
            if j > 1 {
                assert(entry_le(s[0], s[j - 1]));
                lemma_entry_le_transitive(e, s[0], s[j - 1]);
            }
        }
        assert(forall|k: int| 1 <= k < r.len() ==> r[k] == s[k - 1] && s.contains(s[k - 1]));
    }
}

/// Sorting yields a sorted sequence of the same elements.
proof fn lemma_sort_entries_sorted(s: Seq<EntrySnapshot>)
    ensures
        entries_sorted(sort_entries(s)),
        sort_entries(s).len() == s.len(),
        forall|k: int| 0 <= k < sort_entries(s).len() ==> s.contains(#[trigger] sort_entries(s)[k]),
    decreases s.len(),
{
    if s.len() > 0 {
        let front = s.drop_last();
        lemma_sort_entries_sorted(front);
        lemma_insert_entry_sorted(s.last(), sort_entries(front));
        let r = sort_entries(s);
        assert forall|k: int| 0 <= k < r.len() implies s.contains(r[k]) by {
            if r[k] == s.last() {
                assert(s[s.len() - 1] == s.last());
            } else {
                assert(sort_entries(front).contains(r[k]));
                let w = choose|w: int| 0 <= w < sort_entries(front).len() && sort_entries(front)[w]
                    == r[k];
                assert(front.contains(sort_entries(front)[w]));
                let u = choose|u: int| 0 <= u < front.len() && front[u] == r[k];
                assert(s[u] == front[u]);
            }
        }
    }
}

/// Filtering keeps exactly the entries with admissible names, in order.
proof fn lemma_keep_entries_kept(s: Seq<EntrySnapshot>)
    ensures
        forall|k: int|
            0 <= k < keep_entries(s).len() ==> !excluded_name(entry_name(
                #[trigger] keep_entries(s)[k],
            )) && s.contains(keep_entries(s)[k]),
    decreases s.len(),
{
    if s.len() > 0 {
        let front = s.drop_last();
        lemma_keep_entries_kept(front);
        let r = keep_entries(s);
        assert forall|k: int|
            0 <= k < r.len() implies !excluded_name(entry_name(r[k])) && s.contains(r[k]) by {
            if k < keep_entries(front).len() {
                assert(r[k] == keep_entries(front)[k]);
                assert(front.contains(r[k]));
                let u = choose|u: int| 0 <= u < front.len() && front[u] == r[k];
                assert(s[u] == front[u]);
            } else {
                assert(r[k] == s.last());
                assert(s[s.len() - 1] == s.last());
            }
        }
    }
}

/// Directory nodes precede file nodes, and nodes of the same kind are
/// in case-insensitive name order.
pub open spec fn sibling_pair_ordered(a: NodeModel, b: NodeModel) -> bool {
    &&& (b.is_directory ==> a.is_directory)
    &&& (a.is_directory == b.is_directory ==> lex_le(lower_of(a.name), lower_of(b.name)))
}

/// Every earlier sibling is ordered before every later one.
pub open spec fn siblings_ordered(ns: Seq<NodeModel>) -> bool {
    forall|i: int, j: int|
        0 <= i < j < ns.len() ==> sibling_pair_ordered(#[trigger] ns[i], #[trigger] ns[j])
}

/// The sibling order holds in every directory of the tree.
pub open spec fn tree_ordered(ns: Seq<NodeModel>) -> bool
    decreases ns,
{
    siblings_ordered(ns) && (forall|i: int|
        0 <= i < ns.len() ==> ((#[trigger] ns[i]).children matches Option::Some(c)
            ==> tree_ordered(c)))
}

/// No node anywhere in the tree carries an excluded name.
pub open spec fn tree_filtered(ns: Seq<NodeModel>) -> bool
    decreases ns,
{
    forall|i: int|
        0 <= i < ns.len() ==> !excluded_name((#[trigger] ns[i]).name) && (ns[i].children matches
            Option::Some(c) ==> tree_filtered(c))
}

/// Every node has `children` present exactly when it is a directory.
pub open spec fn tree_children_present(ns: Seq<NodeModel>) -> bool
    decreases ns,
{
    forall|i: int|
        0 <= i < ns.len() ==> ((#[trigger] ns[i]).children is Some <==> ns[i].is_directory) && (
        ns[i].children matches Option::Some(c) ==> tree_children_present(c))
}

/// With no budget left the node list is empty; each level consumes one
/// unit of budget.
pub open spec fn tree_depth_bounded(ns: Seq<NodeModel>, budget: int) -> bool
    decreases ns,
{
    (budget <= 0 ==> ns.len() == 0) && (forall|i: int|
        0 <= i < ns.len() ==> ((#[trigger] ns[i]).children matches Option::Some(c)
            ==> tree_depth_bounded(c, budget - 1)))
}

/// Every node's path is its parent's path joined with its own name.
pub open spec fn tree_paths_joined(ns: Seq<NodeModel>, parent: Seq<char>) -> bool
    decreases ns,
{
    forall|i: int|
        0 <= i < ns.len() ==> (#[trigger] ns[i]).path == join_path(parent, ns[i].name) && (
        ns[i].children matches Option::Some(c) ==> tree_paths_joined(c, ns[i].path))
}

/// All structural invariants of a successful build of one directory.
proof fn lemma_build_invariants(parent: Seq<char>, snap: DirSnapshot, depth: int)
    ensures
        spec_build(parent, snap, depth) matches Result::Ok(ns) ==> {
            &&& tree_ordered(ns)
            &&& tree_filtered(ns)
            &&& tree_children_present(ns)
            &&& tree_depth_bounded(ns, 6 - depth)
            &&& tree_paths_joined(ns, parent)
        },
    decreases depth_fuel(depth), 1nat, 0nat,
{
    if depth <= 5 {
        match snap {
            DirSnapshot::Unreadable(msg) => {},
            DirSnapshot::Entries(v) => {
                lemma_keep_entries_kept(v@);
                lemma_sort_entries_sorted(keep_entries(v@));
                let es = sort_entries(keep_entries(v@));
                assert forall|k: int|
                    0 <= k < es.len() implies !excluded_name(entry_name(#[trigger] es[k])) by {
                    assert(keep_entries(v@).contains(es[k]));
                    let w = choose|w: int|
                        0 <= w < keep_entries(v@).len() && keep_entries(v@)[w] == es[k];
                    assert(!excluded_name(entry_name(keep_entries(v@)[w])));
                }
                lemma_build_nodes_invariants(parent, es, depth);
            },
        }
    }
}

/// The same invariants for the walk over already filtered and sorted
/// entries, together with the name and kind of each produced node.
proof fn lemma_build_nodes_invariants(parent: Seq<char>, es: Seq<EntrySnapshot>, depth: int)
    requires
        depth <= 5,
        entries_sorted(es),
        forall|k: int| 0 <= k < es.len() ==> !excluded_name(entry_name(#[trigger] es[k])),
    ensures
        spec_build_nodes(parent, es, depth) matches Result::Ok(ns) ==> {
            &&& ns.len() == es.len()
            &&& forall|k: int|
                0 <= k < ns.len() ==> (#[trigger] ns[k]).name == entry_name(es[k])
                    && ns[k].is_directory == entry_is_dir(es[k])
            &&& tree_ordered(ns)
            &&& tree_filtered(ns)
            &&& tree_children_present(ns)
            &&& tree_depth_bounded(ns, 6 - depth)
            &&& tree_paths_joined(ns, parent)
        },
    decreases depth_fuel(depth), 0nat, es.len(),
{
    if es.len() == 0 {
    } else {
        let rest = es.drop_first();
        assert(entries_sorted(rest)) by {
            assert(forall|i: int, j: int|
                0 <= i < j < rest.len() ==> rest[i] == es[i + 1] && rest[j] == es[j + 1]);
        }
        assert(forall|k: int|
            0 <= k < rest.len() ==> !excluded_name(entry_name(#[trigger] rest[k]))) by {
            assert(forall|k: int| 0 <= k < rest.len() ==> rest[k] == es[k + 1]);
        }
        lemma_build_nodes_invariants(parent, rest, depth);
        let r_rest = spec_build_nodes(parent, rest, depth);
        match es[0] {
            EntrySnapshot::File { name } => {
                if r_rest is Ok {
                    let ns_rest = r_rest->Ok_0;
                    let node0 = file_node(parent, name@);
                    let ns = seq![node0] + ns_rest;
                    assert(spec_build_nodes(parent, es, depth) == Result::<
                        Seq<NodeModel>,
                        ErrorModel,
                    >::Ok(ns));
                    lemma_build_nodes_cons(parent, es, depth, node0, ns_rest);
                }
            },
            EntrySnapshot::Dir { name, contents } => {
                lemma_build_invariants(join_path(parent, name@), contents, depth + 1);
                let r_sub = spec_build(join_path(parent, name@), contents, depth + 1);
                if r_sub is Ok && r_rest is Ok {
                    let ns_rest = r_rest->Ok_0;
                    let node0 = dir_node(parent, name@, r_sub->Ok_0);
                    let ns = seq![node0] + ns_rest;
                    assert(spec_build_nodes(parent, es, depth) == Result::<
                        Seq<NodeModel>,
                        ErrorModel,
                    >::Ok(ns));
                    lemma_build_nodes_cons(parent, es, depth, node0, ns_rest);
                }
            },
        }
    }
}

/// Extends the invariants from the tail of the walk to the whole list,
/// given the node built for the first entry.
proof fn lemma_build_nodes_cons(
    parent: Seq<char>,
    es: Seq<EntrySnapshot>,
    depth: int,
    node0: NodeModel,
    ns_rest: Seq<NodeModel>,
)
    requires
        depth <= 5,
        es.len() > 0,
        entries_sorted(es),
        forall|k: int| 0 <= k < es.len() ==> !excluded_name(entry_name(#[trigger] es[k])),
        node0.name == entry_name(es[0]),
        node0.is_directory == entry_is_dir(es[0]),
        node0.path == join_path(parent, node0.name),
        node0.children is Some <==> node0.is_directory,
        node0.children matches Option::Some(c) ==> tree_ordered(c) && tree_filtered(c)
            && tree_children_present(c) && tree_depth_bounded(c, 6 - (depth + 1))
            && tree_paths_joined(c, node0.path),
        ns_rest.len() == es.drop_first().len(),
        forall|k: int|
            0 <= k < ns_rest.len() ==> (#[trigger] ns_rest[k]).name == entry_name(
                es.drop_first()[k],
            ) && ns_rest[k].is_directory == entry_is_dir(es.drop_first()[k]),
        tree_ordered(ns_rest),
        tree_filtered(ns_rest),
        tree_children_present(ns_rest),
        tree_depth_bounded(ns_rest, 6 - depth),
        tree_paths_joined(ns_rest, parent),
    ensures
        ({
            let ns = seq![node0] + ns_rest;
            &&& ns.len() == es.len()
            &&& forall|k: int|
                0 <= k < ns.len() ==> (#[trigger] ns[k]).name == entry_name(es[k])
                    && ns[k].is_directory == entry_is_dir(es[k])
            &&& tree_ordered(ns)
            &&& tree_filtered(ns)
            &&& tree_children_present(ns)
            &&& tree_depth_bounded(ns, 6 - depth)
            &&& tree_paths_joined(ns, parent)
        }),
{
    let rest = es.drop_first();
    let ns = seq![node0] + ns_rest;
    assert(ns[0] == node0);
    assert(forall|k: int| 1 <= k < ns.len() ==> ns[k] == ns_rest[k - 1]);
    assert(forall|k: int| 0 <= k < rest.len() ==> rest[k] == es[k + 1]);
    assert forall|k: int|
        0 <= k < ns.len() implies (#[trigger] ns[k]).name == entry_name(es[k])
            && ns[k].is_directory == entry_is_dir(es[k]) by {
        if k > 0 {
            assert(ns[k] == ns_rest[k - 1]);
            assert(rest[k - 1] == es[k]);
        }
    }
    assert forall|i: int, j: int|
        0 <= i < j < ns.len() implies sibling_pair_ordered(#[trigger] ns[i], #[trigger] ns[j]) by {
        if i == 0 {
            assert(entry_le(es[0], es[j]));
            crate::strutil::lemma_lex_le_total(
                lower_of(entry_name(es[0])),
                lower_of(entry_name(es[j])),
            );
            assert(ns[j].name == entry_name(es[j]));
            assert(ns[j].is_directory == entry_is_dir(es[j]));
        } else {
            assert(ns[i] == ns_rest[i - 1]);
            assert(ns[j] == ns_rest[j - 1]);
            assert(sibling_pair_ordered(ns_rest[i - 1], ns_rest[j - 1]));
        }
    }
    assert(tree_ordered(ns)) by {
        assert forall|i: int|
            0 <= i < ns.len() implies ((#[trigger] ns[i]).children matches Option::Some(c)
                ==> tree_ordered(c)) by {
            if i > 0 {
                assert(ns[i] == ns_rest[i - 1]);
            }
        }
    }
    assert(tree_filtered(ns)) by {
        assert forall|i: int|
            0 <= i < ns.len() implies !excluded_name((#[trigger] ns[i]).name) && (
            ns[i].children matches Option::Some(c) ==> tree_filtered(c)) by {
            if i > 0 {
                assert(ns[i] == ns_rest[i - 1]);
            } else {
                assert(ns[0].name == entry_name(es[0]));
            }
        }
    }
    assert(tree_children_present(ns)) by {
        assert forall|i: int|
            0 <= i < ns.len() implies ((#[trigger] ns[i]).children is Some <==> ns[i].is_directory)
                && (ns[i].children matches Option::Some(c) ==> tree_children_present(c)) by {
            if i > 0 {
                assert(ns[i] == ns_rest[i - 1]);
            }
        }
    }
    assert(tree_depth_bounded(ns, 6 - depth)) by {
        assert forall|i: int|
            0 <= i < ns.len() implies ((#[trigger] ns[i]).children matches Option::Some(c)
                ==> tree_depth_bounded(c, 6 - depth - 1)) by {
            if i > 0 {
                assert(ns[i] == ns_rest[i - 1]);
            }
        }
    }
    assert(tree_paths_joined(ns, parent)) by {
        assert forall|i: int|
            0 <= i < ns.len() implies (#[trigger] ns[i]).path == join_path(parent, ns[i].name) && (
            ns[i].children matches Option::Some(c) ==> tree_paths_joined(c, ns[i].path)) by {
            if i > 0 {
                assert(ns[i] == ns_rest[i - 1]);
            }
        }
    }
}

/// Ordering invariant: in every directory of a successfully built tree,
/// directory entries precede file entries, and siblings of the same kind
/// stand in case-insensitive name order.
pub proof fn lemma_build_tree_ordered(path: Seq<char>, snap: DirSnapshot, ns: Seq<NodeModel>)
    requires
        spec_build(path, snap, 0) == Result::<Seq<NodeModel>, ErrorModel>::Ok(ns),
    ensures
        tree_ordered(ns),
{
    lemma_build_invariants(path, snap, 0);
}

/// Filtering invariant: no node of a successfully built tree, at any
/// depth, carries a name that begins with `.` or equals `node_modules`.
pub proof fn lemma_build_tree_filtered(path: Seq<char>, snap: DirSnapshot, ns: Seq<NodeModel>)
    requires
        spec_build(path, snap, 0) == Result::<Seq<NodeModel>, ErrorModel>::Ok(ns),
    ensures
        tree_filtered(ns),
{
    lemma_build_invariants(path, snap, 0);
}

/// Children-presence invariant: in a successfully built tree, `children`
/// is present on a node exactly when the node is a directory.
pub proof fn lemma_build_children_present(path: Seq<char>, snap: DirSnapshot, ns: Seq<NodeModel>)
    requires
        spec_build(path, snap, 0) == Result::<Seq<NodeModel>, ErrorModel>::Ok(ns),
    ensures
        tree_children_present(ns),
{
    lemma_build_invariants(path, snap, 0);
}

/// Depth-bound invariant: a successfully built tree nests at most six
/// levels; nodes on the sixth level have empty `children`, whatever lay
/// below them on disk.
pub proof fn lemma_build_depth_bounded(path: Seq<char>, snap: DirSnapshot, ns: Seq<NodeModel>)
    requires
        spec_build(path, snap, 0) == Result::<Seq<NodeModel>, ErrorModel>::Ok(ns),
    ensures
        tree_depth_bounded(ns, 6),
{
    lemma_build_invariants(path, snap, 0);
}

/// Path invariant: every node's path is its parent's path joined with
/// its own name.
pub proof fn lemma_build_paths_joined(path: Seq<char>, snap: DirSnapshot, ns: Seq<NodeModel>)
    requires
        spec_build(path, snap, 0) == Result::<Seq<NodeModel>, ErrorModel>::Ok(ns),
    ensures
        tree_paths_joined(ns, path),
{
    lemma_build_invariants(path, snap, 0);
}

/// Idempotence: the build is a function of the snapshot alone, so two
/// builds of an unchanged directory tree are structurally identical.
pub proof fn lemma_build_deterministic(path: Seq<char>, a: DirSnapshot, b: DirSnapshot)
    requires
        a == b,
    ensures
        spec_build(path, a, 0) == spec_build(path, b, 0),
{
}

/// Builds the display tree for the directory snapshot taken at `path`:
/// the immediate entries of `path`, filtered, ordered and depth-limited
/// as [`spec_build`] states, or the first read error in sibling order.
pub fn build_file_tree_public(path: &str, snap: &DirSnapshot) -> (r: Result<
    Vec<FileTreeNode>,
    TreeError,
>)
    ensures
        result_model(r) == spec_build(path@, *snap, 0),
{
    build_file_tree(path, snap, 0)
}

} // verus!
