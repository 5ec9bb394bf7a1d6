//! Path enumeration over a snapshot of the directory tree.
//!
//! The enumerator's decisions are verified against an in-memory model of
//! the tree: each node is a regular file (already carrying its canonical
//! absolute path), a directory with its entries, some other kind of entry
//! (socket, device), or an entry that could not be resolved (for instance a
//! broken symlink). The caller walks the real file system and builds this
//! snapshot; the library decides which paths the scan covers.

use vstd::prelude::*;
use vstd::multiset::Multiset;
use vstd::multiset::group_multiset_axioms;
use vstd::seq_lib::group_to_multiset_ensures;
use vstd::seq_lib::lemma_multiset_commutative;

verus! {

/// One node of the directory-tree snapshot.
pub enum FsNode {
    /// A regular file, with its canonical absolute path.
    File { path: String },
    /// A directory and the nodes found directly inside it.
    Dir { entries: Vec<FsNode> },
    /// An entry that is neither a regular file nor a directory.
    OtherKind,
    /// An entry that could not be resolved to a canonical path.
    Unresolved,
}

/// How the root argument resolved.
pub enum RootInfo {
    /// The root path does not exist.
    NotFound,
    /// The root is itself a regular file, with its canonical path.
    File { path: String },
    /// The root is a directory; `node` is its snapshot.
    Dir { node: FsNode },
    /// The root exists but is neither a regular file nor a directory.
    OtherKind,
}

/// Why an enumeration failed.
#[derive(PartialEq, Eq, Structural, Debug, Clone, Copy)]
pub enum LoadError {
    /// The root path does not exist.
    NotFound,
    /// Some entry under the root could not be resolved; the whole
    /// enumeration fails rather than silently skipping it.
    Unresolved,
}

/// The views of a list of path strings.
pub open spec fn path_views(v: Seq<String>) -> Seq<Seq<char>> {
    v.map_values(|p: String| p@)
}

/// The paths of the regular files in a subtree, in model order.
pub open spec fn files_of(n: FsNode) -> Seq<Seq<char>>
    decreases n,
{
    match n {
        FsNode::File { path } => seq![path@],
        FsNode::Dir { entries } => files_of_seq(entries@),
        FsNode::OtherKind => Seq::empty(),
        FsNode::Unresolved => Seq::empty(),
    }
}

/// The paths of the regular files in a forest of subtrees.
pub open spec fn files_of_seq(s: Seq<FsNode>) -> Seq<Seq<char>>
    decreases s,
{
    if s.len() == 0 {
        Seq::empty()
    } else {
        files_of_seq(s.drop_last()) + files_of(s.last())
    }
}

/// Whether a subtree holds an unresolvable entry.
pub open spec fn has_unresolved(n: FsNode) -> bool
    decreases n,
{
    match n {
        FsNode::File { .. } => false,
        FsNode::Dir { entries } => has_unresolved_seq(entries@),
        FsNode::OtherKind => false,
        FsNode::Unresolved => true,
    }
}

/// Whether a forest of subtrees holds an unresolvable entry.
pub open spec fn has_unresolved_seq(s: Seq<FsNode>) -> bool
    decreases s,
{
    if s.len() == 0 {
        false
    } else {
        has_unresolved_seq(s.drop_last()) || has_unresolved(s.last())
    }
}

/// The number of nodes in a subtree; the traversal's termination measure.
pub open spec fn node_count(n: FsNode) -> nat
    decreases n,
{
    match n {
        FsNode::Dir { entries } => 1 + node_count_seq(entries@),
        _ => 1,
    }
}

/// The number of nodes in a forest of subtrees.
pub open spec fn node_count_seq(s: Seq<FsNode>) -> nat
    decreases s,
{
    if s.len() == 0 {
        0
    } else {
        node_count_seq(s.drop_last()) + node_count(s.last())
    }
}

proof fn lemma_singleton_to_multiset(p: Seq<char>)
    ensures
        seq![p].to_multiset() == Multiset::<Seq<char>>::empty().insert(p),
{
    broadcast use group_to_multiset_ensures, group_multiset_axioms;

    assert(seq![p] =~= Seq::<Seq<char>>::empty().push(p));
    assert(Seq::<Seq<char>>::empty().push(p).to_multiset() =~= Seq::<
        Seq<char>,
    >::empty().to_multiset().insert(p));
    assert(Seq::<Seq<char>>::empty().to_multiset().len() == 0);
    vstd::multiset::lemma_multiset_empty_len(Seq::<Seq<char>>::empty().to_multiset());
}

proof fn lemma_empty_forest()
    ensures
        files_of_seq(Seq::<FsNode>::empty()) == Seq::<Seq<char>>::empty(),
        has_unresolved_seq(Seq::<FsNode>::empty()) == false,
        node_count_seq(Seq::<FsNode>::empty()) == 0,
{
}

proof fn lemma_forest_concat(a: Seq<FsNode>, b: Seq<FsNode>)
    ensures
        files_of_seq(a + b) == files_of_seq(a) + files_of_seq(b),
        has_unresolved_seq(a + b) == (has_unresolved_seq(a) || has_unresolved_seq(b)),
        node_count_seq(a + b) == node_count_seq(a) + node_count_seq(b),
    decreases b.len(),
{
    if b.len() == 0 {
        assert(a + b =~= a);
        assert(files_of_seq(a) + Seq::<Seq<char>>::empty() =~= files_of_seq(a));
    } else {
        assert((a + b).drop_last() =~= a + b.drop_last());
        assert((a + b).last() == b.last());
        lemma_forest_concat(a, b.drop_last());
        assert(files_of_seq(a) + files_of_seq(b.drop_last()) + files_of(b.last())
            =~= files_of_seq(a) + (files_of_seq(b.drop_last()) + files_of(b.last())));
    }
}

/// Collects the paths of every regular file in the given subtrees, with an
/// explicit frontier instead of recursion. The result covers exactly the
/// regular files of the model, each occurrence once, in unspecified order;
/// if any entry is unresolvable, the whole traversal fails instead.
#[verifier::loop_isolation(false)]
fn collect_files(roots: Vec<FsNode>) -> (r: Result<Vec<String>, LoadError>)
    ensures
        r is Ok <==> !has_unresolved_seq(roots@),
        r matches Ok(v) ==> path_views(v@).to_multiset() == files_of_seq(roots@).to_multiset(),
        r matches Err(e) ==> e == LoadError::Unresolved,
{
    broadcast use group_to_multiset_ensures, group_multiset_axioms;

    let ghost all = files_of_seq(roots@);
    let mut stack: Vec<FsNode> = roots;
    let mut out: Vec<String> = Vec::new();
    loop
        invariant
            path_views(out@).to_multiset().add(files_of_seq(stack@).to_multiset())
                == all.to_multiset(),
            has_unresolved_seq(stack@) == has_unresolved_seq(roots@),
            all == files_of_seq(roots@),
        decreases node_count_seq(stack@),
    {
        let ghost prev = stack@;
        match stack.pop() {
            None => {
                proof {
                    assert(files_of_seq(prev).to_multiset().len() == 0);
                    assert(path_views(out@).to_multiset() =~= all.to_multiset());
                }
                return Ok(out);
            },
            Some(top) => {
                proof {
                    assert(files_of_seq(prev) == files_of_seq(stack@) + files_of(top));
                    assert(has_unresolved_seq(prev) == (has_unresolved_seq(stack@)
                        || has_unresolved(top)));
                    assert(node_count_seq(prev) == node_count_seq(stack@) + node_count(top));
                    lemma_multiset_commutative(files_of_seq(stack@), files_of(top));
                }
                match top {
                    FsNode::File { path } => {
                        let ghost p = path@;
                        let ghost out_prev = out@;
                        out.push(path);
                        proof {
                            assert(files_of(prev.last()) == seq![p]);
                            lemma_singleton_to_multiset(p);
                            assert(path_views(out@) =~= path_views(out_prev).push(p));
                            assert(path_views(out_prev).push(p).to_multiset() =~= path_views(
                                out_prev,
                            ).to_multiset().insert(p));
                            assert(path_views(out@).to_multiset().add(
                                files_of_seq(stack@).to_multiset(),
                            ) =~= all.to_multiset());
                        }
                    },
                    FsNode::Dir { entries } => {
                        let ghost mid = stack@;
                        let ghost ent = entries@;
                        let mut entries = entries;
                        stack.append(&mut entries);
                        proof {
                            assert(stack@ == mid + ent);
                            lemma_forest_concat(mid, ent);
                            lemma_multiset_commutative(files_of_seq(mid), files_of_seq(ent));
                            assert(files_of(prev.last()) == files_of_seq(ent));
                            assert(path_views(out@).to_multiset().add(
                                files_of_seq(stack@).to_multiset(),
                            ) =~= all.to_multiset());
                        }
                    },
                    FsNode::OtherKind => {
                        proof {
                            assert(files_of(prev.last()) == Seq::<Seq<char>>::empty());
                            assert(files_of(prev.last()).to_multiset().len() == 0);
                            vstd::multiset::lemma_multiset_empty_len(
                                files_of(prev.last()).to_multiset(),
                            );
                            assert(path_views(out@).to_multiset().add(
                                files_of_seq(stack@).to_multiset(),
                            ) =~= all.to_multiset());
                        }
                    },
                    FsNode::Unresolved => {
                        return Err(LoadError::Unresolved);
                    },
                }
            },
        }
    }
}

/// Resolves a root to the full list of regular files the scan will cover.
///
/// A missing root fails with `NotFound` and nothing is scanned. A root that
/// is itself a regular file yields exactly that one path. A directory root
/// yields the path of every regular file in its subtree, each exactly once,
/// in unspecified order — unless some entry cannot be resolved, in which
/// case the whole enumeration fails. A root of any other kind yields no
/// files.
pub fn load_path(root: RootInfo) -> (r: Result<Vec<String>, LoadError>)
    ensures
        match root {
            RootInfo::NotFound => r matches Err(e) && e == LoadError::NotFound,
            RootInfo::File { path } => r matches Ok(v) && path_views(v@) == seq![path@],
            RootInfo::Dir { node } => {
                if has_unresolved(node) {
                    r matches Err(e) && e == LoadError::Unresolved
                } else {
                    r matches Ok(v) && path_views(v@).to_multiset() == files_of(
                        node,
                    ).to_multiset()
                }
            },
            RootInfo::OtherKind => r matches Ok(v) && v@.len() == 0,
        },
{
    match root {
        RootInfo::NotFound => Err(LoadError::NotFound),
        RootInfo::File { path } => {
            let ghost p = path@;
            let mut v: Vec<String> = Vec::new();
            v.push(path);
            proof {
                assert(path_views(v@) =~= seq![p]);
            }
            Ok(v)
        },
        RootInfo::Dir { node } => {
            let ghost n = node;
            let mut roots: Vec<FsNode> = Vec::new();
            roots.push(node);
            proof {
                assert(roots@.drop_last() =~= Seq::<FsNode>::empty());
                assert(roots@.last() == n);
                lemma_empty_forest();
                assert(files_of_seq(roots@) == files_of_seq(roots@.drop_last()) + files_of(
                    roots@.last(),
                ));
                assert(Seq::<Seq<char>>::empty() + files_of(n) =~= files_of(n));
                assert(files_of_seq(roots@) == files_of(n));
                assert(has_unresolved_seq(roots@) == has_unresolved(n));
            }
            collect_files(roots)
        },
        RootInfo::OtherKind => {
            let v: Vec<String> = Vec::new();
            Ok(v)
        },
    }
}

/// When the model's file paths are pairwise distinct — as canonical paths
/// of distinct real files are — an enumeration that covers the model's
/// files as a multiset covers exactly that set of paths, each exactly once.
pub proof fn lemma_enumeration_exact(model: Seq<Seq<char>>, out: Seq<Seq<char>>)
    requires
        out.to_multiset() == model.to_multiset(),
        model.no_duplicates(),
    ensures
        out.no_duplicates(),
        forall|p: Seq<char>| out.contains(p) <==> model.contains(p),
{
    broadcast use group_to_multiset_ensures;

    model.lemma_multiset_has_no_duplicates();
    out.lemma_multiset_has_no_duplicates_conv();
    assert forall|p: Seq<char>| out.contains(p) <==> model.contains(p) by {
        assert(out.contains(p) <==> out.to_multiset().count(p) > 0);
        assert(model.contains(p) <==> model.to_multiset().count(p) > 0);
    }
}

} // verus!
