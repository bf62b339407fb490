//! Runs of the walker over a whole file tree: what it finds in a tree of any
//! depth and fan-out.

use crate::traversal::{found_after, stack_after, stack_step};
use crate::walker::{files_in, listing_files, listing_subdirs, subdirs_in, EntryView};
use vstd::prelude::*;

verus! {

/// A file tree as contracts see it: an entry and, for a directory, the trees
/// of the entries of its listing, in listing order. A file has no children,
/// and neither has a directory that cannot be listed.
pub struct Tree {
    pub entry: EntryView,
    pub children: Seq<Tree>,
}

/// The listing of a directory of the tree.
pub open spec fn entries_of(dir: Tree) -> Seq<EntryView> {
    Seq::new(dir.children.len(), |i: int| dir.children[i].entry)
}

/// Whether the walker enters this child of a directory.
pub open spec fn is_entered_child(child: Tree, marker: Seq<char>) -> bool {
    child.entry.is_dir && child.entry.name != marker
}

/// The listings that the walker asks for while it walks the directory `dir`,
/// in order: that of `dir`, then those of each child it enters.
pub open spec fn trace(dir: Tree, marker: Seq<char>) -> Seq<Option<Seq<EntryView>>>
    decreases dir, dir.children.len() + 1,
{
    seq![Some(entries_of(dir))] + trace_from(dir, marker, 0)
}

/// The listings that the walker asks for while it walks the children of `dir`
/// from index `i` on.
pub open spec fn trace_from(dir: Tree, marker: Seq<char>, i: nat) -> Seq<Option<Seq<EntryView>>>
    decreases dir, dir.children.len() - i,
{
    if i >= dir.children.len() {
        Seq::empty()
    } else {
        let child = dir.children[i as int];
        let first = if is_entered_child(child, marker) {
            trace(child, marker)
        } else {
            Seq::empty()
        };
        first + trace_from(dir, marker, i + 1)
    }
}

/// The files under the directory `dir` that the walk reaches, in the order of
/// the walk: the files of `dir`, then those under each child it enters.
pub open spec fn files_under(dir: Tree, marker: Seq<char>) -> Seq<Seq<char>>
    decreases dir, dir.children.len() + 1,
{
    files_in(entries_of(dir)) + files_from(dir, marker, 0)
}

/// The files under the children of `dir` from index `i` on that are entered.
pub open spec fn files_from(dir: Tree, marker: Seq<char>, i: nat) -> Seq<Seq<char>>
    decreases dir, dir.children.len() - i,
{
    if i >= dir.children.len() {
        Seq::empty()
    } else {
        let child = dir.children[i as int];
        let first = if is_entered_child(child, marker) {
            files_under(child, marker)
        } else {
            Seq::empty()
        };
        first + files_from(dir, marker, i + 1)
    }
}

/// The number of regular files in the tree under the directory `dir`.
pub open spec fn file_count(dir: Tree) -> nat
    decreases dir, dir.children.len() + 1,
{
    file_count_from(dir, 0)
}

/// The number of regular files in and under the children of `dir` from index
/// `i` on.
pub open spec fn file_count_from(dir: Tree, i: nat) -> nat
    decreases dir, dir.children.len() - i,
{
    if i >= dir.children.len() {
        0
    } else {
        let child = dir.children[i as int];
        let first = if child.entry.is_dir {
            file_count(child)
        } else {
            1
        };
        first + file_count_from(dir, i + 1)
    }
}

/// Whether no directory below `dir` is named `marker`.
pub open spec fn has_no_marked(dir: Tree, marker: Seq<char>) -> bool
    decreases dir,
{
    forall|i: int|
        0 <= i < dir.children.len() && (#[trigger] dir.children[i]).entry.is_dir
            ==> dir.children[i].entry.name != marker && has_no_marked(dir.children[i], marker)
}

/// Whether two trees are the same but for what lies beneath their marked
/// directories: the same entries at every place that the walk reaches.
pub open spec fn agree_outside_marked(left: Tree, right: Tree, marker: Seq<char>) -> bool
    decreases left,
{
    &&& left.entry == right.entry
    &&& left.children.len() == right.children.len()
    &&& forall|i: int|
        0 <= i < left.children.len() ==> {
            &&& (#[trigger] left.children[i]).entry == right.children[i].entry
            &&& is_entered_child(left.children[i], marker) ==> agree_outside_marked(
                left.children[i],
                right.children[i],
                marker,
            )
        }
}

proof fn lemma_subdirs_from(entries: Seq<EntryView>, marker: Seq<char>, i: int)
    requires
        0 <= i < entries.len(),
    ensures
        subdirs_in(entries.skip(i), marker) == (if entries[i].is_dir && entries[i].name != marker {
            seq![entries[i].path]
        } else {
            Seq::empty()
        }) + subdirs_in(entries.skip(i + 1), marker),
{
    let pred = |e: EntryView| e.is_dir && e.name != marker;
    let head = seq![entries[i]];
    let tail = entries.skip(i + 1);
    assert(entries.skip(i) =~= head + tail);
    Seq::filter_distributes_over_add(head, tail, pred);
    reveal_with_fuel(Seq::filter, 2);
    assert(head.drop_last() =~= Seq::<EntryView>::empty());
    assert(head.filter(pred) =~= if pred(entries[i]) {
        head
    } else {
        Seq::empty()
    });
    assert(subdirs_in(entries.skip(i), marker) =~= (if pred(entries[i]) {
        seq![entries[i].path]
    } else {
        Seq::empty()
    }) + subdirs_in(tail, marker));
}

proof fn lemma_files_from(entries: Seq<EntryView>, i: int)
    requires
        0 <= i < entries.len(),
    ensures
        files_in(entries.skip(i)) == (if !entries[i].is_dir {
            seq![entries[i].path]
        } else {
            Seq::empty()
        }) + files_in(entries.skip(i + 1)),
{
    let pred = |e: EntryView| !e.is_dir;
    let head = seq![entries[i]];
    let tail = entries.skip(i + 1);
    assert(entries.skip(i) =~= head + tail);
    Seq::filter_distributes_over_add(head, tail, pred);
    reveal_with_fuel(Seq::filter, 2);
    assert(head.drop_last() =~= Seq::<EntryView>::empty());
    assert(head.filter(pred) =~= if pred(entries[i]) {
        head
    } else {
        Seq::empty()
    });
    assert(files_in(entries.skip(i)) =~= (if pred(entries[i]) {
        seq![entries[i].path]
    } else {
        Seq::empty()
    }) + files_in(tail));
}

/// Walking a directory that is on top of the stack takes exactly the listings
/// of its trace, finds exactly the files under it, and leaves the stack as it
/// was below that directory.
pub proof fn lemma_walk_directory(
    dir: Tree,
    marker: Seq<char>,
    root: Seq<char>,
    listings: Seq<Option<Seq<EntryView>>>,
    before: Seq<Option<Seq<EntryView>>>,
    after: Seq<Option<Seq<EntryView>>>,
    below: Seq<Seq<char>>,
)
    requires
        listings == before + trace(dir, marker) + after,
        stack_after(root, marker, listings, before.len()) == below.push(dir.entry.path),
    ensures
        stack_after(root, marker, listings, before.len() + trace(dir, marker).len()) == below,
        found_after(root, marker, listings, before.len() + trace(dir, marker).len())
            == found_after(root, marker, listings, before.len()) + files_under(dir, marker),
    decreases dir, dir.children.len() + 1,
{
    let m = before.len();
    let entries = entries_of(dir);
    let stack = stack_after(root, marker, listings, m);
    assert(listings[m as int] == Some(entries));
    assert(stack.drop_last() =~= below);
    assert(stack_after(root, marker, listings, m + 1) == stack_step(stack, listings[m as int], marker));
    assert(entries.skip(0) =~= entries);
    let next = before + seq![Some(entries)];
    assert(listings =~= next + trace_from(dir, marker, 0) + after);
    lemma_walk_children(dir, marker, 0, root, listings, next, after, below);
    assert(found_after(root, marker, listings, m + 1) == found_after(root, marker, listings, m)
        + files_in(entries));
    assert(found_after(root, marker, listings, m) + files_in(entries) + files_from(dir, marker, 0)
        =~= found_after(root, marker, listings, m) + files_under(dir, marker));
}

/// Walking the children of a directory from index `i` on, when those that are
/// entered are on top of the stack: it takes their traces, finds the files
/// under them, and leaves the stack as it was below them.
pub proof fn lemma_walk_children(
    dir: Tree,
    marker: Seq<char>,
    i: nat,
    root: Seq<char>,
    listings: Seq<Option<Seq<EntryView>>>,
    before: Seq<Option<Seq<EntryView>>>,
    after: Seq<Option<Seq<EntryView>>>,
    below: Seq<Seq<char>>,
)
    requires
        i <= dir.children.len(),
        listings == before + trace_from(dir, marker, i) + after,
        stack_after(root, marker, listings, before.len()) == below + subdirs_in(
            entries_of(dir).skip(i as int),
            marker,
        ).reverse(),
    ensures
        stack_after(root, marker, listings, before.len() + trace_from(dir, marker, i).len())
            == below,
        found_after(root, marker, listings, before.len() + trace_from(dir, marker, i).len())
            == found_after(root, marker, listings, before.len()) + files_from(dir, marker, i),
    decreases dir, dir.children.len() - i,
{
    let m = before.len();
    let entries = entries_of(dir);
    let found = found_after(root, marker, listings, m);
    if i >= dir.children.len() {
        reveal(Seq::filter);
        assert(entries.skip(i as int) =~= Seq::<EntryView>::empty());
        assert(subdirs_in(entries.skip(i as int), marker).reverse() =~= Seq::<Seq<char>>::empty());
        assert(below + Seq::<Seq<char>>::empty() =~= below);
        assert(found + Seq::<Seq<char>>::empty() =~= found);
    } else {
        let child = dir.children[i as int];
        let rest = subdirs_in(entries.skip(i as int + 1), marker);
        lemma_subdirs_from(entries, marker, i as int);
        if is_entered_child(child, marker) {
            let lower = below + rest.reverse();
            assert(below + (seq![child.entry.path] + rest).reverse() =~= lower.push(
                child.entry.path,
            ));
            let walked = trace(child, marker);
            let later = trace_from(dir, marker, i + 1) + after;
            assert(listings =~= before + walked + later);
            lemma_walk_directory(child, marker, root, listings, before, later, lower);
            let next = before + walked;
            assert(listings =~= next + trace_from(dir, marker, i + 1) + after);
            lemma_walk_children(dir, marker, i + 1, root, listings, next, after, below);
            assert(found + files_under(child, marker) + files_from(dir, marker, i + 1) =~= found
                + files_from(dir, marker, i));
        } else {
            assert(Seq::<Seq<char>>::empty() + rest =~= rest);
            assert(trace_from(dir, marker, i) =~= trace_from(dir, marker, i + 1));
            lemma_walk_children(dir, marker, i + 1, root, listings, before, after, below);
            assert(files_from(dir, marker, i) =~= files_from(dir, marker, i + 1));
        }
    }
}

/// A run over a whole tree: the walker, started at the root and given the
/// listings of the tree as it asks for them, ends with nothing pending and has
/// found exactly the files under the root that no marked directory hides.
pub proof fn lemma_run_over_tree(root: Tree, marker: Seq<char>)
    ensures
        stack_after(
            root.entry.path,
            marker,
            trace(root, marker),
            trace(root, marker).len(),
        ).len() == 0,
        found_after(root.entry.path, marker, trace(root, marker), trace(root, marker).len())
            == files_under(root, marker),
{
    let listings = trace(root, marker);
    let nothing = Seq::<Option<Seq<EntryView>>>::empty();
    let below = Seq::<Seq<char>>::empty();
    assert(listings =~= nothing + listings + nothing);
    assert(stack_after(root.entry.path, marker, listings, 0) =~= below.push(root.entry.path));
    lemma_walk_directory(root, marker, root.entry.path, listings, nothing, nothing, below);
    assert(found_after(root.entry.path, marker, listings, 0) + files_under(root, marker)
        =~= files_under(root, marker));
}

/// In a tree without marked directories, the children of a directory from
/// index `i` on hold as many regular files as the walk finds in and under
/// them.
pub proof fn lemma_count_children(dir: Tree, marker: Seq<char>, i: nat)
    requires
        has_no_marked(dir, marker),
        i <= dir.children.len(),
    ensures
        files_in(entries_of(dir).skip(i as int)).len() + files_from(dir, marker, i).len()
            == file_count_from(dir, i),
    decreases dir, dir.children.len() - i,
{
    let entries = entries_of(dir);
    if i >= dir.children.len() {
        reveal(Seq::filter);
        assert(entries.skip(i as int) =~= Seq::<EntryView>::empty());
    } else {
        let child = dir.children[i as int];
        lemma_files_from(entries, i as int);
        lemma_count_children(dir, marker, i + 1);
        if child.entry.is_dir {
            lemma_count_files(child, marker);
        }
    }
}

/// In a tree without marked directories, the walk finds as many files as the
/// tree holds regular files, whatever its depth and fan-out.
pub proof fn lemma_count_files(dir: Tree, marker: Seq<char>)
    requires
        has_no_marked(dir, marker),
    ensures
        files_under(dir, marker).len() == file_count(dir),
    decreases dir, dir.children.len() + 1,
{
    assert(entries_of(dir).skip(0) =~= entries_of(dir));
    lemma_count_children(dir, marker, 0);
}

/// Over a tree without marked directories, a whole run finds as many files as
/// the tree holds regular files.
pub proof fn lemma_run_finds_every_file(root: Tree, marker: Seq<char>)
    requires
        has_no_marked(root, marker),
    ensures
        found_after(
            root.entry.path,
            marker,
            trace(root, marker),
            trace(root, marker).len(),
        ).len() == file_count(root),
{
    lemma_run_over_tree(root, marker);
    lemma_count_files(root, marker);
}

/// What lies beneath a marked directory is never seen: two trees that differ
/// only there are walked with the same listings and give the same files.
pub proof fn lemma_beneath_marked_is_unseen(left: Tree, right: Tree, marker: Seq<char>)
    requires
        agree_outside_marked(left, right, marker),
    ensures
        trace(left, marker) == trace(right, marker),
        files_under(left, marker) == files_under(right, marker),
    decreases left, left.children.len() + 1,
{
    assert forall|i: int| 0 <= i < left.children.len() implies left.children[i].entry
        == right.children[i].entry by {
        assert(left.children[i].entry == right.children[i].entry);
    }
    assert(entries_of(left) =~= entries_of(right));
    lemma_children_beneath_marked_are_unseen(left, right, marker, 0);
}

/// The same for the children of a directory from index `i` on.
pub proof fn lemma_children_beneath_marked_are_unseen(
    left: Tree,
    right: Tree,
    marker: Seq<char>,
    i: nat,
)
    requires
        agree_outside_marked(left, right, marker),
        i <= left.children.len(),
    ensures
        trace_from(left, marker, i) == trace_from(right, marker, i),
        files_from(left, marker, i) == files_from(right, marker, i),
    decreases left, left.children.len() - i,
{
    if i < left.children.len() {
        let child = left.children[i as int];
        assert(child.entry == right.children[i as int].entry);
        if is_entered_child(child, marker) {
            lemma_beneath_marked_is_unseen(child, right.children[i as int], marker);
        }
        lemma_children_beneath_marked_are_unseen(left, right, marker, i + 1);
    }
}

} // verus!
