//! Whole runs of the walker: what holds after any number of directories were
//! listed, whatever the listings held.
//!
//! A run is given by its root, the marker and the listings in the order in
//! which the walker asked for them; `None` stands for a directory that could
//! not be listed.

use crate::walker::{
    files_in, listing_files, listing_subdirs, path_views, subdirs_in, EntryView, Listing, Walker,
};
use vstd::prelude::*;

verus! {

/// The stack after one round of the walker: the directory on top was taken
/// and its listing visited. With nothing pending, nothing changes.
pub open spec fn stack_step(
    stack: Seq<Seq<char>>,
    listing: Option<Seq<EntryView>>,
    marker: Seq<char>,
) -> Seq<Seq<char>> {
    if stack.len() == 0 {
        stack
    } else {
        stack.drop_last() + listing_subdirs(listing, marker).reverse()
    }
}

/// The stack of pending directories after the first `n` listings of a run.
pub open spec fn stack_after(
    root: Seq<char>,
    marker: Seq<char>,
    listings: Seq<Option<Seq<EntryView>>>,
    n: nat,
) -> Seq<Seq<char>>
    decreases n,
{
    if n == 0 {
        seq![root]
    } else {
        stack_step(stack_after(root, marker, listings, (n - 1) as nat), listings[n - 1], marker)
    }
}

/// The files returned during the first `n` listings of a run, in order.
pub open spec fn found_after(
    root: Seq<char>,
    marker: Seq<char>,
    listings: Seq<Option<Seq<EntryView>>>,
    n: nat,
) -> Seq<Seq<char>>
    decreases n,
{
    if n == 0 {
        Seq::empty()
    } else {
        let found = found_after(root, marker, listings, (n - 1) as nat);
        if stack_after(root, marker, listings, (n - 1) as nat).len() == 0 {
            found
        } else {
            found + listing_files(listings[n - 1])
        }
    }
}

/// Recorded listings as contracts see them.
pub open spec fn listing_views(listings: Seq<Listing>) -> Seq<Option<Seq<EntryView>>> {
    Seq::new(listings.len(), |k: int| listings[k]@)
}

/// Runs a walker from `root` over listings that were recorded beforehand,
/// handing it one listing for each directory it asks for, and returns the
/// files it finds, in order. Listings that are left once nothing is pending
/// are not used.
pub fn walk_recorded(root: String, marker: String, listings: &Vec<Listing>) -> (found: Vec<String>)
    ensures
        path_views(found@) == found_after(
            root@,
            marker@,
            listing_views(listings@),
            listings@.len(),
        ),
{
    let ghost recorded = listing_views(listings@);
    let mut walker = Walker::with_marker(root, marker);
    let mut found: Vec<String> = Vec::new();
    let mut i: usize = 0;
    assert(path_views(found@) =~= Seq::<Seq<char>>::empty());
    while i < listings.len()
        invariant
            i <= listings.len(),
            recorded == listing_views(listings@),
            walker.marker() == marker@,
            walker.pending() == stack_after(root@, marker@, recorded, i as nat),
            path_views(found@) == found_after(root@, marker@, recorded, i as nat),
        decreases listings.len() - i,
    {
        let ghost found_before = found@;
        match walker.next_directory() {
            Some(_) => {
                let mut files = walker.visit(&listings[i]);
                let ghost new_files = files@;
                found.append(&mut files);
                assert(path_views(found@) =~= path_views(found_before) + path_views(new_files));
            },
            None => {},
        }
        i += 1;
    }
    found
}

/// Whether entry `i` of listing `k` is a directory that is not named `marker`.
pub open spec fn is_entered(
    listings: Seq<Option<Seq<EntryView>>>,
    marker: Seq<char>,
    k: int,
    i: int,
) -> bool {
    &&& 0 <= k < listings.len()
    &&& listings[k] matches Some(entries)
    &&& 0 <= i < entries.len()
    &&& entries[i].is_dir
    &&& entries[i].name != marker
}

/// Whether entry `i` of listing `k` is a file.
pub open spec fn is_hashed(listings: Seq<Option<Seq<EntryView>>>, k: int, i: int) -> bool {
    &&& 0 <= k < listings.len()
    &&& listings[k] matches Some(entries)
    &&& 0 <= i < entries.len()
    &&& !entries[i].is_dir
}

/// The path of entry `i` of listing `k`.
pub open spec fn path_at(listings: Seq<Option<Seq<EntryView>>>, k: int, i: int) -> Seq<char> {
    listings[k].unwrap()[i].path
}

/// A listing without its directories named `marker`.
pub open spec fn without_marked(listing: Option<Seq<EntryView>>, marker: Seq<char>) -> Option<
    Seq<EntryView>,
> {
    match listing {
        Some(entries) => Some(entries.filter(|e: EntryView| !(e.is_dir && e.name == marker))),
        None => None,
    }
}

/// The listings of a run, each without its directories named `marker`.
pub open spec fn all_without_marked(
    listings: Seq<Option<Seq<EntryView>>>,
    marker: Seq<char>,
) -> Seq<Option<Seq<EntryView>>> {
    Seq::new(listings.len(), |k: int| without_marked(listings[k], marker))
}

/// The number of files among the entries of the first `n` listings of a run,
/// counting each listing that the walker asked for.
pub open spec fn files_listed(
    root: Seq<char>,
    marker: Seq<char>,
    listings: Seq<Option<Seq<EntryView>>>,
    n: nat,
) -> nat
    decreases n,
{
    if n == 0 {
        0
    } else {
        let before = files_listed(root, marker, listings, (n - 1) as nat);
        if stack_after(root, marker, listings, (n - 1) as nat).len() == 0 {
            before
        } else {
            match listings[n - 1] {
                Some(entries) => before + entries.filter(|e: EntryView| !e.is_dir).len(),
                None => before,
            }
        }
    }
}

/// The number of directories not named `marker` among the entries of the first
/// `n` listings.
pub open spec fn dirs_entered(
    marker: Seq<char>,
    listings: Seq<Option<Seq<EntryView>>>,
    n: nat,
) -> nat
    decreases n,
{
    if n == 0 {
        0
    } else {
        dirs_entered(marker, listings, (n - 1) as nat) + listing_subdirs(
            listings[n - 1],
            marker,
        ).len()
    }
}

/// Every directory that a listing gives to enter is a directory entry of that
/// listing whose name is not the marker.
pub proof fn lemma_subdirs_are_unmarked_entries(
    entries: Seq<EntryView>,
    marker: Seq<char>,
    j: int,
)
    requires
        0 <= j < subdirs_in(entries, marker).len(),
    ensures
        exists|i: int|
            0 <= i < entries.len() && (#[trigger] entries[i]).is_dir && entries[i].name != marker
                && entries[i].path == subdirs_in(entries, marker)[j],
    decreases entries.len(),
{
    reveal(Seq::filter);
    let pred = |e: EntryView| e.is_dir && e.name != marker;
    let kept = entries.filter(pred);
    if entries.len() > 0 {
        let front = entries.drop_last();
        if pred(entries.last()) && j == kept.len() - 1 {
            let i = entries.len() - 1;
            assert(entries[i].path == subdirs_in(entries, marker)[j]);
        } else {
            assert(front.filter(pred)[j] == kept[j]);
            lemma_subdirs_are_unmarked_entries(front, marker, j);
            let i = choose|i: int|
                0 <= i < front.len() && (#[trigger] front[i]).is_dir && front[i].name != marker
                    && front[i].path == subdirs_in(front, marker)[j];
            assert(entries[i] == front[i]);
        }
    }
}

/// Every file that a listing gives is a file entry of that listing.
pub proof fn lemma_files_are_file_entries(entries: Seq<EntryView>, j: int)
    requires
        0 <= j < files_in(entries).len(),
    ensures
        exists|i: int|
            0 <= i < entries.len() && !(#[trigger] entries[i]).is_dir && entries[i].path
                == files_in(entries)[j],
    decreases entries.len(),
{
    reveal(Seq::filter);
    let pred = |e: EntryView| !e.is_dir;
    let kept = entries.filter(pred);
    if entries.len() > 0 {
        let front = entries.drop_last();
        if pred(entries.last()) && j == kept.len() - 1 {
            let i = entries.len() - 1;
            assert(entries[i].path == files_in(entries)[j]);
        } else {
            assert(front.filter(pred)[j] == kept[j]);
            lemma_files_are_file_entries(front, j);
            let i = choose|i: int|
                0 <= i < front.len() && !(#[trigger] front[i]).is_dir && front[i].path == files_in(
                    front,
                )[j];
            assert(entries[i] == front[i]);
        }
    }
}

/// No directory named as the marker is ever listed: at every point of a run,
/// each pending directory is the root or a directory entry, not named as the
/// marker, of a listing that came before.
pub proof fn lemma_pending_is_root_or_unmarked(
    root: Seq<char>,
    marker: Seq<char>,
    listings: Seq<Option<Seq<EntryView>>>,
    n: nat,
    j: int,
)
    requires
        n <= listings.len(),
        0 <= j < stack_after(root, marker, listings, n).len(),
    ensures
        stack_after(root, marker, listings, n)[j] == root || exists|k: int, i: int|
            k < n && #[trigger] is_entered(listings, marker, k, i) && path_at(listings, k, i)
                == stack_after(root, marker, listings, n)[j],
    decreases n,
{
    if n > 0 {
        let before = stack_after(root, marker, listings, (n - 1) as nat);
        let pushed = listing_subdirs(listings[n - 1], marker).reverse();
        if before.len() == 0 {
        } else if j < before.len() - 1 {
            lemma_pending_is_root_or_unmarked(root, marker, listings, (n - 1) as nat, j);
            let p = before[j];
            if p != root {
                let (k, i) = choose|k: int, i: int|
                    k < n - 1 && #[trigger] is_entered(listings, marker, k, i) && path_at(
                        listings,
                        k,
                        i,
                    ) == p;
                assert(k < n && is_entered(listings, marker, k, i) && path_at(listings, k, i) == p);
            }
        } else {
            let entries = listings[n - 1].unwrap();
            let dirs = subdirs_in(entries, marker);
            let at = dirs.len() - 1 - (j - (before.len() - 1));
            assert(stack_after(root, marker, listings, n)[j] == dirs[at]);
            lemma_subdirs_are_unmarked_entries(entries, marker, at);
            let i = choose|i: int|
                0 <= i < entries.len() && (#[trigger] entries[i]).is_dir && entries[i].name
                    != marker && entries[i].path == dirs[at];
            assert(is_entered(listings, marker, n - 1, i));
            assert(path_at(listings, n - 1, i) == dirs[at]);
        }
    }
}

/// Every file found in a run is a file entry of one of the listings so far.
pub proof fn lemma_found_is_file_entry(
    root: Seq<char>,
    marker: Seq<char>,
    listings: Seq<Option<Seq<EntryView>>>,
    n: nat,
    j: int,
)
    requires
        n <= listings.len(),
        0 <= j < found_after(root, marker, listings, n).len(),
    ensures
        exists|k: int, i: int|
            k < n && #[trigger] is_hashed(listings, k, i) && path_at(listings, k, i)
                == found_after(root, marker, listings, n)[j],
    decreases n,
{
    if n > 0 {
        let found = found_after(root, marker, listings, (n - 1) as nat);
        if j < found.len() {
            lemma_found_is_file_entry(root, marker, listings, (n - 1) as nat, j);
            let p = found[j];
            let (k, i) = choose|k: int, i: int|
                k < n - 1 && #[trigger] is_hashed(listings, k, i) && path_at(listings, k, i) == p;
            assert(k < n && is_hashed(listings, k, i) && path_at(listings, k, i) == p);
        } else {
            let entries = listings[n - 1].unwrap();
            let at = j - found.len();
            lemma_files_are_file_entries(entries, at);
            let i = choose|i: int|
                0 <= i < entries.len() && !(#[trigger] entries[i]).is_dir && entries[i].path
                    == files_in(entries)[at];
            assert(is_hashed(listings, n - 1, i));
            assert(path_at(listings, n - 1, i) == files_in(entries)[at]);
        }
    }
}

/// The number of files found in a run is the number of file entries in the
/// listings that the walker asked for.
pub proof fn lemma_found_count(
    root: Seq<char>,
    marker: Seq<char>,
    listings: Seq<Option<Seq<EntryView>>>,
    n: nat,
)
    requires
        n <= listings.len(),
    ensures
        found_after(root, marker, listings, n).len() == files_listed(root, marker, listings, n),
    decreases n,
{
    if n > 0 {
        lemma_found_count(root, marker, listings, (n - 1) as nat);
    }
}

/// Each directory that the walker was given to enter is listed once: as long
/// as a run has not ended, the directories listed and those still pending are
/// the root and the unmarked directory entries seen so far. So a run that ends
/// after `n` listings has listed the root and every such entry, and no more.
pub proof fn lemma_every_entered_directory_is_listed(
    root: Seq<char>,
    marker: Seq<char>,
    listings: Seq<Option<Seq<EntryView>>>,
    n: nat,
)
    requires
        n <= listings.len(),
        forall|k: nat| k < n ==> #[trigger] stack_after(root, marker, listings, k).len() > 0,
    ensures
        n + stack_after(root, marker, listings, n).len() == 1 + dirs_entered(marker, listings, n),
    decreases n,
{
    if n > 0 {
        lemma_every_entered_directory_is_listed(root, marker, listings, (n - 1) as nat);
        assert(stack_after(root, marker, listings, (n - 1) as nat).len() > 0);
    }
}

/// Filtering twice, first by a condition that the second implies, is
/// filtering by the second alone.
pub proof fn lemma_filter_after_wider_filter(
    entries: Seq<EntryView>,
    wide: spec_fn(EntryView) -> bool,
    narrow: spec_fn(EntryView) -> bool,
)
    requires
        forall|e: EntryView| #[trigger] narrow(e) ==> wide(e),
    ensures
        entries.filter(wide).filter(narrow) == entries.filter(narrow),
    decreases entries.len(),
{
    reveal(Seq::filter);
    if entries.len() > 0 {
        let front = entries.drop_last();
        let last = entries.last();
        lemma_filter_after_wider_filter(front, wide, narrow);
        if wide(last) {
            let kept = front.filter(wide).push(last);
            assert(kept.drop_last() =~= front.filter(wide));
            assert(kept.last() == last);
        }
    }
}

/// A directory named as the marker is as if absent from its listing: taking
/// such entries out changes neither the files that the listing gives nor the
/// directories that it gives to enter.
pub proof fn lemma_marked_entries_change_nothing(
    listing: Option<Seq<EntryView>>,
    marker: Seq<char>,
)
    ensures
        listing_files(without_marked(listing, marker)) == listing_files(listing),
        listing_subdirs(without_marked(listing, marker), marker) == listing_subdirs(
            listing,
            marker,
        ),
{
    if let Some(entries) = listing {
        let unmarked = |e: EntryView| !(e.is_dir && e.name == marker);
        lemma_filter_after_wider_filter(entries, unmarked, |e: EntryView| !e.is_dir);
        lemma_filter_after_wider_filter(
            entries,
            unmarked,
            |e: EntryView| e.is_dir && e.name != marker,
        );
    }
}

/// A whole run is the same with and without the marked directories in its
/// listings: the same directories are pending and the same files are found,
/// after every number of listings.
pub proof fn lemma_run_ignores_marked(
    root: Seq<char>,
    marker: Seq<char>,
    listings: Seq<Option<Seq<EntryView>>>,
    n: nat,
)
    requires
        n <= listings.len(),
    ensures
        stack_after(root, marker, all_without_marked(listings, marker), n) == stack_after(
            root,
            marker,
            listings,
            n,
        ),
        found_after(root, marker, all_without_marked(listings, marker), n) == found_after(
            root,
            marker,
            listings,
            n,
        ),
    decreases n,
{
    if n > 0 {
        lemma_run_ignores_marked(root, marker, listings, (n - 1) as nat);
        lemma_marked_entries_change_nothing(listings[n - 1], marker);
    }
}

} // verus!
