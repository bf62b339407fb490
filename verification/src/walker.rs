//! The directory walker's decisions: which entries of a listing are files to
//! hash, which are directories to list next, and in what order.
//!
//! The walker never touches the file system. Its user lists the directory the
//! walker names and hands the listing back.

use vstd::prelude::*;

verus! {

/// The name of the directories that a walker skips unless told otherwise.
pub const IGNORE_MARKER: &'static str = ".ignore";

/// One entry of a directory listing.
#[derive(Debug)]
pub struct Entry {
    /// The entry's path.
    pub path: String,
    /// The last component of the path.
    pub name: String,
    /// Whether the entry is a directory.
    pub is_dir: bool,
}

/// An entry as contracts see it.
pub struct EntryView {
    pub path: Seq<char>,
    pub name: Seq<char>,
    pub is_dir: bool,
}

impl View for Entry {
    type V = EntryView;

    open spec fn view(&self) -> EntryView {
        EntryView { path: self.path@, name: self.name@, is_dir: self.is_dir }
    }
}

/// What came of listing a directory.
#[derive(Debug)]
pub enum Listing {
    /// Its entries, in the order the file system gave them.
    Entries(Vec<Entry>),
    /// The directory could not be listed.
    Unreadable,
}

impl View for Listing {
    type V = Option<Seq<EntryView>>;

    open spec fn view(&self) -> Option<Seq<EntryView>> {
        match *self {
            Listing::Entries(entries) => Some(entry_views(entries@)),
            Listing::Unreadable => None,
        }
    }
}

/// The entries of a listing as contracts see them.
pub open spec fn entry_views(entries: Seq<Entry>) -> Seq<EntryView> {
    entries.map_values(|e: Entry| e@)
}

/// The paths of a vector of strings.
pub open spec fn path_views(paths: Seq<String>) -> Seq<Seq<char>> {
    paths.map_values(|p: String| p@)
}

/// The paths of the files of a listing, in listing order.
pub open spec fn files_in(listing: Seq<EntryView>) -> Seq<Seq<char>> {
    listing.filter(|e: EntryView| !e.is_dir).map_values(|e: EntryView| e.path)
}

/// The paths of the directories of a listing that are not named `marker`, in
/// listing order.
pub open spec fn subdirs_in(listing: Seq<EntryView>, marker: Seq<char>) -> Seq<Seq<char>> {
    listing.filter(|e: EntryView| e.is_dir && e.name != marker).map_values(|e: EntryView| e.path)
}

/// The files that a listing gives: none where the directory was unreadable.
pub open spec fn listing_files(listing: Option<Seq<EntryView>>) -> Seq<Seq<char>> {
    match listing {
        Some(entries) => files_in(entries),
        None => Seq::empty(),
    }
}

/// The directories that a listing gives to enter: none where the directory was
/// unreadable.
pub open spec fn listing_subdirs(listing: Option<Seq<EntryView>>, marker: Seq<char>) -> Seq<
    Seq<char>,
> {
    match listing {
        Some(entries) => subdirs_in(entries, marker),
        None => Seq::empty(),
    }
}

/// The walker: the directories that are still to be listed, as a stack, and the
/// one directory name that is never entered.
pub struct Walker {
    marker: String,
    pending: Vec<String>,
}

impl Walker {
    /// The directories still to be listed; the last one is listed next.
    pub closed spec fn pending(&self) -> Seq<Seq<char>> {
        path_views(self.pending@)
    }

    /// The name of the directories that are skipped.
    pub closed spec fn marker(&self) -> Seq<char> {
        self.marker@
    }

    /// A walker that starts at `root` and skips directories named `.ignore`.
    pub fn new(root: String) -> (walker: Self)
        ensures
            walker.pending() == seq![root@],
            walker.marker() == IGNORE_MARKER@,
            walker.marker() == ".ignore"@,
    {
        Walker::with_marker(root, String::from_str(IGNORE_MARKER))
    }

    /// A walker that starts at `root` and skips directories named `marker`.
    pub fn with_marker(root: String, marker: String) -> (walker: Self)
        ensures
            walker.pending() == seq![root@],
            walker.marker() == marker@,
    {
        let mut pending: Vec<String> = Vec::new();
        pending.push(root);
        assert(path_views(pending@) =~= seq![root@]);
        Walker { marker, pending }
    }

    /// Whether every directory has been listed.
    pub fn is_done(&self) -> (done: bool)
        ensures
            done == (self.pending().len() == 0),
    {
        self.pending.len() == 0
    }

    /// Takes the directory that is to be listed next, if one is left.
    pub fn next_directory(&mut self) -> (dir: Option<String>)
        ensures
            final(self).marker() == old(self).marker(),
            match dir {
                Some(d) => old(self).pending().len() > 0 && d@ == old(self).pending().last()
                    && final(self).pending() == old(self).pending().drop_last(),
                None => old(self).pending().len() == 0 && final(self).pending() == old(
                    self,
                ).pending(),
            },
    {
        let dir = self.pending.pop();
        if dir.is_some() {
            assert(path_views(self.pending@) =~= path_views(old(self).pending@).drop_last());
        }
        dir
    }

    /// Takes the listing of the directory that `next_directory` named. Returns
    /// the files to hash, in listing order, and puts the directories of the
    /// listing on the stack so that they are listed in listing order, after all
    /// of these files were returned. A directory named as the marker is left
    /// out. An unreadable directory yields nothing and leaves the other
    /// pending directories as they are.
    pub fn visit(&mut self, listing: &Listing) -> (files: Vec<String>)
        ensures
            final(self).marker() == old(self).marker(),
            path_views(files@) == listing_files(listing@),
            final(self).pending() == old(self).pending() + listing_subdirs(
                listing@,
                old(self).marker(),
            ).reverse(),
    {
        let mut files: Vec<String> = Vec::new();
        match listing {
            Listing::Unreadable => {
                assert(path_views(files@) =~= Seq::<Seq<char>>::empty());
                assert(self.pending() =~= old(self).pending() + Seq::<Seq<char>>::empty().reverse());
            },
            Listing::Entries(entries) => {
                let mut dirs: Vec<String> = Vec::new();
                let ghost all = entry_views(entries@);
                let ghost marker = self.marker@;
                let mut i: usize = 0;
                proof {
                    reveal(Seq::filter);
                    assert(all.take(0) =~= Seq::<EntryView>::empty());
                    assert(path_views(files@) =~= files_in(all.take(0)));
                    assert(path_views(dirs@) =~= subdirs_in(all.take(0), marker));
                }
                while i < entries.len()
                    invariant
                        i <= entries.len(),
                        all == entry_views(entries@),
                        marker == self.marker@,
                        self.pending@ == old(self).pending@,
                        path_views(files@) == files_in(all.take(i as int)),
                        path_views(dirs@) == subdirs_in(all.take(i as int), marker),
                    decreases entries.len() - i,
                {
                    let entry = &entries[i];
                    proof {
                        reveal(Seq::filter);
                        assert(all.take(i + 1).drop_last() =~= all.take(i as int));
                        assert(all.take(i + 1).last() == entry@);
                    }
                    let ghost files_before = files@;
                    let ghost dirs_before = dirs@;
                    if !entry.is_dir {
                        files.push(entry.path.clone());
                        assert(path_views(files@) =~= path_views(files_before).push(entry.path@));
                    } else if entry.name != self.marker {
                        dirs.push(entry.path.clone());
                        assert(path_views(dirs@) =~= path_views(dirs_before).push(entry.path@));
                    }
                    assert(path_views(files@) =~= files_in(all.take(i + 1)));
                    assert(path_views(dirs@) =~= subdirs_in(all.take(i + 1), marker));
                    i += 1;
                }
                assert(all.take(i as int) =~= all);
                let ghost found = path_views(dirs@);
                let mut left: usize = dirs.len();
                assert(path_views(self.pending@) =~= old(self).pending() + found.reverse().take(0));
                while left > 0
                    invariant
                        left <= dirs.len(),
                        left == dirs@.len(),
                        marker == self.marker@,
                        found.len() >= left,
                        path_views(dirs@) == found.take(left as int),
                        path_views(self.pending@) == old(self).pending() + found.reverse().take(
                            found.len() - left,
                        ),
                    decreases left,
                {
                    let ghost pending_before = self.pending@;
                    let ghost dirs_before = dirs@;
                    let dir = dirs.pop().unwrap();
                    left -= 1;
                    self.pending.push(dir);
                    proof {
                        assert(dir@ == path_views(dirs_before)[left as int]);
                        assert(path_views(dirs@) =~= found.take(left as int));
                        assert(path_views(self.pending@) =~= path_views(pending_before).push(dir@));
                        assert(path_views(self.pending@) =~= old(self).pending()
                            + found.reverse().take(found.len() - left));
                    }
                }
                assert(found.reverse().take(found.len() as int) =~= found.reverse());
            },
        }
        files
    }
}

} // verus!
