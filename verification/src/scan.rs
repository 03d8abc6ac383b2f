//! The scanner: which directories under a root are project roots.
//!
//! A directory that holds a marker, a subdirectory named `.git`, is a project
//! root: it is reported and not looked into. Any other directory is searched
//! entry by entry, depth first, and what is not a directory is passed over.
//!
//! [`Scanner`] holds the decisions of the walk and leaves the file system to
//! its caller: it says what it needs to know next, and takes the answer. It
//! keeps the directories still to visit in a list of its own, so the depth of
//! a tree costs it memory and no call stack.

use vstd::prelude::*;
use vstd::utf8::*;
use crate::path::{join_bytes, lemma_views_push, views, ProjectPath};

verus! {

/// The name of the subdirectory that marks a project root.
pub const MARKER: &'static str = ".git";

/// The path of the marker of the directory `directory`.
pub open spec fn marker_of(directory: Seq<u8>) -> Seq<u8> {
    join_bytes(directory, encode_utf8(MARKER@))
}

/// One entry of a directory, as a listing of the directory reports it.
#[derive(Debug)]
pub struct Listed {
    /// The path of the entry.
    pub path: ProjectPath,
    /// Whether the entry is a directory.
    pub is_dir: bool,
}

/// A [`Listed`] with its path as bytes.
pub struct ListedView {
    pub path: Seq<u8>,
    pub is_dir: bool,
}

impl View for Listed {
    type V = ListedView;

    open spec fn view(&self) -> ListedView {
        ListedView { path: self.path@, is_dir: self.is_dir }
    }
}

/// The views of the entries of a listing, in order.
pub open spec fn listing(entries: Seq<Listed>) -> Seq<ListedView> {
    entries.map_values(|entry: Listed| entry@)
}

/// What the scanner needs from the file system next.
#[derive(Debug)]
pub enum Request {
    /// Whether `marker`, the marker of `directory`, exists and is a directory:
    /// answer with [`Scanner::probed`].
    Probe { directory: ProjectPath, marker: ProjectPath },
    /// The entries of `directory`: answer with [`Scanner::listed`].
    List { directory: ProjectPath },
    /// Nothing: the walk is over.
    Done,
}

/// A [`Request`] with its paths as bytes.
pub enum RequestView {
    Probe { directory: Seq<u8>, marker: Seq<u8> },
    List { directory: Seq<u8> },
    Done,
}

impl View for Request {
    type V = RequestView;

    open spec fn view(&self) -> RequestView {
        match *self {
            Request::Probe { directory, marker } => RequestView::Probe {
                directory: directory@,
                marker: marker@,
            },
            Request::List { directory } => RequestView::List { directory: directory@ },
            Request::Done => RequestView::Done,
        }
    }
}

/// The directories among `entries`, the last of them first: the order in
/// which they go on a stack whose top is its end, so that the first comes off
/// first.
pub open spec fn descent(entries: Seq<ListedView>) -> Seq<Seq<u8>>
    decreases entries.len(),
{
    if entries.len() == 0 {
        Seq::empty()
    } else if entries[0].is_dir {
        descent(entries.drop_first()).push(entries[0].path)
    } else {
        descent(entries.drop_first())
    }
}

/// Only directories are walked into: whatever a listing sends the walk down
/// is the path of an entry that is a directory.
pub proof fn lemma_descent_skips_files(entries: Seq<ListedView>, path: Seq<u8>)
    requires
        descent(entries).contains(path),
    ensures
        exists|i: int|
            0 <= i < entries.len() && (#[trigger] entries[i]).is_dir && entries[i].path == path,
    decreases entries.len(),
{
    if entries.len() > 0 {
        let rest = descent(entries.drop_first());
        let k = choose|k: int| 0 <= k < descent(entries).len() && descent(entries)[k] == path;
        if entries[0].is_dir && k == rest.len() {
            assert(entries[0].is_dir && entries[0].path == path);
        } else {
            assert(rest[k] == path);
            lemma_descent_skips_files(entries.drop_first(), path);
            let i = choose|i: int|
                0 <= i < entries.drop_first().len() && (#[trigger] entries.drop_first()[i]).is_dir
                    && entries.drop_first()[i].path == path;
            assert(entries[i + 1].is_dir && entries[i + 1].path == path);
        }
    }
}

/// A walk as a mathematical value.
pub struct ScannerView {
    /// The project roots found so far, in the order in which they were found.
    pub found: Seq<Seq<u8>>,
    /// The directories still to visit; the next one is the last.
    pub pending: Seq<Seq<u8>>,
    /// Whether the next directory is known to have no marker, so that its
    /// entries are what is needed.
    pub listing: bool,
}

impl ScannerView {
    /// A listing can only be due for a directory that is there.
    pub open spec fn wf(self) -> bool {
        self.listing ==> self.pending.len() > 0
    }

    /// What the walk needs next.
    pub open spec fn request(self) -> RequestView {
        if self.pending.len() == 0 {
            RequestView::Done
        } else if self.listing {
            RequestView::List { directory: self.pending.last() }
        } else {
            RequestView::Probe {
                directory: self.pending.last(),
                marker: marker_of(self.pending.last()),
            }
        }
    }

    /// The walk once it is known whether the next directory has a marker. A
    /// directory with a marker is a project root and is done with; one
    /// without is listed next. An answer that was not asked for changes
    /// nothing.
    pub open spec fn probed(self, marked: bool) -> ScannerView {
        if self.pending.len() == 0 || self.listing {
            self
        } else if marked {
            ScannerView {
                found: self.found.push(self.pending.last()),
                pending: self.pending.drop_last(),
                listing: false,
            }
        } else {
            ScannerView { listing: true, ..self }
        }
    }

    /// The walk once the entries of the next directory are known: the
    /// directory is done with, and the directories among its entries are
    /// visited next, the first of them first. A listing that was not asked for
    /// changes nothing.
    pub open spec fn listed(self, entries: Seq<ListedView>) -> ScannerView {
        if !self.listing {
            self
        } else {
            ScannerView {
                found: self.found,
                pending: self.pending.drop_last() + descent(entries),
                listing: false,
            }
        }
    }
}

/// A walk over the directories under one root.
pub struct Scanner {
    found: Vec<ProjectPath>,
    pending: Vec<ProjectPath>,
    listing: bool,
}

impl View for Scanner {
    type V = ScannerView;

    closed spec fn view(&self) -> ScannerView {
        ScannerView {
            found: views(self.found@),
            pending: views(self.pending@),
            listing: self.listing,
        }
    }
}

impl Scanner {
    /// The invariant of the walk.
    pub open spec fn inv(&self) -> bool {
        self@.wf()
    }

    /// A walk that starts at `root` and adds what it finds to `found`.
    pub fn new(root: ProjectPath, found: Vec<ProjectPath>) -> (scanner: Scanner)
        ensures
            scanner.inv(),
            scanner@ == (ScannerView {
                found: views(found@),
                pending: seq![root@],
                listing: false,
            }),
    {
        let mut pending: Vec<ProjectPath> = Vec::new();
        proof {
            lemma_views_push(pending@, root);
        }
        pending.push(root);
        let scanner = Scanner { found, pending, listing: false };
        assert(scanner@.pending =~= seq![root@]);
        scanner
    }

    /// What the walk needs next.
    pub fn request(&self) -> (request: Request)
        ensures
            request@ == self@.request(),
    {
        let n: usize = self.pending.len();
        if n == 0 {
            Request::Done
        } else if self.listing {
            Request::List { directory: self.pending[n - 1].clone() }
        } else {
            let directory = self.pending[n - 1].clone();
            let marker = directory.join(MARKER);
            Request::Probe { directory, marker }
        }
    }

    /// Takes the answer to [`Request::Probe`]: whether the marker exists and
    /// is a directory.
    pub fn probed(&mut self, marked: bool)
        requires
            old(self).inv(),
        ensures
            final(self).inv(),
            final(self)@ == old(self)@.probed(marked),
    {
        if self.pending.len() == 0 || self.listing {
            return ;
        }
        if marked {
            let ghost before = self.pending@;
            match self.pending.pop() {
                Some(directory) => {
                    proof {
                        lemma_views_push(self.found@, directory);
                        assert(views(self.pending@) =~= views(before).drop_last());
                        assert(views(before).last() == directory@);
                    }
                    self.found.push(directory);
                },
                None => {},
            }
        } else {
            self.listing = true;
        }
    }

    /// Takes the answer to [`Request::List`]: the entries of the directory.
    pub fn listed(&mut self, entries: Vec<Listed>)
        requires
            old(self).inv(),
        ensures
            final(self).inv(),
            final(self)@ == old(self)@.listed(listing(entries@)),
    {
        if !self.listing {
            return ;
        }
        let ghost before = self.pending@;
        let _ = self.pending.pop();
        self.listing = false;
        let ghost base = views(self.pending@);
        assert(base =~= views(before).drop_last());
        let ghost all = listing(entries@);
        let mut rest = entries;
        assert(all.subrange(all.len() as int, all.len() as int) =~= Seq::<ListedView>::empty());
        while rest.len() > 0
            invariant
                listing(rest@) == all.take(rest.len() as int),
                rest.len() <= all.len(),
                !self.listing,
                self.found == old(self).found,
                views(self.pending@) == base + descent(
                    all.subrange(rest.len() as int, all.len() as int),
                ),
            decreases rest.len(),
        {
            let ghost n = rest.len() as int;
            match rest.pop() {
                Some(entry) => {
                    proof {
                        assert(entry@ == all.take(n)[n - 1]);
                        assert(all.subrange(n - 1, all.len() as int).drop_first() =~= all.subrange(
                            n,
                            all.len() as int,
                        ));
                        assert(listing(rest@) =~= all.take(n - 1));
                    }
                    if entry.is_dir {
                        proof {
                            lemma_views_push(self.pending@, entry.path);
                        }
                        self.pending.push(entry.path);
                        assert(views(self.pending@) =~= base + descent(
                            all.subrange(n - 1, all.len() as int),
                        ));
                    }
                },
                None => {},
            }
        }
        assert(all.subrange(0, all.len() as int) =~= all);
    }

    /// The project roots found so far. Once the walk is over, that is all of
    /// them.
    pub fn into_found(self) -> (found: Vec<ProjectPath>)
        ensures
            views(found@) == self@.found,
    {
        self.found
    }
}

} // verus!
