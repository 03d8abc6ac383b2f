//! Directory trees held in memory, what a scan of one yields, and the scan
//! itself, run by a [`Scanner`] that the tree answers.

use vstd::prelude::*;
use vstd::pervasive::unreached;
use crate::error::{Error, ErrorView};
use crate::path::{absolute_bytes, views, ProjectPath};
use crate::scan::{descent, listing, marker_of, Listed, ListedView, Request, Scanner};

verus! {

/// An entry of a directory.
#[derive(Debug)]
pub enum Entry {
    /// Anything that is not a directory, by its path.
    File(ProjectPath),
    /// A subdirectory.
    Dir(Directory),
}

/// A directory: its path and its entries, in the order in which a listing
/// reports them. A directory that cannot be read has no entries to show.
#[derive(Debug)]
pub struct Directory {
    pub path: ProjectPath,
    pub entries: Option<Vec<Entry>>,
}

/// An [`Entry`] as a mathematical value.
pub enum EntryView {
    File(Seq<u8>),
    Dir(DirectoryView),
}

/// A [`Directory`] as a mathematical value: a tree.
pub struct DirectoryView {
    pub path: Seq<u8>,
    pub entries: Option<Seq<EntryView>>,
}

/// The value of an entry.
pub open spec fn entry_view(entry: Entry) -> EntryView
    decreases entry,
{
    match entry {
        Entry::File(path) => EntryView::File(path@),
        Entry::Dir(inner) => EntryView::Dir(directory_view(inner)),
    }
}

/// The value of a directory.
pub open spec fn directory_view(directory: Directory) -> DirectoryView
    decreases directory,
{
    DirectoryView {
        path: directory.path@,
        entries: match directory.entries {
            None => None,
            Some(entries) => Some(entry_views(entries@)),
        },
    }
}

/// The values of the entries of a directory, in order.
pub open spec fn entry_views(entries: Seq<Entry>) -> Seq<EntryView>
    decreases entries,
{
    Seq::new(
        entries.len(),
        |i: int|
            if 0 <= i < entries.len() {
                entry_view(entries[i])
            } else {
                arbitrary()
            },
    )
}

/// The values of a sequence of directories, in order.
pub open spec fn directory_views(directories: Seq<Directory>) -> Seq<DirectoryView> {
    directories.map_values(|directory: Directory| directory@)
}

impl View for Entry {
    type V = EntryView;

    open spec fn view(&self) -> EntryView {
        entry_view(*self)
    }
}

impl View for Directory {
    type V = DirectoryView;

    open spec fn view(&self) -> DirectoryView {
        directory_view(*self)
    }
}

/// What a scan yields: the project roots in the order of the walk, or the
/// failure that ended it.
pub type Scan = Result<Seq<Seq<u8>>, ErrorView>;

/// One of `entries` is a directory at `path`.
pub open spec fn holds_directory_at(entries: Seq<EntryView>, path: Seq<u8>) -> bool {
    exists|i: int|
        0 <= i < entries.len() && (#[trigger] entries[i] matches EntryView::Dir(inner)
            && inner.path == path)
}

/// One of `entries` is the marker of the directory at `directory`.
pub open spec fn has_marker(entries: Seq<EntryView>, directory: Seq<u8>) -> bool {
    holds_directory_at(entries, marker_of(directory))
}

/// `scanned` behind what was found before: the roots appended, or the failure.
pub open spec fn extended(found: Seq<Seq<u8>>, scanned: Scan) -> Scan {
    match scanned {
        Ok(roots) => Ok(found + roots),
        Err(error) => Err(error),
    }
}

/// The scan of a directory. One that cannot be read ends the scan; one with
/// a marker is a project root, and nothing below it is looked at; any other
/// yields what its entries yield.
pub open spec fn scan(directory: DirectoryView) -> Scan
    decreases directory,
{
    match directory.entries {
        None => Err(ErrorView::SystemError(directory.path)),
        Some(entries) => if has_marker(entries, directory.path) {
            Ok(seq![directory.path])
        } else {
            scan_entries(entries)
        },
    }
}

/// The scan of the entries of a directory, one after the other: what is not
/// a directory yields nothing, and the first failure ends the scan.
pub open spec fn scan_entries(entries: Seq<EntryView>) -> Scan
    decreases entries,
{
    if entries.len() == 0 {
        Ok(Seq::empty())
    } else {
        match entries[0] {
            EntryView::File(_) => scan_entries(entries.drop_first()),
            EntryView::Dir(inner) => match scan(inner) {
                Ok(roots) => extended(roots, scan_entries(entries.drop_first())),
                Err(error) => Err(error),
            },
        }
    }
}

/// The scan of the roots of the workspace `name`, in their order: a root
/// that does not start at the root of the file system ends it before that
/// root is looked at, and so does the first failure of a scan.
pub open spec fn scan_roots(name: Seq<char>, roots: Seq<DirectoryView>) -> Scan
    decreases roots.len(),
{
    if roots.len() == 0 {
        Ok(Seq::empty())
    } else {
        match scan_roots(name, roots.drop_last()) {
            Ok(found) => if absolute_bytes(roots.last().path) {
                extended(found, scan(roots.last()))
            } else {
                Err(ErrorView::RelativeDirectoryError(name, roots.last().path))
            },
            Err(error) => Err(error),
        }
    }
}

/// `inner` is `outer` or lies below it.
pub open spec fn within(outer: DirectoryView, inner: DirectoryView) -> bool
    decreases outer,
{
    outer == inner || (outer.entries matches Some(entries) && exists|i: int|
        0 <= i < entries.len() && (#[trigger] entries[i] matches EntryView::Dir(child) && within(
            child,
            inner,
        )))
}

/// `directory` is a project root: it can be read and holds a marker.
pub open spec fn is_project_root(directory: DirectoryView) -> bool {
    directory.entries matches Some(entries) && has_marker(entries, directory.path)
}

/// The scan of a project root yields the root itself and nothing else,
/// whatever lies below it.
pub proof fn lemma_project_root(directory: DirectoryView)
    requires
        is_project_root(directory),
    ensures
        scan(directory) == Ok::<Seq<Seq<u8>>, ErrorView>(seq![directory.path]),
{
}

/// The scan of a directory without subdirectories yields nothing.
pub proof fn lemma_no_subdirectories(directory: DirectoryView)
    requires
        directory.entries is Some,
        forall|i: int|
            0 <= i < directory.entries.unwrap().len() ==> (
            #[trigger] directory.entries.unwrap()[i]) is File,
    ensures
        scan(directory) == Ok::<Seq<Seq<u8>>, ErrorView>(Seq::empty()),
{
    lemma_scan_files(directory.entries.unwrap());
}

/// The scan of entries none of which is a directory yields nothing.
proof fn lemma_scan_files(entries: Seq<EntryView>)
    requires
        forall|i: int| 0 <= i < entries.len() ==> (#[trigger] entries[i]) is File,
    ensures
        scan_entries(entries) == Ok::<Seq<Seq<u8>>, ErrorView>(Seq::empty()),
    decreases entries.len(),
{
    if entries.len() > 0 {
        assert forall|i: int| 0 <= i < entries.drop_first().len() implies (
        #[trigger] entries.drop_first()[i]) is File by {
        }
        lemma_scan_files(entries.drop_first());
    }
}

/// What is not a directory is passed over: a directory scans as it would
/// without any one of its files.
pub proof fn lemma_file_is_passed_over(directory: DirectoryView, at: int)
    requires
        directory.entries is Some,
        0 <= at < directory.entries.unwrap().len(),
        directory.entries.unwrap()[at] is File,
    ensures
        scan(
            DirectoryView {
                path: directory.path,
                entries: Some(directory.entries.unwrap().remove(at)),
            },
        ) == scan(directory),
{
    let entries = directory.entries.unwrap();
    let fewer = entries.remove(at);
    let marker = marker_of(directory.path);
    if holds_directory_at(entries, marker) {
        let i = choose|i: int|
            0 <= i < entries.len() && (#[trigger] entries[i] matches EntryView::Dir(inner)
                && inner.path == marker);
        if i < at {
            assert(fewer[i] == entries[i]);
        } else {
            assert(fewer[i - 1] == entries[i]);
        }
    }
    if holds_directory_at(fewer, marker) {
        let i = choose|i: int|
            0 <= i < fewer.len() && (#[trigger] fewer[i] matches EntryView::Dir(inner)
                && inner.path == marker);
        if i < at {
            assert(entries[i] == fewer[i]);
        } else {
            assert(entries[i + 1] == fewer[i]);
        }
    }
    lemma_scan_without_file(entries, at);
}

/// The entries of a directory scan as they would without any one of the
/// files among them.
pub proof fn lemma_scan_without_file(entries: Seq<EntryView>, at: int)
    requires
        0 <= at < entries.len(),
        entries[at] is File,
    ensures
        scan_entries(entries.remove(at)) == scan_entries(entries),
    decreases entries.len(),
{
    if at > 0 {
        lemma_scan_without_file(entries.drop_first(), at - 1);
        assert(entries.remove(at).drop_first() =~= entries.drop_first().remove(at - 1));
    }
}

/// Whatever a scan yields is the path of a project root in the tree: no
/// file, and no directory without a marker, is ever reported.
pub proof fn lemma_found_is_project_root(directory: DirectoryView, at: int)
    requires
        scan(directory) is Ok,
        0 <= at < scan(directory)->Ok_0.len(),
    ensures
        exists|inner: DirectoryView|
            #[trigger] within(directory, inner) && is_project_root(inner) && inner.path == scan(
                directory,
            )->Ok_0[at],
    decreases directory,
{
    let entries = directory.entries.unwrap();
    if has_marker(entries, directory.path) {
        assert(within(directory, directory));
    } else {
        let i = lemma_found_among_entries(entries, at);
        let child = entries[i]->Dir_0;
        let k = choose|k: int| 0 <= k < scan(child)->Ok_0.len() && scan(child)->Ok_0[k] == scan_entries(
            entries,
        )->Ok_0[at];
        lemma_found_is_project_root(child, k);
        let inner = choose|inner: DirectoryView|
            #[trigger] within(child, inner) && is_project_root(inner) && inner.path == scan(
                child,
            )->Ok_0[k];
        assert(within(directory, inner));
    }
}

/// Whatever the scan of entries yields, the scan of one of the directories
/// among them yields.
proof fn lemma_found_among_entries(entries: Seq<EntryView>, at: int) -> (i: int)
    requires
        scan_entries(entries) is Ok,
        0 <= at < scan_entries(entries)->Ok_0.len(),
    ensures
        0 <= i < entries.len(),
        entries[i] is Dir,
        scan(entries[i]->Dir_0) is Ok,
        exists|k: int|
            0 <= k < scan(entries[i]->Dir_0)->Ok_0.len() && scan(entries[i]->Dir_0)->Ok_0[k]
                == scan_entries(entries)->Ok_0[at],
    decreases entries.len(),
{
    let tail = entries.drop_first();
    match entries[0] {
        EntryView::File(_) => {
            let i = lemma_found_among_entries(tail, at);
            i + 1
        },
        EntryView::Dir(inner) => {
            let first = scan(inner)->Ok_0;
            if at < first.len() {
                assert(first[at] == scan_entries(entries)->Ok_0[at]);
                0
            } else {
                let i = lemma_found_among_entries(tail, at - first.len());
                i + 1
            }
        },
    }
}

/// What a call returned, as a [`Scan`].
pub open spec fn scan_of(returned: Result<Vec<ProjectPath>, Error>) -> Scan {
    match returned {
        Ok(found) => Ok(views(found@)),
        Err(error) => Err(error@),
    }
}

/// The scan of a stack of directories, the last of them first, behind what
/// was found before.
spec fn scan_stack(found: Seq<Seq<u8>>, stack: Seq<DirectoryView>) -> Scan
    decreases stack.len(),
{
    if stack.len() == 0 {
        Ok(found)
    } else {
        match scan(stack.last()) {
            Ok(roots) => scan_stack(found + roots, stack.drop_last()),
            Err(error) => Err(error),
        }
    }
}

/// The directories among `entries`, the last of them first.
spec fn children(entries: Seq<EntryView>) -> Seq<DirectoryView>
    decreases entries.len(),
{
    if entries.len() == 0 {
        Seq::empty()
    } else {
        match entries[0] {
            EntryView::File(_) => children(entries.drop_first()),
            EntryView::Dir(inner) => children(entries.drop_first()).push(inner),
        }
    }
}

/// The paths of a stack of directories.
spec fn paths_of(stack: Seq<DirectoryView>) -> Seq<Seq<u8>> {
    stack.map_values(|directory: DirectoryView| directory.path)
}

/// The directories that a stack of references refers to.
spec fn targets(nodes: Seq<&Directory>) -> Seq<DirectoryView> {
    nodes.map_values(|node: &Directory| node@)
}

/// How many directories a directory holds, itself included.
spec fn weight(directory: DirectoryView) -> nat
    decreases directory,
{
    match directory.entries {
        None => 1,
        Some(entries) => 1 + weight_entries(entries),
    }
}

/// How many directories the entries of a directory hold.
spec fn weight_entries(entries: Seq<EntryView>) -> nat
    decreases entries,
{
    if entries.len() == 0 {
        0
    } else {
        (match entries[0] {
            EntryView::File(_) => 0nat,
            EntryView::Dir(inner) => weight(inner),
        }) + weight_entries(entries.drop_first())
    }
}

/// How many directories a stack of directories holds.
spec fn weight_stack(stack: Seq<DirectoryView>) -> nat
    decreases stack.len(),
{
    if stack.len() == 0 {
        0
    } else {
        weight(stack.last()) + weight_stack(stack.drop_last())
    }
}

/// A stack with the directories of `entries` on top scans as the entries
/// and then the stack.
proof fn lemma_scan_children(
    found: Seq<Seq<u8>>,
    rest: Seq<DirectoryView>,
    entries: Seq<EntryView>,
)
    ensures
        scan_stack(found, rest + children(entries)) == match scan_entries(entries) {
            Ok(roots) => scan_stack(found + roots, rest),
            Err(error) => Err(error),
        },
    decreases entries.len(),
{
    if entries.len() > 0 {
        let tail = entries.drop_first();
        match entries[0] {
            EntryView::File(_) => {
                lemma_scan_children(found, rest, tail);
            },
            EntryView::Dir(inner) => {
                let stack = rest + children(entries);
                assert(stack.drop_last() =~= rest + children(tail));
                match scan(inner) {
                    Ok(roots) => {
                        lemma_scan_children(found + roots, rest, tail);
                        match scan_entries(tail) {
                            Ok(more) => {
                                assert(found + roots + more =~= found + (roots + more));
                            },
                            Err(_) => {},
                        }
                    },
                    Err(_) => {},
                }
            },
        }
    }
}

/// A stack with the directories of `entries` on top weighs what the stack
/// and the entries weigh.
proof fn lemma_weight_children(rest: Seq<DirectoryView>, entries: Seq<EntryView>)
    ensures
        weight_stack(rest + children(entries)) == weight_stack(rest) + weight_entries(entries),
    decreases entries.len(),
{
    if entries.len() > 0 {
        let tail = entries.drop_first();
        lemma_weight_children(rest, tail);
        match entries[0] {
            EntryView::File(_) => {},
            EntryView::Dir(inner) => {
                let stack = rest + children(entries);
                assert(stack.drop_last() =~= rest + children(tail));
            },
        }
    }
}

/// What a listing says of an entry.
spec fn reports(listed: ListedView, entry: EntryView) -> bool {
    match entry {
        EntryView::File(path) => !listed.is_dir && listed.path == path,
        EntryView::Dir(inner) => listed.is_dir && listed.path == inner.path,
    }
}

/// A listing of `entries` sends the walk down the directories among them.
proof fn lemma_descent_children(listed: Seq<ListedView>, entries: Seq<EntryView>)
    requires
        listed.len() == entries.len(),
        forall|i: int| 0 <= i < entries.len() ==> reports(#[trigger] listed[i], entries[i]),
    ensures
        descent(listed) == paths_of(children(entries)),
    decreases entries.len(),
{
    if entries.len() > 0 {
        let tail = entries.drop_first();
        assert forall|i: int| 0 <= i < tail.len() implies reports(
            #[trigger] listed.drop_first()[i],
            tail[i],
        ) by {
            assert(reports(listed[i + 1], entries[i + 1]));
        }
        lemma_descent_children(listed.drop_first(), tail);
    }
    assert(descent(listed) =~= paths_of(children(entries)));
}

/// What a listing of `entries` reports.
fn listing_of(entries: &Vec<Entry>) -> (listed: Vec<Listed>)
    ensures
        listed@.len() == entries@.len(),
        forall|i: int|
            0 <= i < entries@.len() ==> reports(
                #[trigger] listing(listed@)[i],
                entry_views(entries@)[i],
            ),
{
    let mut listed: Vec<Listed> = Vec::new();
    let mut i: usize = 0;
    while i < entries.len()
        invariant
            i <= entries.len(),
            listed@.len() == i,
            forall|j: int|
                0 <= j < i ==> reports(#[trigger] listing(listed@)[j], entry_views(entries@)[j]),
        decreases entries.len() - i,
    {
        let entry = match &entries[i] {
            Entry::File(path) => Listed { path: path.clone(), is_dir: false },
            Entry::Dir(inner) => Listed { path: inner.path.clone(), is_dir: true },
        };
        let ghost before = listing(listed@);
        listed.push(entry);
        assert(listing(listed@) =~= before.push(entry@));
        i = i + 1;
    }
    listed
}

/// Whether one of `entries` is a directory at `marker`.
fn holds_directory(entries: &Vec<Entry>, marker: &ProjectPath) -> (found: bool)
    ensures
        found == holds_directory_at(entry_views(entries@), marker@),
{
    let mut i: usize = 0;
    while i < entries.len()
        invariant
            i <= entries.len(),
            forall|j: int|
                0 <= j < i ==> !(#[trigger] entry_views(entries@)[j] matches EntryView::Dir(inner)
                    && inner.path == marker@),
        decreases entries.len() - i,
    {
        match &entries[i] {
            Entry::Dir(inner) => {
                assert(entry_views(entries@)[i as int] == EntryView::Dir(inner@));
                assert(inner@.path == inner.path@);
                if inner.path.same_as(marker) {
                    return true;
                }
            },
            Entry::File(_) => {},
        }
        i = i + 1;
    }
    false
}

/// Scans `directory` and adds the project roots under it to `directories`,
/// in the order of a depth-first walk that takes the entries of each
/// directory in their order. Fails, with nothing found, where the walk comes
/// upon a directory that cannot be read.
pub fn search_directory(directory: &Directory, directories: Vec<ProjectPath>) -> (returned: Result<
    Vec<ProjectPath>,
    Error,
>)
    ensures
        scan_of(returned) == extended(views(directories@), scan(directory@)),
{
    let ghost before = views(directories@);
    let ghost goal = extended(before, scan(directory@));
    let mut scanner = Scanner::new(directory.path.clone(), directories);
    let mut nodes: Vec<&Directory> = Vec::new();
    nodes.push(directory);
    proof {
        let stack = targets(nodes@);
        assert(stack =~= seq![directory@]);
        match scan(directory@) {
            Ok(roots) => {
                assert(scan_stack(before + roots, stack.drop_last()) == goal);
            },
            Err(_) => {},
        }
    }
    loop
        invariant
            scanner.inv(),
            !scanner@.listing,
            scanner@.pending == paths_of(targets(nodes@)),
            scan_stack(scanner@.found, targets(nodes@)) == goal,
            goal == extended(before, scan(directory@)),
            before == views(directories@),
        decreases weight_stack(targets(nodes@)),
    {
        let ghost stack = targets(nodes@);
        let ghost found = scanner@.found;
        match scanner.request() {
            Request::Done => {
                return Ok(scanner.into_found());
            },
            Request::Probe { directory: _, marker } => {
                let n: usize = nodes.len();
                let node: &Directory = nodes[n - 1];
                assert(stack.last() == node@);
                match &node.entries {
                    None => {
                        return Err(Error::SystemError(node.path.clone()));
                    },
                    Some(entries) => {
                        let marked = holds_directory(entries, &marker);
                        scanner.probed(marked);
                        let _ = nodes.pop();
                        let ghost rest = targets(nodes@);
                        proof {
                            assert(rest =~= stack.drop_last());
                        }
                        if marked {
                            proof {
                                assert(found + seq![node.path@] =~= found.push(node.path@));
                            }
                        } else {
                            let listed = listing_of(entries);
                            let ghost below = entry_views(entries@);
                            proof {
                                lemma_descent_children(listing(listed@), below);
                                lemma_scan_children(found, rest, below);
                                lemma_weight_children(rest, below);
                            }
                            scanner.listed(listed);
                            let mut i: usize = entries.len();
                            while i > 0
                                invariant
                                    i <= entries.len(),
                                    below == entry_views(entries@),
                                    targets(nodes@) == rest + children(
                                        below.subrange(i as int, below.len() as int),
                                    ),
                                decreases i,
                            {
                                i = i - 1;
                                proof {
                                    assert(below.subrange(i as int, below.len() as int).drop_first()
                                        =~= below.subrange(i + 1, below.len() as int));
                                }
                                match &entries[i] {
                                    Entry::Dir(inner) => {
                                        let ghost before = targets(nodes@);
                                        nodes.push(inner);
                                        assert(targets(nodes@) =~= before.push(inner@));
                                    },
                                    Entry::File(_) => {},
                                }
                            }
                            proof {
                                assert(below.subrange(0, below.len() as int) =~= below);
                            }
                        }
                    },
                }
            },
            Request::List { directory: _ } => {
                return unreached();
            },
        }
    }
}

/// Scans the roots of the workspace `name` one after the other and returns
/// the project roots under them, those of the first root first. Fails where
/// a root does not start at the root of the file system, and where a scan
/// fails.
pub fn search_workspace(name: &str, roots: &Vec<Directory>) -> (returned: Result<
    Vec<ProjectPath>,
    Error,
>)
    ensures
        scan_of(returned) == scan_roots(name@, directory_views(roots@)),
{
    let ghost all = directory_views(roots@);
    let mut directories: Vec<ProjectPath> = Vec::new();
    let mut i: usize = 0;
    assert(views(directories@) =~= Seq::<Seq<u8>>::empty());
    while i < roots.len()
        invariant
            i <= roots.len(),
            all == directory_views(roots@),
            scan_roots(name@, all.take(i as int)) == Ok::<Seq<Seq<u8>>, ErrorView>(
                views(directories@),
            ),
        decreases roots.len() - i,
    {
        proof {
            assert(all.take(i + 1).drop_last() =~= all.take(i as int));
            assert(all.take(i + 1).last() == roots@[i as int]@);
            lemma_scan_roots_fails(name@, all, i + 1);
        }
        if !roots[i].path.is_absolute() {
            return Err(
                Error::RelativeDirectoryError(String::from_str(name), roots[i].path.clone()),
            );
        }
        match search_directory(&roots[i], directories) {
            Ok(found) => {
                directories = found;
            },
            Err(error) => {
                return Err(error);
            },
        }
        i = i + 1;
    }
    assert(all.take(roots.len() as int) =~= all);
    Ok(directories)
}

/// Once the scan of some of the first roots has failed, the scan of all of
/// them fails in the same way.
proof fn lemma_scan_roots_fails(name: Seq<char>, roots: Seq<DirectoryView>, n: int)
    requires
        0 <= n <= roots.len(),
    ensures
        scan_roots(name, roots.take(n)) matches Err(error) ==> scan_roots(name, roots) == Err::<
            Seq<Seq<u8>>,
            ErrorView,
        >(error),
    decreases roots.len() - n,
{
    if n < roots.len() {
        assert(roots.take(n + 1).drop_last() =~= roots.take(n));
        lemma_scan_roots_fails(name, roots, n + 1);
    } else {
        assert(roots.take(n) =~= roots);
    }
}

} // verus!
