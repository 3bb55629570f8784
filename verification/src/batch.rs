//! The batches of a listing: the files given as arguments, and every
//! directory with its children, each in the order of their paths.

use vstd::prelude::*;
use vstd::string::*;

use crate::entry::{Entry, EntryView, Target, TargetView};
use crate::order::{
    in_path_order, insert_by_path, lemma_sorted_by_path, lemma_sorted_by_path_ignores_order,
    one_item_per_path, sort_by_path, sorted_by_path, Pathed,
};

verus! {

/// The entries that are rendered together: the files given as arguments, or
/// the children of one directory.
#[derive(Debug)]
pub struct Batch {
    /// The directory whose children these are; `None` for the files given as
    /// arguments.
    pub dir: Option<String>,
    /// The entries, in the order of their paths; `None` where the directory
    /// could not be read.
    pub entries: Option<Vec<Entry>>,
}

/// A [`Batch`] as a plain value.
pub struct BatchView {
    pub dir: Option<Seq<char>>,
    pub entries: Option<Seq<EntryView>>,
}

impl View for Batch {
    type V = BatchView;

    open spec fn view(&self) -> BatchView {
        BatchView {
            dir: match self.dir {
                Some(path) => Some(path@),
                None => None,
            },
            entries: match self.entries {
                Some(entries) => Some(entries.deep_view()),
                None => None,
            },
        }
    }
}

impl DeepView for Batch {
    type V = BatchView;

    open spec fn deep_view(&self) -> BatchView {
        self@
    }
}

/// The path of a batch: that of its directory, and the empty path for the
/// files given as arguments.
pub open spec fn batch_path(batch: BatchView) -> Seq<char> {
    match batch.dir {
        Some(path) => path,
        None => Seq::empty(),
    }
}

impl Pathed for Batch {
    open spec fn key(view: BatchView) -> Seq<char> {
        batch_path(view)
    }

    fn path_text(&self) -> (path: &str) {
        match &self.dir {
            Some(path) => path.as_str(),
            None => {
                proof {
                    reveal_strlit("");
                }
                ""
            },
        }
    }
}

/// The entry of a target that is a file.
pub open spec fn file_of(target: TargetView) -> Option<EntryView> {
    match target {
        TargetView::File(entry) => Some(entry),
        TargetView::Directory { .. } => None,
    }
}

/// The batch of a target that is a directory: its children in the order of
/// their paths.
pub open spec fn folder_of(target: TargetView) -> Option<BatchView> {
    match target {
        TargetView::File(_) => None,
        TargetView::Directory { path, children } => Some(
            BatchView {
                dir: Some(path),
                entries: match children {
                    Some(entries) => Some(sorted_by_path::<Entry>(entries)),
                    None => None,
                },
            },
        ),
    }
}

/// What `pick` takes from the targets, in the order in which they were given.
pub open spec fn picked<A>(targets: Seq<TargetView>, pick: spec_fn(TargetView) -> Option<A>) -> Seq<A>
    decreases targets.len(),
{
    if targets.len() == 0 {
        Seq::empty()
    } else {
        let rest = picked(targets.drop_first(), pick);
        match pick(targets[0]) {
            Some(item) => seq![item] + rest,
            None => rest,
        }
    }
}

/// The files among the targets, in the order in which they were given.
pub open spec fn files_of(targets: Seq<TargetView>) -> Seq<EntryView> {
    picked(targets, |target: TargetView| file_of(target))
}

/// The directories among the targets, in the order in which they were given,
/// each as the batch of its children in the order of their paths.
pub open spec fn folders_of(targets: Seq<TargetView>) -> Seq<BatchView> {
    picked(targets, |target: TargetView| folder_of(target))
}

/// The batches of a listing. The files come first, as one batch in the order
/// of their paths, where there is any; then the directories in the order of
/// their paths, each with its children in the order of theirs.
pub open spec fn plan_of(targets: Seq<TargetView>) -> Seq<BatchView> {
    let files = sorted_by_path::<Entry>(files_of(targets));
    let folders = sorted_by_path::<Batch>(folders_of(targets));
    if files.len() > 0 {
        seq![BatchView { dir: None, entries: Some(files) }] + folders
    } else {
        folders
    }
}

/// Lays out the batches of a listing: the files first, as one batch, then
/// every directory with its children, all in the order of their paths.
pub fn plan(targets: Vec<Target>) -> (batches: Vec<Batch>)
    ensures
        batches.deep_view() == plan_of(targets.deep_view()),
{
    let ghost all = targets.deep_view();
    let mut rest = targets;
    let mut files: Vec<Entry> = Vec::new();
    let mut folders: Vec<Batch> = Vec::new();
    while rest.len() > 0
        invariant
            rest.len() <= all.len(),
            rest.deep_view() == all.take(rest.len() as int),
            files.deep_view() == sorted_by_path::<Entry>(files_of(all.skip(rest.len() as int))),
            folders.deep_view() == sorted_by_path::<Batch>(
                folders_of(all.skip(rest.len() as int)),
            ),
        decreases rest.len(),
    {
        let ghost before = rest.deep_view();
        let target = rest.pop().unwrap();
        proof {
            let at = rest.len() as int;
            assert(target.deep_view() == before[at]);
            assert(all.skip(at).drop_first() =~= all.skip(at + 1));
        }
        let ghost later_files = files_of(all.skip(rest.len() + 1));
        let ghost later_folders = folders_of(all.skip(rest.len() + 1));
        match target {
            Target::File(entry) => {
                proof {
                    let found = seq![entry.deep_view()] + later_files;
                    assert(found.drop_first() =~= later_files);
                }
                insert_by_path(&mut files, entry);
            },
            Target::Directory { path, children } => {
                let entries = match children {
                    Some(children) => Some(sort_by_path(children)),
                    None => None,
                };
                let folder = Batch { dir: Some(path), entries };
                proof {
                    let found = seq![folder.deep_view()] + later_folders;
                    assert(found.drop_first() =~= later_folders);
                }
                insert_by_path(&mut folders, folder);
            },
        }
    }
    assert(all.skip(0) =~= all);
    if files.len() > 0 {
        folders.insert(0, Batch { dir: None, entries: Some(files) });
    }
    folders
}

/// Every directory among the targets gives a batch with that directory, and
/// its entries in the order of their paths.
pub proof fn lemma_folders_of(targets: Seq<TargetView>)
    ensures
        forall|k: int|
            0 <= k < folders_of(targets).len() ==> {
                &&& (#[trigger] folders_of(targets)[k]).dir is Some
                &&& folders_of(targets)[k].entries matches Some(entries) ==> in_path_order::<Entry>(
                    entries,
                )
            },
    decreases targets.len(),
{
    if targets.len() > 0 {
        let rest = targets.drop_first();
        lemma_folders_of(rest);
        let folders = folders_of(targets);
        match targets[0] {
            TargetView::File(_) => {
                assert(folders == folders_of(rest));
            },
            TargetView::Directory { path, children } => {
                if let Some(entries) = children {
                    lemma_sorted_by_path::<Entry>(entries);
                }
                assert(folders == seq![folder_of(targets[0])->0] + folders_of(rest));
                assert forall|k: int| 0 <= k < folders.len() implies {
                    &&& (#[trigger] folders[k]).dir is Some
                    &&& folders[k].entries matches Some(entries) ==> in_path_order::<Entry>(entries)
                } by {
                    if k > 0 {
                        assert(folders[k] == folders_of(rest)[k - 1]);
                    }
                }
            },
        }
    }
}

/// The batches of a listing are in order. The files, where there are any,
/// make up the first batch, which has no directory; every other batch has
/// one, and these batches stand in the order of their paths. The entries of
/// every batch stand in the order of theirs.
pub proof fn lemma_plan_in_order(targets: Seq<TargetView>)
    ensures
        ({
            let batches = plan_of(targets);
            let files = sorted_by_path::<Entry>(files_of(targets));
            let folders = sorted_by_path::<Batch>(folders_of(targets));
            &&& in_path_order::<Entry>(files)
            &&& files.to_multiset() == files_of(targets).to_multiset()
            &&& in_path_order::<Batch>(folders)
            &&& folders.to_multiset() == folders_of(targets).to_multiset()
            &&& batches == if files.len() > 0 {
                seq![BatchView { dir: None, entries: Some(files) }] + folders
            } else {
                folders
            }
            &&& forall|b: int|
                0 <= b < batches.len() ==> ((#[trigger] batches[b]).entries matches Some(entries)
                    ==> in_path_order::<Entry>(entries))
            &&& forall|b: int|
                0 <= b < batches.len() ==> ((#[trigger] batches[b]).dir is None <==> b == 0
                    && files.len() > 0)
        }),
{
    broadcast use vstd::seq_lib::group_to_multiset_ensures;

    let batches = plan_of(targets);
    let files = sorted_by_path::<Entry>(files_of(targets));
    let given = folders_of(targets);
    let folders = sorted_by_path::<Batch>(given);
    lemma_sorted_by_path::<Entry>(files_of(targets));
    lemma_sorted_by_path::<Batch>(given);
    lemma_folders_of(targets);
    assert forall|k: int| 0 <= k < folders.len() implies {
        &&& (#[trigger] folders[k]).dir is Some
        &&& folders[k].entries matches Some(entries) ==> in_path_order::<Entry>(entries)
    } by {
        assert(folders.to_multiset().count(folders[k]) > 0);
        assert(given.contains(folders[k]));
    }
    assert forall|b: int| 0 <= b < batches.len() implies ((#[trigger] batches[b]).entries matches Some(
        entries,
    ) ==> in_path_order::<Entry>(entries)) by {
        if files.len() > 0 && b > 0 {
            assert(batches[b] == folders[b - 1]);
        }
    }
    assert forall|b: int| 0 <= b < batches.len() implies ((#[trigger] batches[b]).dir is None <==> b
        == 0 && files.len() > 0) by {
        if files.len() > 0 && b > 0 {
            assert(batches[b] == folders[b - 1]);
        }
    }
}

/// Taking one target away takes away what was picked from it and nothing
/// else.
pub proof fn lemma_picked_remove<A>(
    targets: Seq<TargetView>,
    pick: spec_fn(TargetView) -> Option<A>,
    at: int,
)
    requires
        0 <= at < targets.len(),
    ensures
        picked(targets, pick).to_multiset() == match pick(targets[at]) {
            Some(item) => picked(targets.remove(at), pick).to_multiset().insert(item),
            None => picked(targets.remove(at), pick).to_multiset(),
        },
    decreases targets.len(),
{
    let rest = targets.drop_first();
    let from_rest = picked(rest, pick);
    if at == 0 {
        assert(targets.remove(0) =~= rest);
        if let Some(item) = pick(targets[0]) {
            assert(seq![item] + from_rest =~= from_rest.insert(0, item));
            vstd::seq_lib::to_multiset_insert(from_rest, 0, item);
        }
    } else {
        let without = targets.remove(at);
        assert(without[0] == targets[0]);
        assert(without.drop_first() =~= rest.remove(at - 1));
        assert(rest[at - 1] == targets[at]);
        lemma_picked_remove(rest, pick, at - 1);
        let from_without = picked(rest.remove(at - 1), pick);
        if let Some(first) = pick(targets[0]) {
            assert(seq![first] + from_rest =~= from_rest.insert(0, first));
            vstd::seq_lib::to_multiset_insert(from_rest, 0, first);
            assert(seq![first] + from_without =~= from_without.insert(0, first));
            vstd::seq_lib::to_multiset_insert(from_without, 0, first);
            if let Some(item) = pick(targets[at]) {
                assert(from_without.to_multiset().insert(item).insert(first)
                    =~= from_without.to_multiset().insert(first).insert(item));
            }
        }
    }
}

/// What is picked from the same targets, given in another order, is the same,
/// in another order.
pub proof fn lemma_picked_ignores_order<A>(
    a: Seq<TargetView>,
    b: Seq<TargetView>,
    pick: spec_fn(TargetView) -> Option<A>,
)
    requires
        a.to_multiset() == b.to_multiset(),
    ensures
        picked(a, pick).to_multiset() == picked(b, pick).to_multiset(),
    decreases a.len(),
{
    broadcast use vstd::seq_lib::group_to_multiset_ensures;

    vstd::seq_lib::to_multiset_len(a);
    vstd::seq_lib::to_multiset_len(b);
    if a.len() == 0 {
        assert(b =~= Seq::<TargetView>::empty());
        assert(a =~= Seq::<TargetView>::empty());
    } else {
        assert(a.to_multiset().count(a[0]) > 0);
        assert(b.contains(a[0]));
        let at = choose|at: int| 0 <= at < b.len() && b[at] == a[0];
        assert(a.remove(0).to_multiset() == b.remove(at).to_multiset());
        lemma_picked_ignores_order(a.remove(0), b.remove(at), pick);
        lemma_picked_remove(a, pick, 0);
        lemma_picked_remove(b, pick, at);
    }
}

/// The order in which the targets are given does not matter to the batches,
/// where no two files and no two directories that differ have one path.
pub proof fn lemma_plan_ignores_order(a: Seq<TargetView>, b: Seq<TargetView>)
    requires
        a.to_multiset() == b.to_multiset(),
        one_item_per_path::<Entry>(files_of(a)),
        one_item_per_path::<Batch>(folders_of(a)),
    ensures
        plan_of(a) == plan_of(b),
{
    lemma_picked_ignores_order(a, b, |target: TargetView| file_of(target));
    lemma_picked_ignores_order(a, b, |target: TargetView| folder_of(target));
    lemma_sorted_by_path_ignores_order::<Entry>(files_of(a), files_of(b));
    lemma_sorted_by_path_ignores_order::<Batch>(folders_of(a), folders_of(b));
}

/// The order in which the children of a directory are given does not matter
/// to its batch, where no two children that differ have one path.
pub proof fn lemma_folder_ignores_order(path: Seq<char>, a: Seq<EntryView>, b: Seq<EntryView>)
    requires
        a.to_multiset() == b.to_multiset(),
        one_item_per_path::<Entry>(a),
    ensures
        folder_of(TargetView::Directory { path, children: Some(a) }) == folder_of(
            TargetView::Directory { path, children: Some(b) },
        ),
{
    lemma_sorted_by_path_ignores_order::<Entry>(a, b);
}

} // verus!
