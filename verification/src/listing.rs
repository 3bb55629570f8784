//! The listing as a whole: every batch in turn, in the compact view or in the
//! long view, up to the first failure.

use vstd::prelude::*;
use vstd::string::*;

use crate::batch::{
    files_of, folders_of, lemma_plan_ignores_order, plan, plan_of, Batch, BatchView,
};
use crate::entry::{Entry, EntryView, OsText, OsTextView, Target, TargetView};
use crate::error::{ErrorKind, ListError, ListErrorView};
use crate::layout::{compact_lines, pack};
use crate::meta::{formatted, outcome_view, resolves, row_text, Meta, MetaView};
use crate::order::one_item_per_path;
use crate::platform::terminal_width;
use crate::table::{
    formatted_all, gathered, leading_records, lemma_gathered, lemma_leading_records_stop,
    long_outcome, outcomes_view, resolves_batch, resolves_entries, resolves_plan, table_lines,
    unreadable, ResolvedBatch, ResolvedBatchView,
};
use crate::widths::{max, observe_all, MaxInfo};

verus! {

/// What was asked for on the command line.
#[derive(Clone, Copy, Debug)]
pub struct Options {
    /// List hidden entries too.
    pub display_all: bool,
    /// Show the table in place of the grid.
    pub display_long: bool,
}

/// What a listing gives: the lines that were made, and the failure that
/// ended it, if one did. The lines made before a failure stay.
#[derive(Debug)]
pub struct Listing {
    pub lines: Vec<String>,
    pub error: Option<ListError>,
}

/// A [`Listing`] as a plain value.
pub struct ListingView {
    pub lines: Seq<Seq<char>>,
    pub error: Option<ListErrorView>,
}

impl View for Listing {
    type V = ListingView;

    open spec fn view(&self) -> ListingView {
        ListingView {
            lines: self.lines.deep_view(),
            error: match self.error {
                Some(e) => Some(e@),
                None => None,
            },
        }
    }
}

/// The listing before any batch.
pub open spec fn no_listing() -> ListingView {
    ListingView { lines: Seq::empty(), error: None }
}

/// The line that goes before the batch of a directory: its path, a colon and
/// a space. The files given as arguments have none.
pub open spec fn header_lines(dir: Option<Seq<char>>) -> Seq<Seq<char>> {
    match dir {
        Some(path) => seq![path + ": "@],
        None => Seq::empty(),
    }
}

/// The listing with one more batch: its header and its lines, or its header
/// and its failure. A listing that has failed takes no more.
pub open spec fn extended(
    listing: ListingView,
    dir: Option<Seq<char>>,
    outcome: Result<Seq<Seq<char>>, ListErrorView>,
) -> ListingView {
    if listing.error is Some {
        listing
    } else {
        match outcome {
            Ok(lines) => ListingView {
                lines: listing.lines + header_lines(dir) + lines,
                error: None,
            },
            Err(e) => ListingView { lines: listing.lines + header_lines(dir), error: Some(e) },
        }
    }
}

/// The names of the entries, or the failure of the first entry whose name
/// cannot be had: no final component, or one that is not text.
pub open spec fn names_of(entries: Seq<EntryView>) -> Result<Seq<Seq<char>>, ListErrorView>
    decreases entries.len(),
{
    if entries.len() == 0 {
        Ok(Seq::empty())
    } else {
        match names_of(entries.drop_last()) {
            Err(e) => Err(e),
            Ok(front) => match entries.last().name {
                OsTextView::Absent => Err(
                    ListErrorView { kind: ErrorKind::NameUnreadable, path: entries.last().path },
                ),
                OsTextView::Undecodable => Err(
                    ListErrorView { kind: ErrorKind::EncodingError, path: entries.last().path },
                ),
                OsTextView::Text(name) => Ok(front.push(name)),
            },
        }
    }
}

/// A failure among the first entries is the failure of them all.
pub proof fn lemma_names_of_fails(entries: Seq<EntryView>, upto: int)
    requires
        0 <= upto <= entries.len(),
        names_of(entries.take(upto)) is Err,
    ensures
        names_of(entries) == names_of(entries.take(upto)),
    decreases entries.len() - upto,
{
    if upto < entries.len() {
        assert(entries.take(upto + 1).drop_last() =~= entries.take(upto));
        lemma_names_of_fails(entries, upto + 1);
    } else {
        assert(entries.take(upto) =~= entries);
    }
}

/// The names are had exactly where every entry has a name that is text, and
/// then one for each entry, in their order. Otherwise the failure is that of
/// the first entry without such a name, and carries its path.
pub proof fn lemma_names_of(entries: Seq<EntryView>)
    ensures
        names_of(entries) is Ok <==> forall|i: int|
            0 <= i < entries.len() ==> (#[trigger] entries[i]).name is Text,
        names_of(entries) matches Ok(names) ==> {
            &&& names.len() == entries.len()
            &&& forall|i: int|
                0 <= i < entries.len() ==> (#[trigger] entries[i]).name == OsTextView::Text(
                    names[i],
                )
        },
        names_of(entries) matches Err(e) ==> exists|k: int|
            {
                &&& 0 <= k < entries.len()
                &&& e.path == (#[trigger] entries[k]).path
                &&& e.kind == if entries[k].name is Absent {
                    ErrorKind::NameUnreadable
                } else {
                    ErrorKind::EncodingError
                }
                &&& !(entries[k].name is Text)
                &&& forall|i: int| 0 <= i < k ==> (#[trigger] entries[i]).name is Text
            },
    decreases entries.len(),
{
    if entries.len() > 0 {
        let front = entries.drop_last();
        let last = entries.len() - 1;
        lemma_names_of(front);
        assert forall|i: int| 0 <= i < front.len() implies front[i] == entries[i] by {}
        match names_of(front) {
            Err(e) => {
                let k = choose|k: int|
                    {
                        &&& 0 <= k < front.len()
                        &&& e.path == (#[trigger] front[k]).path
                        &&& e.kind == if front[k].name is Absent {
                            ErrorKind::NameUnreadable
                        } else {
                            ErrorKind::EncodingError
                        }
                        &&& !(front[k].name is Text)
                        &&& forall|i: int| 0 <= i < k ==> (#[trigger] front[i]).name is Text
                    };
                assert(entries[k] == front[k]);
                assert forall|i: int| 0 <= i < k implies (#[trigger] entries[i]).name is Text by {
                    assert(front[i].name is Text);
                }
            },
            Ok(names) => {
                assert forall|i: int| 0 <= i < last implies (#[trigger] entries[i]).name is Text by {
                    assert(front[i].name is Text);
                }
                if entries[last].name is Text {
                    let all = names_of(entries)->Ok_0;
                    assert forall|i: int| 0 <= i < entries.len() implies (#[trigger] entries[i]).name
                        == OsTextView::Text(all[i]) by {
                        if i < last {
                            assert(front[i].name == OsTextView::Text(names[i]));
                        }
                    }
                } else {
                    assert(entries[last].path == names_of(entries)->Err_0.path);
                }
            },
        }
    }
}

/// The lines of one batch in the compact view, or the failure: the width of
/// the terminal is asked for first, then the names.
pub open spec fn short_batch(show_all: bool, entries: Seq<EntryView>, width: Option<usize>) -> Result<
    Seq<Seq<char>>,
    ListErrorView,
> {
    match width {
        None => Err(
            ListErrorView { kind: ErrorKind::TerminalGeometryUnavailable, path: Seq::empty() },
        ),
        Some(columns) => match names_of(entries) {
            Err(e) => Err(e),
            Ok(names) => Ok(compact_lines(names, columns as nat, show_all)),
        },
    }
}

/// What one batch gives in the compact view.
pub open spec fn short_outcome(show_all: bool, batch: BatchView, width: Option<usize>) -> Result<
    Seq<Seq<char>>,
    ListErrorView,
> {
    match batch.entries {
        None => Err(unreadable(batch.dir)),
        Some(entries) => short_batch(show_all, entries, width),
    }
}

/// The compact listing of the batches, one after another up to the first
/// failure.
pub open spec fn short_listing_of(show_all: bool, batches: Seq<BatchView>, width: Option<usize>) -> ListingView
    decreases batches.len(),
{
    if batches.len() == 0 {
        no_listing()
    } else {
        extended(
            short_listing_of(show_all, batches.drop_last(), width),
            batches.last().dir,
            short_outcome(show_all, batches.last(), width),
        )
    }
}

/// A compact listing that has failed is the listing of all the batches.
pub proof fn lemma_short_listing_failed(
    show_all: bool,
    batches: Seq<BatchView>,
    width: Option<usize>,
    upto: int,
)
    requires
        0 <= upto <= batches.len(),
        short_listing_of(show_all, batches.take(upto), width).error is Some,
    ensures
        short_listing_of(show_all, batches, width) == short_listing_of(
            show_all,
            batches.take(upto),
            width,
        ),
    decreases batches.len() - upto,
{
    if upto < batches.len() {
        assert(batches.take(upto + 1).drop_last() =~= batches.take(upto));
        lemma_short_listing_failed(show_all, batches, width, upto + 1);
    } else {
        assert(batches.take(upto) =~= batches);
    }
}

/// The long listing of the batches, one after another up to the first
/// failure.
pub open spec fn long_listing_of(batches: Seq<ResolvedBatchView>) -> ListingView
    decreases batches.len(),
{
    if batches.len() == 0 {
        no_listing()
    } else {
        extended(
            long_listing_of(batches.drop_last()),
            batches.last().dir,
            long_outcome(batches.last()),
        )
    }
}

/// A long listing that has failed is the listing of all the batches.
pub proof fn lemma_long_listing_failed(batches: Seq<ResolvedBatchView>, upto: int)
    requires
        0 <= upto <= batches.len(),
        long_listing_of(batches.take(upto)).error is Some,
    ensures
        long_listing_of(batches) == long_listing_of(batches.take(upto)),
    decreases batches.len() - upto,
{
    if upto < batches.len() {
        assert(batches.take(upto + 1).drop_last() =~= batches.take(upto));
        lemma_long_listing_failed(batches, upto + 1);
    } else {
        assert(batches.take(upto) =~= batches);
    }
}

/// Whether `listing` is a listing of the targets under the options: the long
/// listing of their batches, resolved up to the first failure in some way
/// that fits the entries, or the compact listing of their batches for some
/// width of the terminal.
pub open spec fn is_listing(options: Options, targets: Seq<TargetView>, listing: ListingView) -> bool {
    if options.display_long {
        exists|resolved: Seq<ResolvedBatchView>|
            resolves_plan(plan_of(targets), resolved) && listing == #[trigger] long_listing_of(
                resolved,
            )
    } else {
        exists|width: Option<usize>|
            listing == #[trigger] short_listing_of(options.display_all, plan_of(targets), width)
    }
}

/// The order in which the targets are given does not matter to the listing,
/// where no two files and no two directories that differ have one path: the
/// same targets, in any order, have the same listings.
pub proof fn lemma_listing_ignores_order(
    options: Options,
    a: Seq<TargetView>,
    b: Seq<TargetView>,
    listing: ListingView,
)
    requires
        a.to_multiset() == b.to_multiset(),
        one_item_per_path::<Entry>(files_of(a)),
        one_item_per_path::<Batch>(folders_of(a)),
    ensures
        is_listing(options, a, listing) == is_listing(options, b, listing),
{
    lemma_plan_ignores_order(a, b);
}

/// The compact view shows of every entry its name and nothing else: batches
/// whose entries agree in name and path give the same lines, whatever their
/// links point to and whatever their metadata says.
pub proof fn lemma_compact_shows_names_only(
    show_all: bool,
    a: Seq<EntryView>,
    b: Seq<EntryView>,
    width: Option<usize>,
)
    requires
        a.len() == b.len(),
        forall|i: int| 0 <= i < a.len() ==> a[i].name == b[i].name && a[i].path == b[i].path,
    ensures
        names_of(a) == names_of(b),
        short_batch(show_all, a, width) == short_batch(show_all, b, width),
    decreases a.len(),
{
    if a.len() > 0 {
        assert(a.last().name == b.last().name && a.last().path == b.last().path);
        assert forall|i: int| 0 <= i < a.drop_last().len() implies a.drop_last()[i].name
            == b.drop_last()[i].name && a.drop_last()[i].path == b.drop_last()[i].path by {
            assert(a.drop_last()[i] == a[i] && b.drop_last()[i] == b[i]);
        }
        lemma_compact_shows_names_only(show_all, a.drop_last(), b.drop_last(), width);
    }
}

/// The view of lines or of the failure to make them.
pub open spec fn lines_view(outcome: Result<Vec<String>, ListError>) -> Result<
    Seq<Seq<char>>,
    ListErrorView,
> {
    match outcome {
        Ok(lines) => Ok(lines.deep_view()),
        Err(e) => Err(e@),
    }
}

/// The names of the entries, or the failure of the first entry that has none
/// to show.
pub fn names(entries: &Vec<Entry>) -> (outcome: Result<Vec<String>, ListError>)
    ensures
        lines_view(outcome) == names_of(entries.deep_view()),
{
    let mut names: Vec<String> = Vec::new();
    let mut i: usize = 0;
    assert(names.deep_view() =~= Seq::<Seq<char>>::empty());
    while i < entries.len()
        invariant
            i <= entries.len(),
            names_of(entries.deep_view().take(i as int)) == Ok::<Seq<Seq<char>>, ListErrorView>(
                names.deep_view(),
            ),
        decreases entries.len() - i,
    {
        let ghost all = entries.deep_view();
        assert(all.take(i + 1).drop_last() =~= all.take(i as int));
        match &entries[i].name {
            OsText::Absent => {
                let e = ListError::new(ErrorKind::NameUnreadable, entries[i].path.as_str());
                proof {
                    lemma_names_of_fails(all, i + 1);
                }
                return Err(e);
            },
            OsText::Undecodable => {
                let e = ListError::new(ErrorKind::EncodingError, entries[i].path.as_str());
                proof {
                    lemma_names_of_fails(all, i + 1);
                }
                return Err(e);
            },
            OsText::Text(name) => {
                let ghost front = names.deep_view();
                names.push(name.clone());
                assert(names.deep_view() =~= front.push(name@));
            },
        }
        i = i + 1;
    }
    assert(entries.deep_view().take(entries.len() as int) =~= entries.deep_view());
    Ok(names)
}

/// Adds one batch to a listing that has not failed.
fn extend(listing: &mut Listing, dir: &Option<String>, outcome: Result<Vec<String>, ListError>)
    requires
        old(listing)@.error is None,
    ensures
        final(listing)@ == extended(
            old(listing)@,
            match dir {
                Some(path) => Some(path@),
                None => None,
            },
            lines_view(outcome),
        ),
{
    let ghost before = listing.lines.deep_view();
    let ghost header = header_lines(
        match dir {
            Some(path) => Some(path@),
            None => None,
        },
    );
    match dir {
        Some(path) => {
            let mut line = path.clone();
            line.append(": ");
            listing.lines.push(line);
        },
        None => {},
    }
    assert(listing.lines.deep_view() =~= before + header);
    match outcome {
        Ok(lines) => {
            let mut lines = lines;
            let ghost added = lines.deep_view();
            listing.lines.append(&mut lines);
            assert(listing.lines.deep_view() =~= before + header + added);
        },
        Err(e) => {
            listing.error = Some(e);
        },
    }
}

/// The failure of a directory that could not be read.
fn unreadable_dir(dir: &Option<String>) -> (e: ListError)
    ensures
        e@ == unreadable(
            match dir {
                Some(path) => Some(path@),
                None => None,
            },
        ),
{
    match dir {
        Some(path) => ListError::new(ErrorKind::DirectoryUnreadable, path.as_str()),
        None => ListError { kind: ErrorKind::DirectoryUnreadable, path: String::new() },
    }
}

/// The driver of a listing, with the options it was made for.
pub struct Core<'a> {
    options: &'a Options,
}

impl<'a> Core<'a> {
    /// The options that the listing was made with.
    pub closed spec fn options(&self) -> Options {
        *self.options
    }

    /// A driver for the given options.
    pub fn new(options: &'a Options) -> (core: Self)
        ensures
            core.options() == *options,
    {
        Core { options }
    }

    /// The lines of one batch in the compact view, for a terminal of the given
    /// width; `None` where the width is not known. The name of a symbolic link
    /// shows as it is: its target plays no part here.
    pub fn print_short(&self, entries: &Vec<Entry>, width: Option<usize>) -> (outcome: Result<
        Vec<String>,
        ListError,
    >)
        ensures
            lines_view(outcome) == short_batch(
                self.options().display_all,
                entries.deep_view(),
                width,
            ),
    {
        let columns = match width {
            Some(columns) => columns,
            None => {
                return Err(
                    ListError { kind: ErrorKind::TerminalGeometryUnavailable, path: String::new() },
                );
            },
        };
        match names(entries) {
            Err(e) => Err(e),
            Ok(names) => Ok(pack(&names, columns, self.options.display_all)),
        }
    }

    /// Gathers the records of a batch from the outcomes of resolving its
    /// entries, and takes each into the running maxima. The first failure
    /// ends it: what comes after is neither kept nor measured.
    pub fn path_to_metas(
        &self,
        outcomes: Vec<Result<Meta, ListError>>,
        dirinfo: &mut MaxInfo,
    ) -> (batch: Result<Vec<Meta>, ListError>)
        ensures
            match batch {
                Ok(metas) => Ok(metas.deep_view()),
                Err(e) => Err(e@),
            } == gathered(outcomes_view(outcomes@)),
            final(dirinfo)@ == observe_all(
                old(dirinfo)@,
                leading_records(outcomes_view(outcomes@)),
            ),
    {
        let ghost all = outcomes_view(outcomes@);
        let mut metas: Vec<Meta> = Vec::new();
        assert(metas.deep_view() =~= Seq::<MetaView>::empty());
        for outcome in it: outcomes.into_iter()
            invariant
                all == outcomes_view(outcomes@),
                it.seq() == outcomes@,
                metas.len() == it.index(),
                metas.deep_view() == leading_records(all.take(it.index() as int)),
                dirinfo@ == observe_all(old(dirinfo)@, metas.deep_view()),
        {
            let ghost at = metas.len() as int;
            let ghost front = metas.deep_view();
            proof {
                assert(all.take(at + 1).drop_last() =~= all.take(at));
                assert(all.take(at + 1).last() == outcome_view(outcome));
            }
            match outcome {
                Ok(meta) => {
                    max(&meta, dirinfo);
                    metas.push(meta);
                    proof {
                        assert(metas.deep_view() =~= front.push(meta@));
                        assert(metas.deep_view().drop_last() =~= front);
                    }
                },
                Err(e) => {
                    proof {
                        lemma_leading_records_stop(all, at + 1);
                    }
                    return Err(e);
                },
            }
        }
        assert(all.take(all.len() as int) =~= all);
        Ok(metas)
    }

    /// Makes every record of a batch ready for the table and writes out its
    /// line.
    pub fn print_long(&self, metas: &mut Vec<Meta>, dirinfo: &MaxInfo) -> (lines: Vec<String>)
        ensures
            final(metas).deep_view() == formatted_all(old(metas).deep_view(), dirinfo@),
            lines.deep_view() == table_lines(old(metas).deep_view(), dirinfo@),
    {
        let mut lines: Vec<String> = Vec::new();
        let mut i: usize = 0;
        while i < metas.len()
            invariant
                i <= metas.len(),
                metas.len() == old(metas).len(),
                lines.len() == i,
                forall|k: int|
                    0 <= k < i ==> #[trigger] metas[k]@ == formatted(old(metas)[k]@, dirinfo@),
                forall|k: int| i <= k < metas.len() ==> #[trigger] metas[k]@ == old(metas)[k]@,
                forall|k: int|
                    0 <= k < i ==> #[trigger] lines[k]@ == row_text(
                        formatted(old(metas)[k]@, dirinfo@),
                    ),
            decreases metas.len() - i,
        {
            metas[i].format_meta(dirinfo);
            let line = metas[i].row();
            lines.push(line);
            i = i + 1;
        }
        lines
    }

    /// The compact listing of the batches for a terminal of the given width;
    /// `None` where the width is not known.
    pub fn short_listing(&self, batches: &Vec<Batch>, width: Option<usize>) -> (listing: Listing)
        ensures
            listing@ == short_listing_of(self.options().display_all, batches.deep_view(), width),
    {
        let ghost all = batches.deep_view();
        let ghost show_all = self.options().display_all;
        let mut listing = Listing { lines: Vec::new(), error: None };
        assert(listing.lines.deep_view() =~= Seq::<Seq<char>>::empty());
        let mut b: usize = 0;
        while b < batches.len() && listing.error.is_none()
            invariant
                b <= batches.len(),
                all == batches.deep_view(),
                show_all == self.options().display_all,
                listing@ == short_listing_of(show_all, all.take(b as int), width),
            decreases batches.len() - b,
        {
            assert(all.take(b + 1).drop_last() =~= all.take(b as int));
            let outcome = match &batches[b].entries {
                None => Err(unreadable_dir(&batches[b].dir)),
                Some(entries) => self.print_short(entries, width),
            };
            extend(&mut listing, &batches[b].dir, outcome);
            b = b + 1;
        }
        proof {
            if listing.error.is_some() {
                lemma_short_listing_failed(show_all, all, width, b as int);
            } else {
                assert(all.take(b as int) =~= all);
            }
        }
        listing
    }

    /// The lines of one resolved batch in the long view, or its failure.
    pub fn long_batch(&self, batch: ResolvedBatch) -> (outcome: Result<Vec<String>, ListError>)
        ensures
            lines_view(outcome) == long_outcome(batch@),
    {
        match batch.outcomes {
            None => Err(unreadable_dir(&batch.dir)),
            Some(outcomes) => {
                let mut dirinfo = MaxInfo::default();
                match self.path_to_metas(outcomes, &mut dirinfo) {
                    Err(e) => Err(e),
                    Ok(metas) => {
                        let mut metas = metas;
                        Ok(self.print_long(&mut metas, &dirinfo))
                    },
                }
            },
        }
    }

    /// The long listing of the resolved batches.
    pub fn long_listing(&self, batches: Vec<ResolvedBatch>) -> (listing: Listing)
        ensures
            listing@ == long_listing_of(batches.deep_view()),
    {
        let ghost all = batches.deep_view();
        let mut listing = Listing { lines: Vec::new(), error: None };
        assert(listing.lines.deep_view() =~= Seq::<Seq<char>>::empty());
        for batch in it: batches.into_iter()
            invariant
                all == batches.deep_view(),
                it.seq() == batches@,
                listing@.error is None,
                listing@ == long_listing_of(all.take(it.index() as int)),
        {
            let ghost at = it.index() as int;
            assert(all.take(at + 1).drop_last() =~= all.take(at));
            let dir = batch.dir.clone();
            let outcome = self.long_batch(batch);
            extend(&mut listing, &dir, outcome);
            if listing.error.is_some() {
                proof {
                    lemma_long_listing_failed(all, at + 1);
                }
                return listing;
            }
        }
        assert(all.take(all.len() as int) =~= all);
        listing
    }

    /// Resolves the entries one after another into their records, up to the
    /// first that fails: for those behind it the machine is not asked.
    pub fn resolve_entries(&self, entries: &Vec<Entry>) -> (outcomes: Vec<Result<Meta, ListError>>)
        ensures
            resolves_entries(entries.deep_view(), outcomes_view(outcomes@)),
    {
        let mut outcomes: Vec<Result<Meta, ListError>> = Vec::new();
        let mut failed = false;
        let mut i: usize = 0;
        while i < entries.len() && !failed
            invariant
                i <= entries.len(),
                outcomes.len() == i,
                forall|k: int|
                    0 <= k < i ==> resolves(#[trigger] entries[k]@, outcome_view(outcomes[k])),
                forall|k: int| 0 <= k < i - 1 ==> (#[trigger] outcomes[k]) is Ok,
                failed ==> i > 0 && outcomes[i - 1] is Err,
                !failed && i > 0 ==> outcomes[i - 1] is Ok,
            decreases entries.len() - i,
        {
            let outcome = Meta::from_path(&entries[i]);
            failed = outcome.is_err();
            outcomes.push(outcome);
            i = i + 1;
        }
        outcomes
    }

    /// Resolves the batches one after another, up to the first that fails:
    /// a directory that could not be read, or an entry that could not be
    /// resolved. Of the batches behind it nothing is looked up.
    pub fn resolve(&self, batches: &Vec<Batch>) -> (resolved: Vec<ResolvedBatch>)
        ensures
            resolves_plan(batches.deep_view(), resolved.deep_view()),
    {
        let mut resolved: Vec<ResolvedBatch> = Vec::new();
        let mut failed = false;
        let mut b: usize = 0;
        while b < batches.len() && !failed
            invariant
                b <= batches.len(),
                resolved.len() == b,
                forall|k: int|
                    0 <= k < b ==> resolves_batch(#[trigger] batches[k]@, resolved[k]@),
                forall|k: int| 0 <= k < b - 1 ==> long_outcome((#[trigger] resolved[k])@) is Ok,
                failed ==> b > 0 && long_outcome(resolved[b - 1]@) is Err,
                !failed && b > 0 ==> long_outcome(resolved[b - 1]@) is Ok,
            decreases batches.len() - b,
        {
            let outcomes = match &batches[b].entries {
                None => {
                    failed = true;
                    None
                },
                Some(entries) => {
                    let outcomes = self.resolve_entries(entries);
                    failed = outcomes.len() > 0 && outcomes[outcomes.len() - 1].is_err();
                    proof {
                        lemma_gathered(outcomes_view(outcomes@));
                    }
                    Some(outcomes)
                },
            };
            resolved.push(ResolvedBatch { dir: batches[b].dir.clone(), outcomes });
            b = b + 1;
        }
        resolved
    }

    /// Lists the targets: the files given as arguments first, as one batch,
    /// then every directory under a header with its path. The whole listing
    /// is in one view, the table where the options ask for the long view and
    /// the grid otherwise. The first failure ends the listing: nothing behind
    /// it is looked up or shown.
    pub fn run(&self, targets: Vec<Target>) -> (listing: Listing)
        ensures
            is_listing(self.options(), targets.deep_view(), listing@),
    {
        let batches = plan(targets);
        if self.options.display_long {
            let resolved = self.resolve(&batches);
            self.long_listing(resolved)
        } else {
            let width = terminal_width();
            self.short_listing(&batches, width)
        }
    }
}

} // verus!
