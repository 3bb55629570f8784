//! The long view of one batch: a table with a line for each record, its
//! columns padded to the widest text of the batch.

use vstd::prelude::*;

use crate::batch::BatchView;
use crate::entry::EntryView;
use crate::error::{ErrorKind, ListError, ListErrorView};
use crate::meta::{
    formatted, lemma_formatted_fields, lemma_formatted_idempotent, outcome_view, resolves,
    row_text, Meta, MetaView,
};
use crate::text::text_len;
use crate::widths::{lemma_observe_all_covers, no_widths, observe_all, Widths};

verus! {

/// The views of the outcomes of resolving a batch.
pub open spec fn outcomes_view(outcomes: Seq<Result<Meta, ListError>>) -> Seq<
    Result<MetaView, ListErrorView>,
> {
    Seq::new(outcomes.len(), |i: int| outcome_view(outcomes[i]))
}

/// The records that come before the first failure.
pub open spec fn leading_records(outcomes: Seq<Result<MetaView, ListErrorView>>) -> Seq<MetaView>
    decreases outcomes.len(),
{
    if outcomes.len() == 0 {
        Seq::empty()
    } else {
        let front = leading_records(outcomes.drop_last());
        if front.len() == outcomes.len() - 1 && outcomes.last() is Ok {
            front.push(outcomes.last()->Ok_0)
        } else {
            front
        }
    }
}

/// The records of a batch where every entry was resolved, and else the first
/// failure.
pub open spec fn gathered(outcomes: Seq<Result<MetaView, ListErrorView>>) -> Result<
    Seq<MetaView>,
    ListErrorView,
> {
    let records = leading_records(outcomes);
    if records.len() == outcomes.len() {
        Ok(records)
    } else {
        Err(outcomes[records.len() as int]->Err_0)
    }
}

/// The leading records are the outcomes up to the first failure, one for one.
pub proof fn lemma_leading_records(outcomes: Seq<Result<MetaView, ListErrorView>>)
    ensures
        leading_records(outcomes).len() <= outcomes.len(),
        forall|i: int|
            0 <= i < leading_records(outcomes).len() ==> #[trigger] outcomes[i] == Ok::<
                MetaView,
                ListErrorView,
            >(leading_records(outcomes)[i]),
        leading_records(outcomes).len() < outcomes.len() ==> outcomes[leading_records(
            outcomes,
        ).len() as int] is Err,
    decreases outcomes.len(),
{
    if outcomes.len() > 0 {
        let front = outcomes.drop_last();
        lemma_leading_records(front);
        assert forall|i: int| 0 <= i < leading_records(outcomes).len() implies #[trigger] outcomes[i]
            == Ok::<MetaView, ListErrorView>(leading_records(outcomes)[i]) by {
            if i < leading_records(front).len() {
                assert(outcomes[i] == front[i]);
            }
        }
        if leading_records(front).len() < front.len() {
            assert(outcomes[leading_records(front).len() as int] == front[leading_records(
                front,
            ).len() as int]);
        }
    }
}

/// A batch gives its records exactly where every entry was resolved, and then
/// one record for each entry, in their order. Otherwise it gives the failure
/// of the first entry that was not resolved.
pub proof fn lemma_gathered(outcomes: Seq<Result<MetaView, ListErrorView>>)
    ensures
        gathered(outcomes) is Ok <==> forall|i: int|
            0 <= i < outcomes.len() ==> #[trigger] outcomes[i] is Ok,
        gathered(outcomes) matches Ok(metas) ==> {
            &&& metas.len() == outcomes.len()
            &&& forall|i: int|
                0 <= i < outcomes.len() ==> #[trigger] outcomes[i] == Ok::<MetaView, ListErrorView>(
                    metas[i],
                )
        },
        gathered(outcomes) matches Err(e) ==> exists|k: int|
            {
                &&& 0 <= k < outcomes.len()
                &&& #[trigger] outcomes[k] == Err::<MetaView, ListErrorView>(e)
                &&& forall|i: int| 0 <= i < k ==> #[trigger] outcomes[i] is Ok
            },
{
    lemma_leading_records(outcomes);
    let records = leading_records(outcomes);
    if records.len() < outcomes.len() {
        let k = records.len() as int;
        assert(outcomes[k] is Err);
        assert(outcomes[k] == Err::<MetaView, ListErrorView>(outcomes[k]->Err_0));
        assert forall|i: int| 0 <= i < k implies #[trigger] outcomes[i] is Ok by {
            assert(outcomes[i] == Ok::<MetaView, ListErrorView>(records[i]));
        }
    }
}

/// After a failure the leading records stay as they are.
pub proof fn lemma_leading_records_stop(outcomes: Seq<Result<MetaView, ListErrorView>>, upto: int)
    requires
        0 <= upto <= outcomes.len(),
        leading_records(outcomes.take(upto)).len() < upto,
    ensures
        leading_records(outcomes) == leading_records(outcomes.take(upto)),
    decreases outcomes.len() - upto,
{
    if upto < outcomes.len() {
        assert(outcomes.take(upto + 1).drop_last() =~= outcomes.take(upto));
        lemma_leading_records_stop(outcomes, upto + 1);
    } else {
        assert(outcomes.take(upto) =~= outcomes);
    }
}

/// The records of a batch, each made ready for the table.
pub open spec fn formatted_all(metas: Seq<MetaView>, widths: Widths) -> Seq<MetaView> {
    Seq::new(metas.len(), |i: int| formatted(metas[i], widths))
}

/// The lines of the table of a batch: one for each record, in the order of
/// the records, each padded to the widths of the batch.
pub open spec fn table_lines(metas: Seq<MetaView>, widths: Widths) -> Seq<Seq<char>> {
    Seq::new(metas.len(), |i: int| row_text(formatted(metas[i], widths)))
}

/// In the table of a batch every padded field of every line is exactly as
/// long as the widest text of its column in that batch, and so at least as
/// long as the maximum that was tracked: padding never shrinks a field.
pub proof fn lemma_table_aligned(metas: Seq<MetaView>, i: int)
    requires
        0 <= i < metas.len(),
    ensures
        ({
            let widths = observe_all(no_widths(), metas);
            let shown = formatted(metas[i], widths);
            &&& table_lines(metas, widths)[i] == row_text(shown)
            &&& text_len(shown.group) == widths.group
            &&& text_len(shown.user) == widths.user
            &&& text_len(shown.filesize) == widths.filesize
            &&& text_len(shown.size_uint) == widths.sizeuint
            &&& metas[i].group.is_prefix_of(shown.group)
            &&& metas[i].user.is_prefix_of(shown.user)
            &&& metas[i].filesize.is_prefix_of(shown.filesize)
            &&& metas[i].size_uint.is_prefix_of(shown.size_uint)
            &&& shown.permission == metas[i].permission
            &&& shown.time == metas[i].time
        }),
{
    let widths = observe_all(no_widths(), metas);
    lemma_observe_all_covers(no_widths(), metas);
    lemma_formatted_fields(metas[i], widths);
}

/// A batch whose entries have been resolved: for each entry its record, or
/// the failure to make it.
#[derive(Debug)]
pub struct ResolvedBatch {
    /// The directory whose children these are; `None` for the files given as
    /// arguments.
    pub dir: Option<String>,
    /// What resolving each entry gave; `None` where the directory could not
    /// be read.
    pub outcomes: Option<Vec<Result<Meta, ListError>>>,
}

/// A [`ResolvedBatch`] as a plain value.
pub struct ResolvedBatchView {
    pub dir: Option<Seq<char>>,
    pub outcomes: Option<Seq<Result<MetaView, ListErrorView>>>,
}

impl View for ResolvedBatch {
    type V = ResolvedBatchView;

    open spec fn view(&self) -> ResolvedBatchView {
        ResolvedBatchView {
            dir: match self.dir {
                Some(path) => Some(path@),
                None => None,
            },
            outcomes: match self.outcomes {
                Some(outcomes) => Some(outcomes_view(outcomes@)),
                None => None,
            },
        }
    }
}

impl DeepView for ResolvedBatch {
    type V = ResolvedBatchView;

    open spec fn deep_view(&self) -> ResolvedBatchView {
        self@
    }
}

/// The failure of a directory that could not be read.
pub open spec fn unreadable(dir: Option<Seq<char>>) -> ListErrorView {
    ListErrorView {
        kind: ErrorKind::DirectoryUnreadable,
        path: match dir {
            Some(path) => path,
            None => Seq::empty(),
        },
    }
}

/// What one batch gives in the long view: the table of its records, padded
/// to the widths of this batch alone.
pub open spec fn long_outcome(batch: ResolvedBatchView) -> Result<Seq<Seq<char>>, ListErrorView> {
    match batch.outcomes {
        None => Err(unreadable(batch.dir)),
        Some(outcomes) => match gathered(outcomes) {
            Err(e) => Err(e),
            Ok(metas) => Ok(table_lines(metas, observe_all(no_widths(), metas))),
        },
    }
}

/// Whether `outcomes` is what resolving `entries` one after another can give,
/// where the first failure ends it: an outcome for each entry up to the first
/// that fails, and none for those behind it.
pub open spec fn resolves_entries(
    entries: Seq<EntryView>,
    outcomes: Seq<Result<MetaView, ListErrorView>>,
) -> bool {
    &&& outcomes.len() <= entries.len()
    &&& forall|i: int| 0 <= i < outcomes.len() ==> resolves(#[trigger] entries[i], outcomes[i])
    &&& forall|i: int| 0 <= i < outcomes.len() - 1 ==> (#[trigger] outcomes[i]) is Ok
    &&& outcomes.len() < entries.len() ==> outcomes.len() > 0 && outcomes.last() is Err
}

/// Whether `resolved` is what resolving the entries of `batch` can give.
pub open spec fn resolves_batch(batch: BatchView, resolved: ResolvedBatchView) -> bool {
    &&& resolved.dir == batch.dir
    &&& match batch.entries {
        None => resolved.outcomes is None,
        Some(entries) => {
            &&& resolved.outcomes is Some
            &&& resolves_entries(entries, resolved.outcomes->0)
        },
    }
}

/// Whether `resolved` is what resolving the batches one after another can
/// give, where the first failure ends it: every batch up to the first that
/// fails, be it for a directory that could not be read or for an entry that
/// could not be resolved, and none of those behind it.
pub open spec fn resolves_plan(batches: Seq<BatchView>, resolved: Seq<ResolvedBatchView>) -> bool {
    &&& resolved.len() <= batches.len()
    &&& forall|b: int| 0 <= b < resolved.len() ==> resolves_batch(#[trigger] batches[b], resolved[b])
    &&& forall|b: int| 0 <= b < resolved.len() - 1 ==> long_outcome(#[trigger] resolved[b]) is Ok
    &&& resolved.len() < batches.len() ==> resolved.len() > 0 && long_outcome(resolved.last()) is Err
}

/// The table of a batch whose records were made ready before is the same
/// table: formatting is done once, however often it is asked for.
pub proof fn lemma_table_idempotent(metas: Seq<MetaView>, widths: Widths)
    ensures
        formatted_all(formatted_all(metas, widths), widths) == formatted_all(metas, widths),
        table_lines(formatted_all(metas, widths), widths) == table_lines(metas, widths),
{
    assert forall|i: int| 0 <= i < metas.len() implies formatted(
        #[trigger] formatted_all(metas, widths)[i],
        widths,
    ) == formatted(metas[i], widths) by {
        lemma_formatted_idempotent(metas[i], widths);
    }
    assert(formatted_all(formatted_all(metas, widths), widths) =~= formatted_all(metas, widths));
    assert(table_lines(formatted_all(metas, widths), widths) =~= table_lines(metas, widths));
}

} // verus!
