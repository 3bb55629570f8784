//! The widths of the columns of a table: for each padded field, the length of
//! its longest text in one batch.

use vstd::prelude::*;

use crate::meta::{Meta, MetaView};
use crate::text::{byte_len, text_len};

verus! {

/// The running maxima of one batch: the greatest length seen so far of the
/// owner, the size's number, the size's unit and the group.
#[derive(Clone, Copy, Debug)]
pub struct MaxInfo {
    pub user: usize,
    pub filesize: usize,
    pub sizeuint: usize,
    pub group: usize,
}

/// The column widths as numbers without bound.
pub struct Widths {
    pub user: nat,
    pub filesize: nat,
    pub sizeuint: nat,
    pub group: nat,
}

impl View for MaxInfo {
    type V = Widths;

    open spec fn view(&self) -> Widths {
        Widths {
            user: self.user as nat,
            filesize: self.filesize as nat,
            sizeuint: self.sizeuint as nat,
            group: self.group as nat,
        }
    }
}

impl Default for MaxInfo {
    /// The maxima of the empty batch: all zero.
    fn default() -> (info: MaxInfo)
        ensures
            info@ == no_widths(),
    {
        MaxInfo { user: 0, filesize: 0, sizeuint: 0, group: 0 }
    }
}

/// The greater of two numbers.
pub open spec fn greater(a: nat, b: nat) -> nat {
    if a < b {
        b
    } else {
        a
    }
}

/// The widths of the empty batch.
pub open spec fn no_widths() -> Widths {
    Widths { user: 0, filesize: 0, sizeuint: 0, group: 0 }
}

/// The widths after one more record: each the greater of what it was and the
/// length of the record's text.
pub open spec fn observe(widths: Widths, meta: MetaView) -> Widths {
    Widths {
        user: greater(widths.user, text_len(meta.user)),
        filesize: greater(widths.filesize, text_len(meta.filesize)),
        sizeuint: greater(widths.sizeuint, text_len(meta.size_uint)),
        group: greater(widths.group, text_len(meta.group)),
    }
}

/// The widths after all the records of `metas`, taken in order.
pub open spec fn observe_all(widths: Widths, metas: Seq<MetaView>) -> Widths
    decreases metas.len(),
{
    if metas.len() == 0 {
        widths
    } else {
        observe(observe_all(widths, metas.drop_last()), metas.last())
    }
}

/// Whether every field of `a` is at most that of `b`.
pub open spec fn within(a: Widths, b: Widths) -> bool {
    &&& a.user <= b.user
    &&& a.filesize <= b.filesize
    &&& a.sizeuint <= b.sizeuint
    &&& a.group <= b.group
}

/// Whether the padded fields of `meta` fit the widths.
pub open spec fn fits(meta: MetaView, widths: Widths) -> bool {
    &&& text_len(meta.user) <= widths.user
    &&& text_len(meta.filesize) <= widths.filesize
    &&& text_len(meta.size_uint) <= widths.sizeuint
    &&& text_len(meta.group) <= widths.group
}

/// Takes one record into the running maxima.
pub fn max(meta: &Meta, dirinfo: &mut MaxInfo)
    ensures
        final(dirinfo)@ == observe(old(dirinfo)@, meta@),
{
    let filesize = byte_len(meta.filesize.as_str());
    if filesize > dirinfo.filesize {
        dirinfo.filesize = filesize;
    }
    let group = byte_len(meta.group.as_str());
    if group > dirinfo.group {
        dirinfo.group = group;
    }
    let user = byte_len(meta.user.as_str());
    if user > dirinfo.user {
        dirinfo.user = user;
    }
    let sizeuint = byte_len(meta.size_uint.as_str());
    if sizeuint > dirinfo.sizeuint {
        dirinfo.sizeuint = sizeuint;
    }
}

/// The maxima never decrease, and they cover the record that was observed.
pub proof fn lemma_observe_grows(widths: Widths, meta: MetaView)
    ensures
        within(widths, observe(widths, meta)),
        fits(meta, observe(widths, meta)),
{
}

/// Observing a record a second time changes nothing.
pub proof fn lemma_observe_idempotent(widths: Widths, meta: MetaView)
    ensures
        observe(observe(widths, meta), meta) == observe(widths, meta),
{
}

/// The order in which two records are observed does not matter.
pub proof fn lemma_observe_commutes(widths: Widths, a: MetaView, b: MetaView)
    ensures
        observe(observe(widths, a), b) == observe(observe(widths, b), a),
{
}

/// The maxima of a batch cover every record of it, and are no less than the
/// maxima from which the batch started.
pub proof fn lemma_observe_all_covers(widths: Widths, metas: Seq<MetaView>)
    ensures
        within(widths, observe_all(widths, metas)),
        forall|i: int| 0 <= i < metas.len() ==> fits(#[trigger] metas[i], observe_all(widths, metas)),
    decreases metas.len(),
{
    if metas.len() > 0 {
        let front = metas.drop_last();
        lemma_observe_all_covers(widths, front);
        assert forall|i: int| 0 <= i < metas.len() implies fits(
            #[trigger] metas[i],
            observe_all(widths, metas),
        ) by {
            if i < front.len() {
                assert(metas[i] == front[i]);
            }
        }
    }
}

/// Each maximum of a batch that starts from nothing is the length of a field
/// of one of its records, or zero for the empty batch.
pub proof fn lemma_observe_all_attained(metas: Seq<MetaView>)
    ensures
        metas.len() == 0 ==> observe_all(no_widths(), metas) == no_widths(),
        metas.len() > 0 ==> {
            let w = observe_all(no_widths(), metas);
            &&& exists|i: int| 0 <= i < metas.len() && text_len(#[trigger] metas[i].user) == w.user
            &&& exists|i: int|
                0 <= i < metas.len() && text_len(#[trigger] metas[i].filesize) == w.filesize
            &&& exists|i: int|
                0 <= i < metas.len() && text_len(#[trigger] metas[i].size_uint) == w.sizeuint
            &&& exists|i: int| 0 <= i < metas.len() && text_len(#[trigger] metas[i].group) == w.group
        },
    decreases metas.len(),
{
    if metas.len() > 0 {
        let front = metas.drop_last();
        let last = metas.len() - 1;
        let w = observe_all(no_widths(), metas);
        lemma_observe_all_attained(front);
        if front.len() == 0 {
            assert(text_len(metas[last].user) == w.user);
            assert(text_len(metas[last].filesize) == w.filesize);
            assert(text_len(metas[last].size_uint) == w.sizeuint);
            assert(text_len(metas[last].group) == w.group);
        } else {
            let v = observe_all(no_widths(), front);
            let iu = choose|i: int| 0 <= i < front.len() && text_len(#[trigger] front[i].user) == v.user;
            let k = if text_len(metas[last].user) > v.user { last } else { iu };
            assert(metas[iu] == front[iu]);
            assert(text_len(metas[k].user) == w.user);
            let ifs = choose|i: int|
                0 <= i < front.len() && text_len(#[trigger] front[i].filesize) == v.filesize;
            let k = if text_len(metas[last].filesize) > v.filesize { last } else { ifs };
            assert(metas[ifs] == front[ifs]);
            assert(text_len(metas[k].filesize) == w.filesize);
            let isu = choose|i: int|
                0 <= i < front.len() && text_len(#[trigger] front[i].size_uint) == v.sizeuint;
            let k = if text_len(metas[last].size_uint) > v.sizeuint { last } else { isu };
            assert(metas[isu] == front[isu]);
            assert(text_len(metas[k].size_uint) == w.sizeuint);
            let ig = choose|i: int| 0 <= i < front.len() && text_len(#[trigger] front[i].group) == v.group;
            let k = if text_len(metas[last].group) > v.group { last } else { ig };
            assert(metas[ig] == front[ig]);
            assert(text_len(metas[k].group) == w.group);
        }
    }
}

/// Observing one record more, at the end, is observing it in any place.
pub proof fn lemma_observe_all_remove(widths: Widths, metas: Seq<MetaView>, at: int)
    requires
        0 <= at < metas.len(),
    ensures
        observe_all(widths, metas) == observe(observe_all(widths, metas.remove(at)), metas[at]),
    decreases metas.len(),
{
    let front = metas.drop_last();
    if at == metas.len() - 1 {
        assert(metas.remove(at) =~= front);
    } else {
        let without = metas.remove(at);
        assert(without.drop_last() =~= front.remove(at));
        assert(without.last() == metas.last());
        assert(front[at] == metas[at]);
        lemma_observe_all_remove(widths, front, at);
        lemma_observe_commutes(observe_all(widths, front.remove(at)), metas[at], metas.last());
    }
}

/// The order in which the records of a batch are observed does not matter:
/// the same records, in any order, give the same maxima.
pub proof fn lemma_observe_all_ignores_order(widths: Widths, a: Seq<MetaView>, b: Seq<MetaView>)
    requires
        a.to_multiset() == b.to_multiset(),
    ensures
        observe_all(widths, a) == observe_all(widths, b),
    decreases a.len(),
{
    broadcast use vstd::seq_lib::group_to_multiset_ensures;

    vstd::seq_lib::to_multiset_len(a);
    vstd::seq_lib::to_multiset_len(b);
    if a.len() == 0 {
        assert(b =~= a);
    } else {
        let last = a.len() - 1;
        assert(a.to_multiset().count(a[last]) > 0);
        assert(b.contains(a[last]));
        let at = choose|at: int| 0 <= at < b.len() && b[at] == a[last];
        assert(a.remove(last).to_multiset() == b.remove(at).to_multiset());
        lemma_observe_all_ignores_order(widths, a.remove(last), b.remove(at));
        lemma_observe_all_remove(widths, a, last);
        lemma_observe_all_remove(widths, b, at);
    }
}

} // verus!
