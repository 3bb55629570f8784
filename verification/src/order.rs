//! The order of paths: byte by byte, as their text is encoded.

use vstd::prelude::*;
use vstd::string::*;
use vstd::utf8::encode_utf8;

verus! {

/// Whether `a` comes before `b`, or is `b`, in the order of byte strings: at
/// the first place where they differ the smaller byte decides, and where one
/// ends first, the shorter comes first.
pub open spec fn bytes_le(a: Seq<u8>, b: Seq<u8>) -> bool
    decreases a.len(),
{
    if a.len() == 0 {
        true
    } else if b.len() == 0 {
        false
    } else if a[0] != b[0] {
        a[0] < b[0]
    } else {
        bytes_le(a.drop_first(), b.drop_first())
    }
}

/// Whether the path `a` comes before the path `b` or is the same.
pub open spec fn path_le(a: Seq<char>, b: Seq<char>) -> bool {
    bytes_le(encode_utf8(a), encode_utf8(b))
}

/// Every byte string is at most itself.
pub proof fn lemma_bytes_le_reflexive(a: Seq<u8>)
    ensures
        bytes_le(a, a),
    decreases a.len(),
{
    if a.len() > 0 {
        lemma_bytes_le_reflexive(a.drop_first());
    }
}

/// Of two byte strings one is at most the other.
pub proof fn lemma_bytes_le_total(a: Seq<u8>, b: Seq<u8>)
    ensures
        bytes_le(a, b) || bytes_le(b, a),
    decreases a.len(),
{
    if a.len() > 0 && b.len() > 0 && a[0] == b[0] {
        lemma_bytes_le_total(a.drop_first(), b.drop_first());
    }
}

/// The order carries over a middle term.
pub proof fn lemma_bytes_le_transitive(a: Seq<u8>, b: Seq<u8>, c: Seq<u8>)
    requires
        bytes_le(a, b),
        bytes_le(b, c),
    ensures
        bytes_le(a, c),
    decreases a.len(),
{
    if a.len() > 0 && b.len() > 0 && c.len() > 0 && a[0] == b[0] && b[0] == c[0] {
        lemma_bytes_le_transitive(a.drop_first(), b.drop_first(), c.drop_first());
    }
}

/// Two byte strings that are each at most the other are the same.
pub proof fn lemma_bytes_le_antisymmetric(a: Seq<u8>, b: Seq<u8>)
    requires
        bytes_le(a, b),
        bytes_le(b, a),
    ensures
        a == b,
    decreases a.len(),
{
    if a.len() > 0 && b.len() > 0 {
        lemma_bytes_le_antisymmetric(a.drop_first(), b.drop_first());
        assert(a =~= seq![a[0]] + a.drop_first());
        assert(b =~= seq![b[0]] + b.drop_first());
    } else {
        assert(a =~= b);
    }
}

/// Whether the path `a` comes before the path `b` or is the same.
pub fn path_before_or_same(a: &str, b: &str) -> (le: bool)
    ensures
        le == path_le(a@, b@),
{
    let x = a.as_bytes();
    let y = b.as_bytes();
    let mut at: usize = 0;
    let mut same = true;
    assert(x@.skip(0) == x@ && y@.skip(0) == y@);
    while same && at < x.len() && at < y.len()
        invariant
            at <= x.len(),
            at <= y.len(),
            same ==> bytes_le(x@, y@) == bytes_le(x@.skip(at as int), y@.skip(at as int)),
            !same ==> at < x.len() && at < y.len() && x@[at as int] != y@[at as int]
                && bytes_le(x@, y@) == (x@[at as int] < y@[at as int]),
        decreases x.len() - at + if same { 1int } else { 0int },
    {
        let ghost xs = x@.skip(at as int);
        let ghost ys = y@.skip(at as int);
        if x[at] == y[at] {
            assert(xs.drop_first() == x@.skip(at + 1));
            assert(ys.drop_first() == y@.skip(at + 1));
            at = at + 1;
        } else {
            same = false;
        }
    }
    if !same {
        x[at] < y[at]
    } else {
        at == x.len()
    }
}

/// Something that has a path and is put in order by it.
pub trait Pathed: DeepView {
    /// The path, read from the plain value.
    spec fn key(view: Self::V) -> Seq<char>;

    /// The path.
    fn path_text(&self) -> (path: &str)
        ensures
            path@ == Self::key(self.deep_view()),
    ;
}

/// `sorted` with `item` put in front of the first item that does not come
/// before it; at the end where every item comes before it.
pub open spec fn inserted<T: Pathed>(item: T::V, sorted: Seq<T::V>) -> Seq<T::V>
    decreases sorted.len(),
{
    if sorted.len() == 0 {
        seq![item]
    } else if path_le(T::key(item), T::key(sorted[0])) {
        seq![item] + sorted
    } else {
        seq![sorted[0]] + inserted::<T>(item, sorted.drop_first())
    }
}

/// The items in the order of their paths. Items with one path keep the order
/// in which they were given.
pub open spec fn sorted_by_path<T: Pathed>(items: Seq<T::V>) -> Seq<T::V>
    decreases items.len(),
{
    if items.len() == 0 {
        Seq::empty()
    } else {
        inserted::<T>(items[0], sorted_by_path::<T>(items.drop_first()))
    }
}

/// Whether no item comes after one with a greater path.
pub open spec fn in_path_order<T: Pathed>(items: Seq<T::V>) -> bool {
    forall|i: int, j: int|
        0 <= i <= j < items.len() ==> path_le(T::key(#[trigger] items[i]), T::key(#[trigger] items[j]))
}

/// Where `at` is the first place whose item does not come before `item`,
/// inserting by path is inserting at `at`.
pub proof fn lemma_inserted_at<T: Pathed>(item: T::V, sorted: Seq<T::V>, at: int)
    requires
        0 <= at <= sorted.len(),
        forall|k: int| 0 <= k < at ==> !path_le(T::key(item), T::key(#[trigger] sorted[k])),
        at < sorted.len() ==> path_le(T::key(item), T::key(sorted[at])),
    ensures
        inserted::<T>(item, sorted) == sorted.insert(at, item),
    decreases sorted.len(),
{
    if sorted.len() == 0 {
        assert(seq![item] =~= sorted.insert(at, item));
    } else if at == 0 {
        assert(seq![item] + sorted =~= sorted.insert(0, item));
    } else {
        let rest = sorted.drop_first();
        assert(!path_le(T::key(item), T::key(sorted[0])));
        assert forall|k: int| 0 <= k < at - 1 implies !path_le(
            T::key(item),
            T::key(#[trigger] rest[k]),
        ) by {
            assert(rest[k] == sorted[k + 1]);
        }
        lemma_inserted_at::<T>(item, rest, at - 1);
        assert(seq![sorted[0]] + rest.insert(at - 1, item) =~= sorted.insert(at, item));
    }
}

/// What is at most `item` and at most every item of `sorted` is at most every
/// item after the insertion.
pub proof fn lemma_inserted_bound<T: Pathed>(lower: Seq<char>, item: T::V, sorted: Seq<T::V>)
    requires
        path_le(lower, T::key(item)),
        forall|k: int| 0 <= k < sorted.len() ==> path_le(lower, T::key(#[trigger] sorted[k])),
    ensures
        forall|k: int|
            0 <= k < inserted::<T>(item, sorted).len() ==> path_le(
                lower,
                T::key(#[trigger] inserted::<T>(item, sorted)[k]),
            ),
    decreases sorted.len(),
{
    let result = inserted::<T>(item, sorted);
    if sorted.len() > 0 && path_le(T::key(item), T::key(sorted[0])) {
        assert forall|k: int| 0 <= k < result.len() implies path_le(
            lower,
            T::key(#[trigger] result[k]),
        ) by {
            if k > 0 {
                assert(result[k] == sorted[k - 1]);
            }
        }
    } else if sorted.len() > 0 {
        let rest = sorted.drop_first();
        assert forall|k: int| 0 <= k < rest.len() implies path_le(
            lower,
            T::key(#[trigger] rest[k]),
        ) by {
            assert(rest[k] == sorted[k + 1]);
        }
        lemma_inserted_bound::<T>(lower, item, rest);
        let tail = inserted::<T>(item, rest);
        assert forall|k: int| 0 <= k < result.len() implies path_le(
            lower,
            T::key(#[trigger] result[k]),
        ) by {
            if k > 0 {
                assert(result[k] == tail[k - 1]);
            }
        }
    }
}

/// Inserting into items in path order gives items in path order.
pub proof fn lemma_inserted_in_order<T: Pathed>(item: T::V, sorted: Seq<T::V>)
    requires
        in_path_order::<T>(sorted),
    ensures
        in_path_order::<T>(inserted::<T>(item, sorted)),
    decreases sorted.len(),
{
    let result = inserted::<T>(item, sorted);
    if sorted.len() == 0 {
        lemma_bytes_le_reflexive(encode_utf8(T::key(item)));
    } else if path_le(T::key(item), T::key(sorted[0])) {
        assert forall|i: int, j: int| 0 <= i <= j < result.len() implies path_le(
            T::key(#[trigger] result[i]),
            T::key(#[trigger] result[j]),
        ) by {
            if j == 0 {
                lemma_bytes_le_reflexive(encode_utf8(T::key(item)));
            } else if i == 0 {
                assert(result[j] == sorted[j - 1]);
                assert(path_le(T::key(sorted[0]), T::key(sorted[j - 1])));
                lemma_bytes_le_transitive(
                    encode_utf8(T::key(item)),
                    encode_utf8(T::key(sorted[0])),
                    encode_utf8(T::key(sorted[j - 1])),
                );
            } else {
                assert(result[i] == sorted[i - 1] && result[j] == sorted[j - 1]);
            }
        }
    } else {
        let first = sorted[0];
        let rest = sorted.drop_first();
        assert forall|i: int, j: int| 0 <= i <= j < rest.len() implies path_le(
            T::key(#[trigger] rest[i]),
            T::key(#[trigger] rest[j]),
        ) by {
            assert(rest[i] == sorted[i + 1] && rest[j] == sorted[j + 1]);
        }
        lemma_inserted_in_order::<T>(item, rest);
        lemma_bytes_le_total(encode_utf8(T::key(item)), encode_utf8(T::key(first)));
        assert forall|k: int| 0 <= k < rest.len() implies path_le(
            T::key(first),
            T::key(#[trigger] rest[k]),
        ) by {
            assert(rest[k] == sorted[k + 1]);
        }
        lemma_inserted_bound::<T>(T::key(first), item, rest);
        let tail = inserted::<T>(item, rest);
        assert forall|i: int, j: int| 0 <= i <= j < result.len() implies path_le(
            T::key(#[trigger] result[i]),
            T::key(#[trigger] result[j]),
        ) by {
            if j == 0 {
                lemma_bytes_le_reflexive(encode_utf8(T::key(first)));
            } else if i == 0 {
                assert(result[j] == tail[j - 1]);
            } else {
                assert(result[i] == tail[i - 1] && result[j] == tail[j - 1]);
            }
        }
    }
}

/// Inserting makes the sequence longer by one.
pub proof fn lemma_inserted_len<T: Pathed>(item: T::V, sorted: Seq<T::V>)
    ensures
        inserted::<T>(item, sorted).len() == sorted.len() + 1,
    decreases sorted.len(),
{
    if sorted.len() > 0 && !path_le(T::key(item), T::key(sorted[0])) {
        lemma_inserted_len::<T>(item, sorted.drop_first());
    }
}

/// Inserting keeps every item, as often as it was there, and adds the new
/// one.
pub proof fn lemma_inserted_items<T: Pathed>(item: T::V, sorted: Seq<T::V>)
    ensures
        inserted::<T>(item, sorted).to_multiset() == sorted.to_multiset().insert(item),
    decreases sorted.len(),
{
    let result = inserted::<T>(item, sorted);
    if sorted.len() == 0 || path_le(T::key(item), T::key(sorted[0])) {
        assert(result =~= sorted.insert(0, item));
        vstd::seq_lib::to_multiset_insert(sorted, 0, item);
    } else {
        let rest = sorted.drop_first();
        let tail = inserted::<T>(item, rest);
        lemma_inserted_items::<T>(item, rest);
        assert(result =~= tail.insert(0, sorted[0]));
        vstd::seq_lib::to_multiset_insert(tail, 0, sorted[0]);
        assert(sorted =~= rest.insert(0, sorted[0]));
        vstd::seq_lib::to_multiset_insert(rest, 0, sorted[0]);
        assert(result.to_multiset() =~= sorted.to_multiset().insert(item));
    }
}

/// Sorting by path gives the same items, each as often as it was given, in
/// the order of their paths.
pub proof fn lemma_sorted_by_path<T: Pathed>(items: Seq<T::V>)
    ensures
        in_path_order::<T>(sorted_by_path::<T>(items)),
        sorted_by_path::<T>(items).to_multiset() == items.to_multiset(),
        sorted_by_path::<T>(items).len() == items.len(),
    decreases items.len(),
{
    if items.len() == 0 {
        assert(sorted_by_path::<T>(items) =~= items);
    } else {
        let rest = items.drop_first();
        let sorted = sorted_by_path::<T>(rest);
        lemma_sorted_by_path::<T>(rest);
        lemma_inserted_in_order::<T>(items[0], sorted);
        lemma_inserted_items::<T>(items[0], sorted);
        lemma_inserted_len::<T>(items[0], sorted);
        assert(items =~= rest.insert(0, items[0]));
        vstd::seq_lib::to_multiset_insert(rest, 0, items[0]);
    }
}

/// Two paths that each come before the other or are the same are the same.
pub proof fn lemma_path_le_antisymmetric(a: Seq<char>, b: Seq<char>)
    requires
        path_le(a, b),
        path_le(b, a),
    ensures
        a == b,
{
    lemma_bytes_le_antisymmetric(encode_utf8(a), encode_utf8(b));
    vstd::utf8::encode_utf8_decode_utf8(a);
    vstd::utf8::encode_utf8_decode_utf8(b);
}

/// Whether items with one path are one and the same item.
pub open spec fn one_item_per_path<T: Pathed>(items: Seq<T::V>) -> bool {
    forall|i: int, j: int|
        0 <= i < items.len() && 0 <= j < items.len() && T::key(#[trigger] items[i]) == T::key(
            #[trigger] items[j],
        ) ==> items[i] == items[j]
}

/// There is one way only to put items in the order of their paths, where
/// items with one path are one item: two sequences in path order that hold
/// the same items, each as often, are the same sequence.
pub proof fn lemma_path_order_unique<T: Pathed>(a: Seq<T::V>, b: Seq<T::V>)
    requires
        in_path_order::<T>(a),
        in_path_order::<T>(b),
        a.to_multiset() == b.to_multiset(),
        one_item_per_path::<T>(a),
    ensures
        a == b,
    decreases a.len(),
{
    broadcast use vstd::seq_lib::group_to_multiset_ensures;

    vstd::seq_lib::to_multiset_len(a);
    vstd::seq_lib::to_multiset_len(b);
    if a.len() == 0 {
        assert(a =~= b);
    } else {
        assert(a.to_multiset().count(a[0]) > 0);
        assert(b.contains(a[0]));
        let j = choose|j: int| 0 <= j < b.len() && b[j] == a[0];
        assert(path_le(T::key(b[0]), T::key(b[j])));
        assert(b.to_multiset().count(b[0]) > 0);
        assert(a.contains(b[0]));
        let i = choose|i: int| 0 <= i < a.len() && a[i] == b[0];
        assert(path_le(T::key(a[0]), T::key(a[i])));
        lemma_path_le_antisymmetric(T::key(a[0]), T::key(b[0]));
        assert(a[0] == a[i]);
        let x = a.remove(0);
        let y = b.remove(0);
        assert(x.to_multiset() == y.to_multiset());
        assert forall|p: int, q: int| 0 <= p <= q < x.len() implies path_le(
            T::key(#[trigger] x[p]),
            T::key(#[trigger] x[q]),
        ) by {
            assert(x[p] == a[p + 1] && x[q] == a[q + 1]);
        }
        assert forall|p: int, q: int| 0 <= p <= q < y.len() implies path_le(
            T::key(#[trigger] y[p]),
            T::key(#[trigger] y[q]),
        ) by {
            assert(y[p] == b[p + 1] && y[q] == b[q + 1]);
        }
        assert forall|p: int, q: int|
            0 <= p < x.len() && 0 <= q < x.len() && T::key(#[trigger] x[p]) == T::key(
                #[trigger] x[q],
            ) implies x[p] == x[q] by {
            assert(x[p] == a[p + 1] && x[q] == a[q + 1]);
        }
        lemma_path_order_unique::<T>(x, y);
        assert(a =~= seq![a[0]] + x);
        assert(b =~= seq![b[0]] + y);
    }
}

/// The order in which items are given does not matter to their order by
/// path, where items with one path are one item: the same items, given in any
/// order, are sorted into the same sequence.
pub proof fn lemma_sorted_by_path_ignores_order<T: Pathed>(a: Seq<T::V>, b: Seq<T::V>)
    requires
        a.to_multiset() == b.to_multiset(),
        one_item_per_path::<T>(a),
    ensures
        sorted_by_path::<T>(a) == sorted_by_path::<T>(b),
{
    broadcast use vstd::seq_lib::group_to_multiset_ensures;

    let x = sorted_by_path::<T>(a);
    let y = sorted_by_path::<T>(b);
    lemma_sorted_by_path::<T>(a);
    lemma_sorted_by_path::<T>(b);
    assert forall|p: int, q: int|
        0 <= p < x.len() && 0 <= q < x.len() && T::key(#[trigger] x[p]) == T::key(
            #[trigger] x[q],
        ) implies x[p] == x[q] by {
        assert(x.to_multiset().count(x[p]) > 0);
        assert(x.to_multiset().count(x[q]) > 0);
        assert(a.contains(x[p]) && a.contains(x[q]));
        let i = choose|i: int| 0 <= i < a.len() && a[i] == x[p];
        let j = choose|j: int| 0 <= j < a.len() && a[j] == x[q];
        assert(T::key(a[i]) == T::key(a[j]));
    }
    lemma_path_order_unique::<T>(x, y);
}

/// Sorting what is in path order changes nothing.
pub proof fn lemma_sorted_by_path_stays<T: Pathed>(items: Seq<T::V>)
    requires
        in_path_order::<T>(items),
    ensures
        sorted_by_path::<T>(items) == items,
    decreases items.len(),
{
    if items.len() == 0 {
        assert(sorted_by_path::<T>(items) =~= items);
    } else {
        let rest = items.drop_first();
        assert forall|p: int, q: int| 0 <= p <= q < rest.len() implies path_le(
            T::key(#[trigger] rest[p]),
            T::key(#[trigger] rest[q]),
        ) by {
            assert(rest[p] == items[p + 1] && rest[q] == items[q + 1]);
        }
        lemma_sorted_by_path_stays::<T>(rest);
        if rest.len() > 0 {
            assert(rest[0] == items[1]);
            assert(path_le(T::key(items[0]), T::key(items[1])));
        }
        assert(seq![items[0]] + rest =~= items);
    }
}

/// Puts `item` into `sorted` at its place in the order of paths: in front of
/// the first item that does not come before it.
pub fn insert_by_path<T: Pathed>(sorted: &mut Vec<T>, item: T)
    ensures
        final(sorted).deep_view() == inserted::<T>(item.deep_view(), old(sorted).deep_view()),
{
    let mut at: usize = 0;
    let mut found = false;
    while !found && at < sorted.len()
        invariant
            at <= sorted.len(),
            sorted == old(sorted),
            forall|k: int|
                0 <= k < at ==> !path_le(
                    T::key(item.deep_view()),
                    T::key(#[trigger] sorted.deep_view()[k]),
                ),
            found ==> at < sorted.len() && path_le(
                T::key(item.deep_view()),
                T::key(sorted.deep_view()[at as int]),
            ),
        decreases sorted.len() - at + if found { 0int } else { 1int },
    {
        if path_before_or_same(item.path_text(), sorted[at].path_text()) {
            found = true;
        } else {
            at = at + 1;
        }
    }
    proof {
        lemma_inserted_at::<T>(item.deep_view(), sorted.deep_view(), at as int);
    }
    sorted.insert(at, item);
}

/// Puts the items in the order of their paths. Items with one path keep the
/// order in which they were given.
pub fn sort_by_path<T: Pathed>(items: Vec<T>) -> (sorted: Vec<T>)
    ensures
        sorted.deep_view() == sorted_by_path::<T>(items.deep_view()),
        in_path_order::<T>(sorted.deep_view()),
        sorted.deep_view().to_multiset() == items.deep_view().to_multiset(),
{
    let ghost all = items.deep_view();
    proof {
        lemma_sorted_by_path::<T>(all);
    }
    let mut rest = items;
    let mut sorted: Vec<T> = Vec::new();
    while rest.len() > 0
        invariant
            rest.len() <= all.len(),
            rest.deep_view() == all.take(rest.len() as int),
            sorted.deep_view() == sorted_by_path::<T>(all.skip(rest.len() as int)),
        decreases rest.len(),
    {
        let ghost before = rest.deep_view();
        let item = rest.pop().unwrap();
        proof {
            let at = rest.len() as int;
            assert(item.deep_view() == before[at]);
            assert(all.skip(at).drop_first() =~= all.skip(at + 1));
        }
        insert_by_path(&mut sorted, item);
    }
    assert(all.skip(0) =~= all);
    sorted
}

} // verus!
