//! Rows of texts, their order, and lists that are kept in that order.

use vstd::prelude::*;

use crate::text::precedes;

verus! {

use crate::text::{law_text_order, text_precedes};

/// The texts of a row, in order.
pub open spec fn texts(values: Seq<&str>) -> Seq<Seq<char>> {
    values.map_values(|value: &str| value@)
}

/// Whether the row `a` comes before the row `b`: the first text in which they differ decides.
pub open spec fn row_precedes(a: Seq<Seq<char>>, b: Seq<Seq<char>>) -> bool
    decreases a.len(),
{
    if b.len() == 0 {
        false
    } else if a.len() == 0 {
        true
    } else {
        text_precedes(a[0], b[0]) || (a[0] == b[0] && row_precedes(a.skip(1), b.skip(1)))
    }
}

/// Whether the row `a` comes before the row `b`.
pub(crate) fn comes_before<const N: usize>(a: &[&str; N], b: &[&str; N]) -> (r: bool)
    ensures
        r == row_precedes(texts(a@), texts(b@)),
{
    let ghost left = texts(a@);
    let ghost right = texts(b@);
    let mut i: usize = 0;
    assert(left.skip(0) =~= left);
    assert(right.skip(0) =~= right);
    while i < N
        invariant
            i <= N,
            left == texts(a@),
            right == texts(b@),
            row_precedes(left, right) == row_precedes(left.skip(i as int), right.skip(i as int)),
        decreases N - i,
    {
        proof {
            assert(left.skip(i as int)[0] == a@[i as int]@);
            assert(right.skip(i as int)[0] == b@[i as int]@);
            assert(left.skip(i as int).skip(1) =~= left.skip(i + 1));
            assert(right.skip(i as int).skip(1) =~= right.skip(i + 1));
            law_text_order(a@[i as int]@, b@[i as int]@, a@[i as int]@);
            law_text_order(b@[i as int]@, a@[i as int]@, b@[i as int]@);
        }
        if precedes(a[i], b[i]) {
            return true;
        }
        if precedes(b[i], a[i]) {
            return false;
        }
        i = i + 1;
    }
    false
}

/// No row comes before itself.
proof fn lemma_row_irreflexive(a: Seq<Seq<char>>)
    ensures
        !row_precedes(a, a),
    decreases a.len(),
{
    if a.len() > 0 {
        law_text_order(a[0], a[0], a[0]);
        lemma_row_irreflexive(a.skip(1));
    }
}

/// The order of rows is transitive.
proof fn lemma_row_transitive(a: Seq<Seq<char>>, b: Seq<Seq<char>>, c: Seq<Seq<char>>)
    requires
        row_precedes(a, b),
        row_precedes(b, c),
    ensures
        row_precedes(a, c),
    decreases a.len(),
{
    if a.len() > 0 && b.len() > 0 && c.len() > 0 {
        law_text_order(a[0], b[0], c[0]);
        if a[0] == b[0] && b[0] == c[0] && !text_precedes(a[0], c[0]) {
            lemma_row_transitive(a.skip(1), b.skip(1), c.skip(1));
        }
    }
}

/// Of two different rows one comes before the other.
proof fn lemma_row_total(a: Seq<Seq<char>>, b: Seq<Seq<char>>)
    ensures
        row_precedes(a, b) || row_precedes(b, a) || a == b,
    decreases a.len(),
{
    if a.len() > 0 && b.len() > 0 {
        law_text_order(a[0], b[0], a[0]);
        lemma_row_total(a.skip(1), b.skip(1));
        if a[0] == b[0] && a.skip(1) == b.skip(1) {
            assert(a =~= seq![a[0]] + a.skip(1));
            assert(b =~= seq![b[0]] + b.skip(1));
        }
    } else if a.len() == 0 && b.len() == 0 {
        assert(a =~= b);
    }
}

/// Law: rows are totally ordered. No row comes before itself, the order is transitive, and of two
/// different rows exactly one comes before the other.
pub proof fn law_row_order(a: Seq<Seq<char>>, b: Seq<Seq<char>>, c: Seq<Seq<char>>)
    ensures
        !row_precedes(a, a),
        row_precedes(a, b) && row_precedes(b, c) ==> row_precedes(a, c),
        a != b ==> (row_precedes(a, b) <==> !row_precedes(b, a)),
{
    lemma_row_irreflexive(a);
    if row_precedes(a, b) && row_precedes(b, c) {
        lemma_row_transitive(a, b, c);
    }
    lemma_row_total(a, b);
    if row_precedes(a, b) && row_precedes(b, a) {
        lemma_row_transitive(a, b, a);
    }
}

/// Values that are ordered by a row of texts.
pub trait Comparable: View + Sized {
    /// The row that a value is ordered by.
    spec fn row(model: Self::V) -> Seq<Seq<char>>;

    /// Whether two values are the same in every field.
    fn same_as(&self, other: &Self) -> (r: bool)
        ensures
            r == (self@ == other@),
    ;

    /// Whether the row of `self` comes before that of `other`.
    fn is_before(&self, other: &Self) -> (r: bool)
        ensures
            r == row_precedes(Self::row(self@), Self::row(other@)),
    ;
}

/// The models of a sequence of values.
pub open spec fn views<T: View>(items: Seq<T>) -> Seq<T::V> {
    items.map_values(|item: T| item@)
}

/// Whether `item` is among `items`.
pub(crate) fn contains<T: Comparable>(items: &Vec<T>, item: &T) -> (r: bool)
    ensures
        r == views(items@).contains(item@),
{
    let mut i: usize = 0;
    while i < items.len()
        invariant
            i <= items@.len(),
            forall|j: int| 0 <= j < i ==> (#[trigger] items@[j])@ != item@,
        decreases items@.len() - i,
    {
        if items[i].same_as(item) {
            assert(views(items@)[i as int] == item@);
            return true;
        }
        i = i + 1;
    }
    assert forall|j: int| 0 <= j < views(items@).len() implies (#[trigger] views(items@)[j])
        != item@ by {
        assert(views(items@)[j] == items@[j]@);
    }
    false
}

/// Whether every value comes before those that follow it.
pub open spec fn is_sorted<T: Comparable>(models: Seq<T::V>) -> bool {
    forall|i: int, j: int|
        0 <= i < j < models.len() ==> row_precedes(
            T::row(#[trigger] models[i]),
            T::row(#[trigger] models[j]),
        )
}

/// Whether values with the same row are the same.
pub open spec fn rows_identify<T: Comparable>(models: Set<T::V>) -> bool {
    forall|a: T::V, b: T::V| #[trigger]
        models.contains(a) && #[trigger] models.contains(b) && T::row(a) == T::row(b) ==> a == b
}

/// Law: a sorted list holds no value twice.
pub proof fn law_sorted_has_no_duplicates<T: Comparable>(models: Seq<T::V>)
    requires
        is_sorted::<T>(models),
    ensures
        models.no_duplicates(),
{
    assert forall|i: int, j: int| 0 <= i < models.len() && 0 <= j < models.len() && i != j implies
        models[i] != models[j] by {
        lemma_row_irreflexive(T::row(models[i]));
        if i < j {
            assert(row_precedes(T::row(models[i]), T::row(models[j])));
        } else {
            assert(row_precedes(T::row(models[j]), T::row(models[i])));
        }
    }
}

/// The last value of a sorted list comes after all others of its set.
proof fn lemma_last_is_greatest<T: Comparable>(models: Seq<T::V>, m: T::V)
    requires
        is_sorted::<T>(models),
        models.contains(m),
        m != models.last(),
    ensures
        row_precedes(T::row(m), T::row(models.last())),
{
    let i = choose|i: int| 0 <= i < models.len() && models[i] == m;
    assert(models[models.len() - 1] == models.last());
    assert(row_precedes(T::row(models[i]), T::row(models[models.len() - 1])));
}

/// Law: there is one sorted list of the values of a set.
pub proof fn law_sorted_is_unique<T: Comparable>(a: Seq<T::V>, b: Seq<T::V>)
    requires
        is_sorted::<T>(a),
        is_sorted::<T>(b),
        a.to_set() == b.to_set(),
    ensures
        a == b,
    decreases a.len(),
{
    assert forall|m: T::V| a.contains(m) <==> #[trigger] b.contains(m) by {
        assert(a.to_set().contains(m) == a.contains(m));
        assert(b.to_set().contains(m) == b.contains(m));
    }
    if a.len() == 0 {
        if b.len() > 0 {
            assert(b.contains(b[0]));
        }
        assert(a =~= b);
    } else {
        assert(a.contains(a[a.len() - 1]));
        assert(b.contains(a[a.len() - 1]));
        assert(b.contains(b[b.len() - 1]));
        if a.last() != b.last() {
            lemma_last_is_greatest::<T>(a, b.last());
            lemma_last_is_greatest::<T>(b, a.last());
            law_row_order(T::row(a.last()), T::row(b.last()), T::row(a.last()));
        }
        law_sorted_has_no_duplicates::<T>(a);
        law_sorted_has_no_duplicates::<T>(b);
        lemma_without_last(a);
        lemma_without_last(b);
        law_sorted_is_unique::<T>(a.drop_last(), b.drop_last());
        assert(a =~= a.drop_last().push(a.last()));
        assert(b =~= b.drop_last().push(b.last()));
    }
}

/// Without its last value, a list without duplicates holds all the others.
proof fn lemma_without_last<A>(items: Seq<A>)
    requires
        items.len() > 0,
        items.no_duplicates(),
    ensures
        items.drop_last().to_set() == items.to_set().remove(items.last()),
{
    let init = items.drop_last();
    assert forall|x: A| init.to_set().contains(x) <==> items.to_set().remove(
        items.last(),
    ).contains(x) by {
        if init.contains(x) {
            let i = choose|i: int| 0 <= i < init.len() && init[i] == x;
            assert(items[i] == x);
        }
        if items.contains(x) && x != items.last() {
            let i = choose|i: int| 0 <= i < items.len() && items[i] == x;
            assert(init[i] == x);
        }
    }
    assert(init.to_set() =~= items.to_set().remove(items.last()));
}

/// Puts `item` into a sorted list, unless it is there already.
pub(crate) fn insert_sorted<T: Comparable>(items: &mut Vec<T>, item: T)
    requires
        is_sorted::<T>(views(old(items)@)),
        rows_identify::<T>(views(old(items)@).to_set().insert(item@)),
    ensures
        is_sorted::<T>(views(final(items)@)),
        views(final(items)@).to_set() == views(old(items)@).to_set().insert(item@),
        final(items)@.len() <= old(items)@.len() + 1,
        forall|i: int|
            0 <= i < final(items)@.len() ==> final(items)@[i] == item || old(items)@.contains(
                #[trigger] final(items)@[i],
            ),
{
    let ghost start = views(items@);
    let mut i: usize = 0;
    while i < items.len() && items[i].is_before(&item)
        invariant
            i <= items@.len(),
            items@ == old(items)@,
            start == views(items@),
            forall|j: int|
                0 <= j < i ==> row_precedes(T::row(#[trigger] start[j]), T::row(item@)),
        decreases items@.len() - i,
    {
        assert(start[i as int] == items@[i as int]@);
        i = i + 1;
    }
    if i < items.len() && !item.is_before(&items[i]) {
        proof {
            assert(start[i as int] == items@[i as int]@);
            lemma_row_total(T::row(start[i as int]), T::row(item@));
            assert(start.to_set().contains(start[i as int]));
            assert(start.to_set().insert(item@).contains(start[i as int]));
            assert(start.to_set().insert(item@).contains(item@));
            assert(start[i as int] == item@);
            assert(start.to_set() =~= start.to_set().insert(item@));
            assert forall|k: int| 0 <= k < items@.len() implies old(items)@.contains(
                #[trigger] items@[k],
            ) by {
                assert(old(items)@[k] == items@[k]);
            }
        }
        return;
    }
    proof {
        if i < items.len() {
            assert(start[i as int] == items@[i as int]@);
        }
    }
    items.insert(i, item);
    proof {
        lemma_inserted::<T>(start, item@, i as int);
        assert(views(items@) =~= start.insert(i as int, item@));
        assert forall|k: int| 0 <= k < items@.len() implies items@[k] == item
            || old(items)@.contains(#[trigger] items@[k]) by {
            if k < i {
                assert(items@[k] == old(items)@[k]);
            } else if k > i {
                assert(items@[k] == old(items)@[k - 1]);
            }
        }
    }
}

/// A value put in its place keeps a list sorted.
proof fn lemma_inserted<T: Comparable>(models: Seq<T::V>, m: T::V, at: int)
    requires
        is_sorted::<T>(models),
        0 <= at <= models.len(),
        forall|j: int| 0 <= j < at ==> row_precedes(T::row(#[trigger] models[j]), T::row(m)),
        at < models.len() ==> row_precedes(T::row(m), T::row(models[at])),
    ensures
        is_sorted::<T>(models.insert(at, m)),
        models.insert(at, m).to_set() == models.to_set().insert(m),
{
    let all = models.insert(at, m);
    assert forall|i: int, j: int| 0 <= i < j < all.len() implies row_precedes(
        T::row(#[trigger] all[i]),
        T::row(#[trigger] all[j]),
    ) by {
        if i == at {
            assert(all[j] == models[j - 1]);
            if j - 1 > at {
                assert(row_precedes(T::row(models[at]), T::row(models[j - 1])));
                lemma_row_transitive(T::row(m), T::row(models[at]), T::row(models[j - 1]));
            }
        } else if j == at {
            assert(all[i] == models[i]);
        } else {
            let x = if i < at {
                i
            } else {
                i - 1
            };
            let y = if j < at {
                j
            } else {
                j - 1
            };
            assert(all[i] == models[x] && all[j] == models[y]);
        }
    }
    assert forall|x: T::V| all.to_set().contains(x) <==> models.to_set().insert(m).contains(x) by {
        if all.contains(x) {
            let k = choose|k: int| 0 <= k < all.len() && all[k] == x;
            if k < at {
                assert(models[k] == x);
            } else if k > at {
                assert(models[k - 1] == x);
            }
        }
        if models.contains(x) {
            let k = choose|k: int| 0 <= k < models.len() && models[k] == x;
            if k < at {
                assert(all[k] == x);
            } else {
                assert(all[k + 1] == x);
            }
        }
        assert(all[at] == m);
    }
    assert(all.to_set() =~= models.to_set().insert(m));
}

/// Sorts a list, and keeps of every value one.
pub(crate) fn sort_all<T: Comparable>(items: Vec<T>) -> (r: Vec<T>)
    requires
        rows_identify::<T>(views(items@).to_set()),
    ensures
        is_sorted::<T>(views(r@)),
        views(r@).to_set() == views(items@).to_set(),
        r@.len() <= items@.len(),
{
    let ghost all = views(items@).to_set();
    let ghost count = items@.len();
    let mut rest = items;
    let mut sorted: Vec<T> = Vec::new();
    proof {
        assert(views(sorted@).to_set().union(views(rest@).to_set()) =~= all);
    }
    loop
        invariant
            rows_identify::<T>(all),
            is_sorted::<T>(views(sorted@)),
            views(sorted@).to_set().union(views(rest@).to_set()) == all,
            sorted@.len() + rest@.len() <= count,
        ensures
            rest@.len() == 0,
        decreases rest@.len(),
    {
        let ghost before = views(rest@);
        let ghost kept = views(sorted@).to_set();
        match rest.pop() {
            Some(item) => {
                proof {
                    assert(before.drop_last() =~= views(rest@));
                    assert(before =~= views(rest@).push(item@));
                    views(rest@).lemma_push_to_set_commute(item@);
                    assert(all =~= kept.insert(item@).union(views(rest@).to_set()));
                    assert forall|m: T::V| #[trigger] kept.insert(item@).contains(
                        m,
                    ) implies all.contains(m) by {}
                }
                insert_sorted(&mut sorted, item);
            },
            None => break,
        }
    }
    assert(views(rest@).to_set() =~= Set::empty());
    assert(views(sorted@).to_set() =~= all);
    sorted
}

} // verus!
