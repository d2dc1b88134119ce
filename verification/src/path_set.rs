//! A set of paths that hands them out in sorted order.

use vstd::prelude::*;

use crate::order::{place, Placement};

verus! {

/// The texts of a list of strings.
pub open spec fn texts(list: Seq<String>) -> Seq<Seq<char>> {
    list.map_values(|s: String| s@)
}

/// Every text is sorted strictly ahead of all that follow it. So none occurs
/// twice.
pub open spec fn strictly_sorted(list: Seq<Seq<char>>) -> bool {
    forall|i: int, j: int|
        0 <= i < j < list.len() ==> crate::order::text_before(#[trigger] list[i], #[trigger] list[j])
}

/// A set of texts has one sorted listing: two sorted lists without duplicates that
/// hold the same texts are the same list.
pub proof fn lemma_sorted_listing_is_unique(a: Seq<Seq<char>>, b: Seq<Seq<char>>)
    requires
        strictly_sorted(a),
        strictly_sorted(b),
        a.to_set() == b.to_set(),
    ensures
        a == b,
    decreases a.len(),
{
    if a.len() == 0 {
        if b.len() > 0 {
            assert(b.to_set().contains(b[0]));
            assert(a.contains(b[0]));
        }
        assert(a =~= b);
    } else {
        assert(a.to_set().contains(a[0]));
        assert(b.contains(a[0]));
        let k = choose|k: int| 0 <= k < b.len() && b[k] == a[0];
        assert(b.to_set().contains(b[0]));
        assert(a.contains(b[0]));
        let m = choose|m: int| 0 <= m < a.len() && a[m] == b[0];
        if k > 0 && m > 0 {
            crate::order::lemma_text_before_asymmetric(b[0], b[k]);
        }
        assert(a[0] == b[0]);
        let (x, y) = (a.drop_first(), b.drop_first());
        assert forall|i: int, j: int| 0 <= i < j < x.len() implies crate::order::text_before(
            #[trigger] x[i],
            #[trigger] x[j],
        ) by {
            assert(x[i] == a[i + 1] && x[j] == a[j + 1]);
        }
        assert forall|i: int, j: int| 0 <= i < j < y.len() implies crate::order::text_before(
            #[trigger] y[i],
            #[trigger] y[j],
        ) by {
            assert(y[i] == b[i + 1] && y[j] == b[j + 1]);
        }
        assert forall|p: Seq<char>| x.contains(p) <==> y.contains(p) by {
            lemma_rest_of_listing(a, p);
            lemma_rest_of_listing(b, p);
            assert(a.to_set().contains(p) == a.contains(p));
            assert(b.to_set().contains(p) == b.contains(p));
        }
        assert(x.to_set() =~= y.to_set());
        lemma_sorted_listing_is_unique(x, y);
        assert(a =~= seq![a[0]] + x);
        assert(b =~= seq![b[0]] + y);
    }
}

proof fn lemma_rest_of_listing(a: Seq<Seq<char>>, p: Seq<char>)
    requires
        strictly_sorted(a),
        a.len() > 0,
    ensures
        a.drop_first().contains(p) <==> a.contains(p) && p != a[0],
{
    let x = a.drop_first();
    if x.contains(p) {
        let i = choose|i: int| 0 <= i < x.len() && x[i] == p;
        assert(a[i + 1] == p);
        crate::order::lemma_text_before_asymmetric(a[0], a[i + 1]);
    }
    if a.contains(p) && p != a[0] {
        let i = choose|i: int| 0 <= i < a.len() && a[i] == p;
        assert(x[i - 1] == p);
    }
}

/// A set of paths, kept as a sorted list without duplicates.
pub struct PathSet {
    items: Vec<String>,
}

impl View for PathSet {
    type V = Set<Seq<char>>;

    closed spec fn view(&self) -> Set<Seq<char>> {
        texts(self.items@).to_set()
    }
}

impl PathSet {
    #[verifier::type_invariant]
    spec fn sorted(self) -> bool {
        strictly_sorted(texts(self.items@))
    }

    /// The empty set.
    pub fn new() -> (res: Self)
        ensures
            res@ == Set::<Seq<char>>::empty(),
    {
        let res = PathSet { items: Vec::new() };
        assert(res@ =~= Set::<Seq<char>>::empty());
        res
    }

    /// Whether the set holds no path.
    pub fn is_empty(&self) -> (res: bool)
        ensures
            res == (self@ == Set::<Seq<char>>::empty()),
    {
        if self.items.len() == 0 {
            assert(self@ =~= Set::<Seq<char>>::empty());
            true
        } else {
            assert(texts(self.items@)[0] == self.items@[0]@);
            assert(self@.contains(self.items@[0]@));
            false
        }
    }

    /// Adds `path`.
    pub fn insert(&mut self, path: String)
        ensures
            final(self)@ == old(self)@.insert(path@),
    {
        proof {
            use_type_invariant(&*self);
        }
        let ghost before = texts(self.items@);
        let mut i: usize = 0;
        let mut end: usize = self.items.len();
        while i < end
            invariant
                i <= end <= self.items.len(),
                before == texts(self.items@),
                *self == *old(self),
                strictly_sorted(before),
                forall|j: int| 0 <= j < i ==> crate::order::text_before(#[trigger] before[j], path@),
                forall|j: int|
                    end <= j < before.len() ==> crate::order::text_before(path@, #[trigger] before[j]),
            decreases end - i,
        {
            let mid: usize = i + (end - i) / 2;
            assert(before[mid as int] == self.items@[mid as int]@);
            match place(self.items[mid].as_str(), path.as_str()) {
                Placement::Same => {
                    assert(before.contains(path@));
                    assert(self@.insert(path@) =~= self@);
                    return;
                },
                Placement::Before => {
                    assert forall|j: int| 0 <= j < mid + 1 implies crate::order::text_before(
                        #[trigger] before[j],
                        path@,
                    ) by {
                        if j < mid {
                            crate::order::lemma_text_before_transitive(
                                before[j],
                                before[mid as int],
                                path@,
                            );
                        }
                    }
                    i = mid + 1;
                },
                Placement::After => {
                    assert forall|j: int|
                        mid <= j < before.len() implies crate::order::text_before(
                        path@,
                        #[trigger] before[j],
                    ) by {
                        if j > mid {
                            crate::order::lemma_text_before_transitive(
                                path@,
                                before[mid as int],
                                before[j],
                            );
                        }
                    }
                    end = mid;
                },
            }
        }
        let mut items: Vec<String> = Vec::new();
        core::mem::swap(&mut items, &mut self.items);
        let ghost text = path@;
        items.insert(i, path);
        proof {
            let after = texts(items@);
            assert(after =~= before.insert(i as int, text));
            assert(strictly_sorted(after));
            assert forall|p: Seq<char>| after.to_set().contains(p) <==> before.to_set().insert(
                text,
            ).contains(p) by {
                if before.contains(p) {
                    let k = choose|k: int| 0 <= k < before.len() && before[k] == p;
                    assert(after[if k < i { k } else { k + 1 }] == p);
                }
                assert(after[i as int] == text);
                if after.contains(p) {
                    let k = choose|k: int| 0 <= k < after.len() && after[k] == p;
                    if k != i {
                        assert(before[if k < i { k } else { k - 1 }] == p);
                    }
                }
            }
            assert(after.to_set() =~= before.to_set().insert(text));
        }
        self.items = items;
    }

    /// The paths of the set, sorted.
    pub fn into_sorted(self) -> (res: Vec<String>)
        ensures
            strictly_sorted(texts(res@)),
            texts(res@).to_set() == self@,
    {
        proof {
            use_type_invariant(&self);
        }
        self.items
    }
}

/// The texts of a list are those of its strings, one by one.
pub proof fn lemma_texts_one_by_one(list: Seq<String>)
    ensures
        texts(list).len() == list.len(),
        forall|i: int| 0 <= i < list.len() ==> #[trigger] texts(list)[i] == list[i]@,
{
}

/// In a sorted list each text is ahead of those behind it, and none is there twice.
pub proof fn lemma_sorted_in_order(list: Seq<Seq<char>>, i: int, j: int)
    requires
        strictly_sorted(list),
        0 <= i < j < list.len(),
    ensures
        crate::order::text_before(list[i], list[j]),
        !crate::order::text_before(list[j], list[i]),
        list[i] != list[j],
{
    crate::order::lemma_text_before_asymmetric(list[i], list[j]);
}

} // verus!
