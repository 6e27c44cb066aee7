//! Lists in the order of names.

use vstd::prelude::*;

use crate::strmap::{before, is_before, lemma_before_irreflexive, lemma_before_total,
    lemma_before_transitive};

verus! {

/// What has a name to be ordered by.
pub trait Named: Sized {
    /// The name.
    spec fn key(&self) -> Seq<char>;

    /// The name.
    fn name(&self) -> (r: &str)
        ensures
            r@ == self.key(),
    ;
}

impl Named for (String, String) {
    open spec fn key(&self) -> Seq<char> {
        self.0@
    }

    fn name(&self) -> (r: &str) {
        self.0.as_str()
    }
}

/// An ordered list with one more item put in, behind those that it does not
/// stand before.
pub open spec fn put_in_order<T: Named>(v: Seq<T>, x: T) -> Seq<T>
    decreases v.len(),
{
    if v.len() > 0 && before(x.key(), v.last().key()) {
        put_in_order(v.drop_last(), x).push(v.last())
    } else {
        v.push(x)
    }
}

/// A list in the order of names; items of one name stay in their order.
pub open spec fn in_order<T: Named>(v: Seq<T>) -> Seq<T>
    decreases v.len(),
{
    if v.len() == 0 {
        v
    } else {
        put_in_order(in_order(v.drop_last()), v.last())
    }
}

/// Puts an item in its place.
fn insert_in_order<T: Named>(v: &mut Vec<T>, x: T)
    ensures
        final(v)@ == put_in_order(old(v)@, x),
{
    let ghost all = v@;
    let mut i: usize = v.len();
    assert(all.take(i as int) =~= all);
    assert(put_in_order(all.take(i as int), x) + all.skip(i as int) =~= put_in_order(all, x));
    while i > 0 && is_before(x.name(), v[i - 1].name())
        invariant
            i <= v@.len(),
            all == v@,
            put_in_order(all.take(i as int), x) + all.skip(i as int) == put_in_order(all, x),
        decreases i,
    {
        let ghost head = all.take(i as int);
        assert(head.drop_last() =~= all.take(i - 1));
        assert(head.last() == all[i - 1]);
        assert(put_in_order(all.take(i - 1), x).push(all[i - 1]) + all.skip(i as int)
            =~= put_in_order(all.take(i - 1), x) + all.skip(i - 1));
        i = i - 1;
    }
    assert(i > 0 ==> all.take(i as int).last() == all[i - 1]);
    v.insert(i, x);
    assert(v@ =~= all.take(i as int).push(x) + all.skip(i as int));
}

/// The list in the order of names; items of one name stay in their order.
pub fn sort_by_name<T: Named>(items: Vec<T>) -> (r: Vec<T>)
    ensures
        r@ == in_order(items@),
{
    let ghost all = items@;
    let mut rest = items;
    let mut out: Vec<T> = Vec::new();
    let n: usize = rest.len();
    assert(out@ =~= in_order(all.take(0)));
    for i in 0..n
        invariant
            n == all.len(),
            rest@ == all.skip(i as int),
            out@ == in_order(all.take(i as int)),
    {
        assert(all.take(i + 1).drop_last() =~= all.take(i as int));
        let one = rest.remove(0);
        assert(rest@ =~= all.skip(i + 1));
        insert_in_order(&mut out, one);
    }
    assert(all.take(n as int) =~= all);
    out
}

/// No name stands behind one that it is before.
pub open spec fn names_in_order<T: Named>(v: Seq<T>) -> bool {
    forall|i: int, j: int|
        0 <= i < j < v.len() ==> !before((#[trigger] v[j]).key(), (#[trigger] v[i]).key())
}

proof fn lemma_put_in_order<T: Named>(v: Seq<T>, x: T)
    requires
        names_in_order(v),
    ensures
        names_in_order(put_in_order(v, x)),
        put_in_order(v, x).to_multiset() =~= v.to_multiset().insert(x),
        forall|i: int|
            0 <= i < put_in_order(v, x).len() ==> (#[trigger] put_in_order(v, x)[i]) == x
                || v.contains(put_in_order(v, x)[i]),
    decreases v.len(),
{
    broadcast use vstd::seq_lib::group_to_multiset_ensures;

    let r = put_in_order(v, x);
    if v.len() > 0 && before(x.key(), v.last().key()) {
        let v0 = v.drop_last();
        let r0 = put_in_order(v0, x);
        assert(names_in_order(v0)) by {
            assert forall|i: int, j: int| 0 <= i < j < v0.len() implies !before(
                (#[trigger] v0[j]).key(),
                (#[trigger] v0[i]).key(),
            ) by {
                assert(!before(v[j].key(), v[i].key()));
            }
        }
        lemma_put_in_order(v0, x);
        assert(v =~= v0.push(v.last()));
        assert forall|i: int| 0 <= i < r.len() implies (#[trigger] r[i]) == x || v.contains(r[i]) by {
            if i < r0.len() {
                assert(r0[i] == x || v0.contains(r0[i]));
                if v0.contains(r0[i]) {
                    let k = v0.index_of(r0[i]);
                    assert(v[k] == r0[i]);
                }
            } else {
                assert(v[v.len() - 1] == r[i]);
            }
        }
        assert forall|i: int, j: int| 0 <= i < j < r.len() implies !before(
            (#[trigger] r[j]).key(),
            (#[trigger] r[i]).key(),
        ) by {
            if j < r0.len() {
                assert(!before(r0[j].key(), r0[i].key()));
            } else {
                assert(r0[i] == x || v0.contains(r0[i]));
                if r0[i] == x {
                    if before(v.last().key(), x.key()) {
                        lemma_before_transitive(x.key(), v.last().key(), x.key());
                        lemma_before_irreflexive(x.key());
                    }
                } else {
                    let k = v0.index_of(r0[i]);
                    assert(!before(v[v.len() - 1].key(), v[k].key()));
                }
            }
        }
    } else {
        assert forall|i: int, j: int| 0 <= i < j < r.len() implies !before(
            (#[trigger] r[j]).key(),
            (#[trigger] r[i]).key(),
        ) by {
            if j < v.len() {
                assert(!before(v[j].key(), v[i].key()));
            } else if i < v.len() - 1 && before(x.key(), v[i].key()) {
                // the last name does not stand before this one
                let last = v.last().key();
                assert(!before(v[v.len() - 1].key(), v[i].key()));
                lemma_before_total(last, v[i].key());
                if last != v[i].key() {
                    lemma_before_transitive(x.key(), v[i].key(), last);
                }
            }
        }
        assert forall|i: int| 0 <= i < r.len() implies (#[trigger] r[i]) == x || v.contains(r[i]) by {
            if i < v.len() {
                assert(v[i] == r[i]);
            }
        }
    }
}

/// Sorting keeps every item and leaves the list in the order of names.
pub proof fn sorting_keeps_every_item<T: Named>(v: Seq<T>)
    ensures
        names_in_order(in_order(v)),
        in_order(v).to_multiset() =~= v.to_multiset(),
    decreases v.len(),
{
    broadcast use vstd::seq_lib::group_to_multiset_ensures;

    if v.len() > 0 {
        sorting_keeps_every_item(v.drop_last());
        lemma_put_in_order(in_order(v.drop_last()), v.last());
        assert(v =~= v.drop_last().push(v.last()));
    }
}

/// Items of the same name keep their order.
pub proof fn equal_names_keep_their_order<T: Named>(v: Seq<T>, name: Seq<char>)
    ensures
        in_order(v).filter(|x: T| x.key() == name) == v.filter(|x: T| x.key() == name),
    decreases v.len(),
{
    reveal(Seq::filter);
    if v.len() > 0 {
        equal_names_keep_their_order(v.drop_last(), name);
        lemma_put_keeps_order(in_order(v.drop_last()), v.last(), name);
    }
}

proof fn lemma_put_keeps_order<T: Named>(v: Seq<T>, x: T, name: Seq<char>)
    ensures
        put_in_order(v, x).filter(|y: T| y.key() == name) == if x.key() == name {
            v.filter(|y: T| y.key() == name).push(x)
        } else {
            v.filter(|y: T| y.key() == name)
        },
    decreases v.len(),
{
    reveal(Seq::filter);
    let f = |y: T| y.key() == name;
    if v.len() > 0 && before(x.key(), v.last().key()) {
        lemma_before_irreflexive(x.key());
        let head = put_in_order(v.drop_last(), x);
        lemma_put_keeps_order(v.drop_last(), x, name);
        assert(head.push(v.last()).drop_last() =~= head);
        assert(head.push(v.last()).last() == v.last());
        assert(head.push(v.last()).filter(f) == if f(v.last()) {
            head.filter(f).push(v.last())
        } else {
            head.filter(f)
        });
    } else {
        assert(v.push(x).drop_last() =~= v);
        assert(v.push(x).last() == x);
        assert(v.push(x).filter(f) == if f(x) {
            v.filter(f).push(x)
        } else {
            v.filter(f)
        });
    }
}

} // verus!
