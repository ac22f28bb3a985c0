//! Putting things in order, those that tie in the order they came.

use vstd::prelude::*;

verus! {

/// Something that has a place before or behind others of its kind.
pub trait Ranked: Sized {
    spec fn before(self, other: Self) -> bool;

    fn goes_before(&self, other: &Self) -> (r: bool)
        ensures
            r == (*self).before(*other),
    ;
}

/// Things in order with one more put in, behind those that tie with it.
pub open spec fn put_in<T: Ranked>(s: Seq<T>, x: T) -> Seq<T>
    decreases s.len(),
{
    if s.len() == 0 || !x.before(s.last()) {
        s.push(x)
    } else {
        put_in(s.drop_last(), x).push(s.last())
    }
}

/// Things in order.
pub open spec fn arranged<T: Ranked>(s: Seq<T>) -> Seq<T>
    decreases s.len(),
{
    if s.len() == 0 {
        s
    } else {
        put_in(arranged(s.drop_last()), s.last())
    }
}

/// Nothing stands behind something that it goes before.
pub open spec fn in_order<T: Ranked>(s: Seq<T>) -> bool {
    forall|i: int, j: int| 0 <= i < j < s.len() ==> !(#[trigger] s[j]).before(#[trigger] s[i])
}

/// Going before is a matter of rank: what goes before something goes before
/// all that ties with it or stands behind it.
pub open spec fn sound<T: Ranked>() -> bool {
    &&& forall|x: T, y: T| #![trigger x.before(y)] x.before(y) ==> !y.before(x)
    &&& forall|x: T, y: T, z: T|
        #![trigger y.before(x), z.before(y)]
        !y.before(x) && !z.before(y) ==> !z.before(x)
}

proof fn lemma_put_in_at<T: Ranked>(s: Seq<T>, x: T, at: int)
    requires
        0 <= at <= s.len(),
        at > 0 ==> !x.before(s[at - 1]),
        forall|k: int| at <= k < s.len() ==> x.before(#[trigger] s[k]),
    ensures
        put_in(s, x) == s.insert(at, x),
    decreases s.len(),
{
    if at == s.len() {
        assert(s.insert(at, x) =~= s.push(x));
    } else {
        assert(x.before(s[s.len() - 1]));
        lemma_put_in_at(s.drop_last(), x, at);
        assert(s.drop_last().insert(at, x).push(s.last()) =~= s.insert(at, x));
    }
}

pub proof fn lemma_put_in_keeps<T: Ranked>(s: Seq<T>, x: T)
    ensures
        put_in(s, x).to_multiset() == s.to_multiset().insert(x),
        put_in(s, x).len() == s.len() + 1,
    decreases s.len(),
{
    s.to_multiset_ensures();
    if s.len() == 0 || !x.before(s.last()) {
    } else {
        let t = s.drop_last();
        lemma_put_in_keeps(t, x);
        put_in(t, x).to_multiset_ensures();
        t.to_multiset_ensures();
        assert(t.push(s.last()) =~= s);
        assert(t.to_multiset().insert(x).insert(s.last()) =~= t.to_multiset().insert(
            s.last(),
        ).insert(x));
    }
}

/// Putting things in order loses none and adds none.
pub proof fn lemma_arranged_keeps<T: Ranked>(s: Seq<T>)
    ensures
        arranged(s).to_multiset() == s.to_multiset(),
        arranged(s).len() == s.len(),
    decreases s.len(),
{
    if s.len() > 0 {
        let t = s.drop_last();
        lemma_arranged_keeps(t);
        lemma_put_in_keeps(arranged(t), s.last());
        t.to_multiset_ensures();
        assert(t.push(s.last()) =~= s);
    }
}

pub proof fn lemma_put_in_order<T: Ranked>(s: Seq<T>, x: T)
    requires
        sound::<T>(),
        in_order(s),
    ensures
        in_order(put_in(s, x)),
        forall|y: T|
            (!x.before(y) && forall|k: int| 0 <= k < s.len() ==> !(#[trigger] s[k]).before(y))
                ==> forall|k: int|
                0 <= k < put_in(s, x).len() ==> !(#[trigger] put_in(s, x)[k]).before(y),
        forall|y: T|
            (!y.before(x) && forall|k: int| 0 <= k < s.len() ==> !y.before(#[trigger] s[k]))
                ==> forall|k: int|
                0 <= k < put_in(s, x).len() ==> !y.before(#[trigger] put_in(s, x)[k]),
    decreases s.len(),
{
    let r = put_in(s, x);
    if s.len() == 0 || !x.before(s.last()) {
        assert forall|i: int, j: int| 0 <= i < j < r.len() implies !(#[trigger] r[j]).before(
            #[trigger] r[i],
        ) by {
            if j == s.len() {
                if i < s.len() - 1 {
                    assert(!s.last().before(s[i]));
                }
            }
        }
    } else {
        let t = s.drop_last();
        lemma_put_in_order(t, x);
        let u = put_in(t, x);
        let y = s.last();
        assert(!y.before(x));
        assert forall|k: int| 0 <= k < t.len() implies !y.before(#[trigger] t[k]) by {
            assert(!s[s.len() - 1].before(s[k]));
        }
        assert(forall|k: int| 0 <= k < u.len() ==> !y.before(#[trigger] u[k]));
        assert forall|i: int, j: int| 0 <= i < j < r.len() implies !(#[trigger] r[j]).before(
            #[trigger] r[i],
        ) by {
            if j == u.len() {
                assert(!y.before(u[i]));
            }
        }
        assert forall|z: T|
            (!x.before(z) && forall|k: int| 0 <= k < s.len() ==> !(#[trigger] s[k]).before(z))
            implies forall|k: int| 0 <= k < r.len() ==> !(#[trigger] r[k]).before(z) by {
            assert(!s[s.len() - 1].before(z));
            assert forall|k: int| 0 <= k < t.len() implies !(#[trigger] t[k]).before(z) by {
                assert(!s[k].before(z));
            }
        }
        assert forall|z: T|
            (!z.before(x) && forall|k: int| 0 <= k < s.len() ==> !z.before(#[trigger] s[k]))
            implies forall|k: int| 0 <= k < r.len() ==> !z.before(#[trigger] r[k]) by {
            assert(!z.before(s[s.len() - 1]));
            assert forall|k: int| 0 <= k < t.len() implies !z.before(#[trigger] t[k]) by {
                assert(!z.before(s[k]));
            }
        }
    }
}

/// Things put in order are in order.
pub proof fn lemma_arranged_in_order<T: Ranked>(s: Seq<T>)
    requires
        sound::<T>(),
    ensures
        in_order(arranged(s)),
    decreases s.len(),
{
    if s.len() > 0 {
        lemma_arranged_in_order(s.drop_last());
        lemma_put_in_order(arranged(s.drop_last()), s.last());
    }
}

/// Things in order; those that tie stand as they came.
pub fn sort<T: Ranked>(v: Vec<T>) -> (r: Vec<T>)
    ensures
        r@ == arranged(v@),
        r.len() == v.len(),
{
    let mut rest = v;
    let mut r: Vec<T> = Vec::new();
    let ghost all = rest@;
    assert(all.skip(0) =~= all);
    let mut i: usize = 0;
    let n: usize = rest.len();
    // The things are taken from the front, so the row is turned round first.
    let mut back: Vec<T> = Vec::new();
    while i < n
        invariant
            i <= n,
            n == all.len(),
            rest@ == all.take(n - i),
            back@ == all.skip(n - i).reverse(),
        decreases n - i,
    {
        let x = rest.pop().unwrap();
        assert(all.take(n - i).drop_last() =~= all.take(n - i - 1));
        back.push(x);
        assert(back@ =~= all.skip(n - i - 1).reverse());
        i = i + 1;
    }
    assert(back@ =~= all.reverse());
    i = 0;
    while i < n
        invariant
            i <= n,
            n == all.len(),
            back@ == all.skip(i as int).reverse(),
            r@ == arranged(all.take(i as int)),
            r.len() == i,
        decreases n - i,
    {
        let x = back.pop().unwrap();
        assert(x == all[i as int]);
        assert(back@ =~= all.skip(i + 1).reverse());
        let mut at: usize = r.len();
        while at > 0 && x.goes_before(&r[at - 1])
            invariant
                at <= r.len(),
                forall|k: int| at <= k < r.len() ==> x.before(#[trigger] r@[k]),
            decreases at,
        {
            at = at - 1;
        }
        proof {
            lemma_put_in_at(r@, x, at as int);
            assert(all.take(i + 1).drop_last() =~= all.take(i as int));
            assert(all.take(i + 1).last() == x);
        }
        r.insert(at, x);
        i = i + 1;
    }
    assert(all.take(n as int) =~= all);
    r
}

} // verus!
