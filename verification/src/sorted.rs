//! Lists of texts in order, each of them once.

use vstd::prelude::*;

use crate::text::{chars_of, same, views};

verus! {

/// Whether `a` comes before `b` when characters are compared one by one.
pub open spec fn comes_before(a: Seq<char>, b: Seq<char>) -> bool
    decreases a.len(),
{
    if b.len() == 0 {
        false
    } else if a.len() == 0 {
        true
    } else if a[0] != b[0] {
        a[0] < b[0]
    } else {
        comes_before(a.drop_first(), b.drop_first())
    }
}

/// A list in order with `item` put where it belongs, unless it is there.
pub open spec fn inserted(list: Seq<Seq<char>>, item: Seq<char>) -> Seq<Seq<char>>
    decreases list.len(),
{
    if list.len() == 0 {
        seq![item]
    } else if list[0] == item {
        list
    } else if comes_before(item, list[0]) {
        seq![item] + list
    } else {
        seq![list[0]] + inserted(list.drop_first(), item)
    }
}

/// Whether every text comes before those behind it.
pub open spec fn is_sorted(list: Seq<Seq<char>>) -> bool {
    forall|i: int, j: int|
        0 <= i < j < list.len() ==> comes_before(#[trigger] list[i], #[trigger] list[j])
}

/// Whether the text `a` comes before `b`.
pub fn before(a: &str, b: &str) -> (r: bool)
    ensures
        r == comes_before(a@, b@),
{
    let x = chars_of(a);
    let y = chars_of(b);
    let mut i: usize = 0;
    assert(x@.skip(0) =~= x@);
    assert(y@.skip(0) =~= y@);
    while i < x.len() && i < y.len()
        invariant
            0 <= i <= x@.len(),
            i <= y@.len(),
            x@ == a@,
            y@ == b@,
            comes_before(a@, b@) == comes_before(x@.skip(i as int), y@.skip(i as int)),
        decreases x@.len() - i,
    {
        proof {
            assert(x@.skip(i as int)[0] == x@[i as int]);
            assert(y@.skip(i as int)[0] == y@[i as int]);
            assert(x@.skip(i as int).drop_first() =~= x@.skip(i + 1));
            assert(y@.skip(i as int).drop_first() =~= y@.skip(i + 1));
        }
        if x[i] != y[i] {
            return x[i] < y[i];
        }
        i += 1;
    }
    i < y.len()
}

/// Puts a text where it belongs in a list in order, unless it is there.
pub fn insert(list: &mut Vec<String>, item: &str)
    ensures
        views(final(list)@) == inserted(views(old(list)@), item@),
{
    let ghost all = views(list@);
    let mut i: usize = 0;
    assert(all.skip(0) =~= all);
    assert(all.take(0) + inserted(all, item@) =~= inserted(all, item@));
    while i < list.len()
        invariant
            0 <= i <= list@.len(),
            all == views(list@),
            all == views(old(list)@),
            all.take(i as int) + inserted(all.skip(i as int), item@) == inserted(all, item@),
        decreases list@.len() - i,
    {
        let ghost rest = all.skip(i as int);
        assert(rest[0] == list@[i as int]@);
        if same(&list[i], item) {
            assert(all.take(i as int) + rest =~= all);
            return;
        }
        if before(item, &list[i]) {
            let ghost prior = list@;
            list.insert(i, item.to_owned());
            proof {
                assert(list@ == prior.insert(i as int, list@[i as int]));
                assert(views(list@) =~= all.take(i as int) + (seq![item@] + rest));
            }
            return;
        }
        proof {
            assert(rest.drop_first() =~= all.skip(i + 1));
            assert(all.take(i as int) + (seq![rest[0]] + inserted(all.skip(i + 1), item@))
                =~= all.take(i + 1) + inserted(all.skip(i + 1), item@));
        }
        i += 1;
    }
    let ghost prior = list@;
    list.push(item.to_owned());
    proof {
        assert(all.skip(i as int) =~= seq![]);
        assert(views(list@) =~= all.take(i as int) + seq![item@]);
    }
}

// ---------------------------------------------------------------------------
// Laws

proof fn lemma_before_trans(a: Seq<char>, b: Seq<char>, c: Seq<char>)
    requires
        comes_before(a, b),
        comes_before(b, c),
    ensures
        comes_before(a, c),
    decreases a.len(),
{
    if a.len() > 0 && b.len() > 0 && c.len() > 0 && a[0] == b[0] && b[0] == c[0] {
        lemma_before_trans(a.drop_first(), b.drop_first(), c.drop_first());
    }
}

proof fn lemma_before_total(a: Seq<char>, b: Seq<char>)
    requires
        a != b,
        !comes_before(a, b),
    ensures
        comes_before(b, a),
    decreases a.len(),
{
    if b.len() == 0 {
        if a.len() == 0 {
            assert(a =~= b);
        }
    } else if a.len() > 0 && a[0] == b[0] {
        if a.drop_first() == b.drop_first() {
            assert(a =~= seq![a[0]] + a.drop_first());
            assert(b =~= seq![b[0]] + b.drop_first());
        }
        lemma_before_total(a.drop_first(), b.drop_first());
    }
}

/// Putting a text into a list in order keeps the order, adds the text and loses
/// none.
pub proof fn lemma_inserted(list: Seq<Seq<char>>, item: Seq<char>)
    requires
        is_sorted(list),
    ensures
        is_sorted(inserted(list, item)),
        forall|s: Seq<char>| #[trigger]
            inserted(list, item).contains(s) <==> list.contains(s) || s == item,
    decreases list.len(),
{
    let out = inserted(list, item);
    if list.len() == 0 {
        assert(out[0] == item);
        assert forall|s: Seq<char>| #[trigger] out.contains(s) <==> list.contains(s) || s
            == item by {
            if s == item {
                assert(out[0] == s);
            }
        }
    } else if list[0] == item {
    } else if comes_before(item, list[0]) {
        assert forall|i: int, j: int| 0 <= i < j < out.len() implies comes_before(
            #[trigger] out[i],
            #[trigger] out[j],
        ) by {
            if i == 0 {
                if j > 1 {
                    lemma_before_trans(item, list[0], list[j - 1]);
                }
            }
        }
        assert forall|s: Seq<char>| #[trigger] out.contains(s) <==> list.contains(s) || s
            == item by {
            if list.contains(s) {
                let k = list.index_of(s);
                assert(out[k + 1] == s);
            }
            if s == item {
                assert(out[0] == s);
            }
            if out.contains(s) {
                let k = out.index_of(s);
                if k > 0 {
                    assert(list[k - 1] == s);
                }
            }
        }
    } else {
        let rest = list.drop_first();
        assert(is_sorted(rest)) by {
            assert forall|i: int, j: int| 0 <= i < j < rest.len() implies comes_before(
                #[trigger] rest[i],
                #[trigger] rest[j],
            ) by {
                assert(rest[i] == list[i + 1] && rest[j] == list[j + 1]);
            }
        }
        lemma_inserted(rest, item);
        lemma_before_total(item, list[0]);
        let tail = inserted(rest, item);
        assert(out == seq![list[0]] + tail);
        assert forall|i: int, j: int| 0 <= i < j < out.len() implies comes_before(
            #[trigger] out[i],
            #[trigger] out[j],
        ) by {
            assert(out[j] == tail[j - 1]);
            if i == 0 {
                assert(tail.contains(tail[j - 1]));
                if tail[j - 1] != item {
                    assert(rest.contains(tail[j - 1]));
                    let k = rest.index_of(tail[j - 1]);
                    assert(list[k + 1] == tail[j - 1]);
                    assert(comes_before(list[0], list[k + 1]));
                }
            } else {
                assert(out[i] == tail[i - 1]);
            }
        }
        assert forall|s: Seq<char>| #[trigger] out.contains(s) <==> list.contains(s) || s
            == item by {
            if list.contains(s) {
                let k = list.index_of(s);
                if k > 0 {
                    assert(rest[k - 1] == s);
                    assert(tail.contains(s));
                    let m = tail.index_of(s);
                    assert(out[m + 1] == s);
                } else {
                    assert(out[0] == s);
                }
            }
            if s == item {
                assert(tail.contains(s));
                let m = tail.index_of(s);
                assert(out[m + 1] == s);
            }
            if out.contains(s) {
                let k = out.index_of(s);
                if k > 0 {
                    assert(tail[k - 1] == s);
                    assert(tail.contains(s));
                    if s != item {
                        let m = rest.index_of(s);
                        assert(list[m + 1] == s);
                    }
                } else {
                    assert(list[0] == s);
                }
            }
        }
    }
}

} // verus!
