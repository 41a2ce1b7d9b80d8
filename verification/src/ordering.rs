//! The order in which monitors stand: by their `order` field, those with the
//! same `order` as they came.

use vstd::prelude::*;

use crate::monitor::{MonitorDefinition, MonitorView};

verus! {

/// Whether a monitor has the given `order`.
pub open spec fn at_order(o: int) -> spec_fn(MonitorView) -> bool {
    |m: MonitorView| m.order == o
}

/// The monitors whose `order` is below `n`: first those of `order` 0 as they
/// come in `ms`, then those of `order` 1 as they come, and so on.
#[verifier::opaque]
pub open spec fn below(ms: Seq<MonitorView>, n: nat) -> Seq<MonitorView>
    decreases n,
{
    if n == 0 {
        seq![]
    } else {
        below(ms, (n - 1) as nat) + ms.filter(at_order(n - 1))
    }
}

/// The monitors of `ms` by `order`, those of one `order` as they come in `ms`.
pub open spec fn in_order(ms: Seq<MonitorView>) -> Seq<MonitorView> {
    below(ms, 256)
}

/// Whether no monitor stands before one of smaller `order`.
pub open spec fn is_ordered(ms: Seq<MonitorView>) -> bool {
    forall|i: int, j: int| 0 <= i <= j < ms.len() ==> ms[i].order <= ms[j].order
}

/// `below` looks at the monitors of each `order` alone.
proof fn lemma_below_by_order(a: Seq<MonitorView>, b: Seq<MonitorView>, n: nat)
    requires
        forall|o: int| #[trigger] a.filter(at_order(o)) == b.filter(at_order(o)),
    ensures
        below(a, n) == below(b, n),
    decreases n,
{
    reveal(below);
    if n > 0 {
        lemma_below_by_order(a, b, (n - 1) as nat);
        assert(a.filter(at_order(n - 1)) == b.filter(at_order(n - 1)));
    }
}

/// A last monitor whose `order` no other exceeds comes last of those below `n`.
proof fn lemma_below_push(init: Seq<MonitorView>, m: MonitorView, n: nat)
    requires
        forall|i: int| 0 <= i < init.len() ==> (#[trigger] init[i]).order <= m.order,
    ensures
        below(init.push(m), n) == if m.order < n {
            below(init, n).push(m)
        } else {
            below(init, n)
        },
    decreases n,
{
    reveal(below);
    broadcast use Seq::lemma_filter_push;

    if n > 0 {
        lemma_below_push(init, m, (n - 1) as nat);
        let p = at_order(n - 1);
        if m.order < n - 1 {
            if init.filter(p).len() > 0 {
                lemma_filter_from(init, p, 0);
            }
            assert(init.filter(p) =~= seq![]);
            assert(init.push(m).filter(p) =~= seq![]);
            assert(below(init, n) =~= below(init, (n - 1) as nat));
        }
        assert(below(init.push(m), n) =~= if m.order < n {
            below(init, n).push(m)
        } else {
            below(init, n)
        });
    }
}

/// What a filter keeps was there before.
proof fn lemma_filter_from(s: Seq<MonitorView>, p: spec_fn(MonitorView) -> bool, k: int)
    requires
        0 <= k < s.filter(p).len(),
    ensures
        p(s.filter(p)[k]),
        exists|i: int| 0 <= i < s.len() && #[trigger] s[i] == s.filter(p)[k],
    decreases s.len(),
{
    reveal(Seq::filter);
    if s.len() > 0 {
        let init = s.drop_last();
        if k < init.filter(p).len() {
            lemma_filter_from(init, p, k);
            let i = choose|i: int| 0 <= i < init.len() && #[trigger] init[i] == init.filter(p)[k];
            assert(s[i] == s.filter(p)[k]);
        } else {
            assert(s[s.len() - 1] == s.filter(p)[k]);
        }
    }
}

/// Of monitors that stand in order, all of an `order` below `n`, those below
/// `n` are the monitors as they stand.
proof fn lemma_below_ordered(ms: Seq<MonitorView>, n: nat)
    requires
        is_ordered(ms),
        forall|i: int| 0 <= i < ms.len() ==> (#[trigger] ms[i]).order < n,
    ensures
        below(ms, n) == ms,
    decreases ms.len(),
{
    if ms.len() == 0 {
        lemma_below_empty(n);
        assert(ms =~= seq![]);
    } else {
        let init = ms.drop_last();
        lemma_below_ordered(init, n);
        lemma_below_push(init, ms.last(), n);
        assert(init.push(ms.last()) =~= ms);
    }
}

/// Monitors that already stand in order stay as they are.
pub proof fn ordered_monitors_stay(ms: Seq<MonitorView>)
    requires
        is_ordered(ms),
    ensures
        in_order(ms) == ms,
{
    lemma_below_ordered(ms, 256);
}

/// Of no monitors none is below `n`.
proof fn lemma_below_empty(n: nat)
    ensures
        below(seq![], n) == Seq::<MonitorView>::empty(),
    decreases n,
{
    reveal(below);
    reveal(Seq::filter);
    if n > 0 {
        lemma_below_empty((n - 1) as nat);
        assert(below(seq![], n) =~= Seq::<MonitorView>::empty());
    }
}

/// Monitors that stand in order, and hold the monitors of each `order` in the
/// sequence in which `ms` has them, are `ms` put in order.
proof fn lemma_in_order_found(ms: Seq<MonitorView>, sorted: Seq<MonitorView>)
    requires
        is_ordered(sorted),
        forall|o: int| #[trigger] sorted.filter(at_order(o)) == ms.filter(at_order(o)),
    ensures
        sorted == in_order(ms),
{
    ordered_monitors_stay(sorted);
    lemma_below_by_order(sorted, ms, 256);
}

/// Moving a monitor ahead of monitors of another `order` keeps the sequence of
/// the monitors of each `order`.
proof fn lemma_move_ahead(
    a: Seq<MonitorView>,
    b: Seq<MonitorView>,
    m: MonitorView,
    c: Seq<MonitorView>,
)
    requires
        forall|i: int| 0 <= i < b.len() ==> (#[trigger] b[i]).order != m.order,
    ensures
        forall|o: int| #[trigger]
            (a + b + seq![m] + c).filter(at_order(o)) == (a + seq![m] + b + c).filter(at_order(o)),
{
    assert forall|o: int| #[trigger]
        (a + b + seq![m] + c).filter(at_order(o)) == (a + seq![m] + b + c).filter(at_order(o)) by {
        let p = at_order(o);
        Seq::filter_distributes_over_add(a + b + seq![m], c, p);
        Seq::filter_distributes_over_add(a + b, seq![m], p);
        Seq::filter_distributes_over_add(a, b, p);
        Seq::filter_distributes_over_add(a + seq![m] + b, c, p);
        Seq::filter_distributes_over_add(a + seq![m], b, p);
        Seq::filter_distributes_over_add(a, seq![m], p);
        if o == m.order {
            if b.filter(p).len() > 0 {
                lemma_filter_from(b, p, 0);
            }
            assert(b.filter(p) =~= seq![]);
        } else {
            let none = Seq::<MonitorView>::empty();
            assert(seq![m] =~= none.push(m));
            none.lemma_filter_push(m, p);
            assert(none.filter(p) =~= none) by {
                reveal(Seq::filter);
            }
        }
        assert((a + b + seq![m] + c).filter(p) =~= (a + seq![m] + b + c).filter(p));
    }
}

/// What `below` gives stands in order, and has the monitors of each `order`
/// below `n` as `ms` has them.
proof fn lemma_below_facts(ms: Seq<MonitorView>, n: nat)
    ensures
        is_ordered(below(ms, n)),
        forall|i: int| 0 <= i < below(ms, n).len() ==> (#[trigger] below(ms, n)[i]).order < n,
        forall|o: int| #[trigger]
            below(ms, n).filter(at_order(o)) == if 0 <= o < n {
                ms.filter(at_order(o))
            } else {
                seq![]
            },
    decreases n,
{
    reveal(below);
    if n == 0 {
        assert forall|o: int| #[trigger] below(ms, n).filter(at_order(o)) == Seq::<
            MonitorView,
        >::empty() by {
            reveal(Seq::filter);
        }
    } else {
        let rest = below(ms, (n - 1) as nat);
        let last = ms.filter(at_order(n - 1));
        lemma_below_facts(ms, (n - 1) as nat);
        assert forall|i: int| 0 <= i < last.len() implies (#[trigger] last[i]).order == n - 1 by {
            lemma_filter_from(ms, at_order(n - 1), i);
        }
        assert forall|o: int| #[trigger]
            below(ms, n).filter(at_order(o)) == if 0 <= o < n {
                ms.filter(at_order(o))
            } else {
                seq![]
            } by {
            Seq::filter_distributes_over_add(rest, last, at_order(o));
            if o == n - 1 {
                lemma_filter_all(last, at_order(o));
                assert(rest.filter(at_order(o)) =~= seq![]);
                assert(seq![] + last =~= last);
            } else {
                if last.filter(at_order(o)).len() > 0 {
                    lemma_filter_from(last, at_order(o), 0);
                }
                assert(last.filter(at_order(o)) =~= seq![]);
                assert(rest.filter(at_order(o)) + seq![] =~= rest.filter(at_order(o)));
            }
        }
    }
}

/// A filter that every element passes keeps the sequence.
proof fn lemma_filter_all(s: Seq<MonitorView>, p: spec_fn(MonitorView) -> bool)
    requires
        forall|i: int| 0 <= i < s.len() ==> p(#[trigger] s[i]),
    ensures
        s.filter(p) == s,
    decreases s.len(),
{
    reveal(Seq::filter);
    if s.len() > 0 {
        lemma_filter_all(s.drop_last(), p);
        assert(s.drop_last().push(s.last()) =~= s);
    }
}

/// A filter that `x` passes keeps every occurrence of `x`.
proof fn lemma_filter_count(s: Seq<MonitorView>, p: spec_fn(MonitorView) -> bool, x: MonitorView)
    requires
        p(x),
    ensures
        s.filter(p).to_multiset().count(x) == s.to_multiset().count(x),
    decreases s.len(),
{
    broadcast use vstd::seq_lib::group_to_multiset_ensures;

    reveal(Seq::filter);
    if s.len() > 0 {
        lemma_filter_count(s.drop_last(), p, x);
        assert(s.drop_last().push(s.last()) =~= s);
    }
}

/// Putting monitors in order leaves no monitor before one of smaller `order`.
pub proof fn in_order_is_ordered(ms: Seq<MonitorView>)
    ensures
        is_ordered(in_order(ms)),
{
    lemma_below_facts(ms, 256);
}

/// Putting monitors in order keeps the sequence of those with the same `order`.
pub proof fn in_order_is_stable(ms: Seq<MonitorView>, order: u8)
    ensures
        in_order(ms).filter(at_order(order as int)) == ms.filter(at_order(order as int)),
{
    lemma_below_facts(ms, 256);
}

/// Putting monitors in order neither drops, adds nor changes one.
pub proof fn in_order_keeps_the_monitors(ms: Seq<MonitorView>)
    ensures
        in_order(ms).to_multiset() == ms.to_multiset(),
        in_order(ms).len() == ms.len(),
{
    broadcast use vstd::seq_lib::group_to_multiset_ensures;

    lemma_below_facts(ms, 256);
    let sorted = in_order(ms);
    assert forall|x: MonitorView| sorted.to_multiset().count(x) == ms.to_multiset().count(x) by {
        let p = at_order(x.order as int);
        assert(sorted.filter(p) == ms.filter(p));
        lemma_filter_count(sorted, p, x);
        lemma_filter_count(ms, p, x);
    }
    assert(sorted.to_multiset() =~= ms.to_multiset());
    assert(sorted.to_multiset().len() == sorted.len());
    assert(ms.to_multiset().len() == ms.len());
}

/// Putting monitors in order a second time changes nothing.
pub proof fn in_order_is_idempotent(ms: Seq<MonitorView>)
    ensures
        in_order(in_order(ms)) == in_order(ms),
{
    in_order_is_ordered(ms);
    ordered_monitors_stay(in_order(ms));
}

/// Monitors of the greatest `order` that follow other monitors stay behind all of
/// them, as they came.
pub proof fn last_monitors_stay_last(a: Seq<MonitorView>, b: Seq<MonitorView>)
    requires
        forall|i: int| 0 <= i < b.len() ==> (#[trigger] b[i]).order == u8::MAX,
    ensures
        in_order(a + b) == in_order(a) + b,
{
    in_order_is_ordered(a);
    let front = in_order(a);
    let sorted = front + b;
    assert(is_ordered(sorted));
    assert forall|o: int| #[trigger]
        sorted.filter(at_order(o)) == (a + b).filter(at_order(o)) by {
        lemma_below_facts(a, 256);
        Seq::filter_distributes_over_add(front, b, at_order(o));
        Seq::filter_distributes_over_add(a, b, at_order(o));
        if !(0 <= o < 256) {
            if a.filter(at_order(o)).len() > 0 {
                lemma_filter_from(a, at_order(o), 0);
            }
            assert(a.filter(at_order(o)) =~= seq![]);
        }
        assert(front.filter(at_order(o)) == a.filter(at_order(o)));
    }
    lemma_in_order_found(a + b, sorted);
}

/// Puts monitors in order; those of one `order` keep their sequence.
pub fn sort_monitors(v: &mut Vec<MonitorDefinition>)
    ensures
        final(v).deep_view() == in_order(old(v).deep_view()),
{
    let ghost before = v.deep_view();
    let mut i: usize = 0;
    while i < v.len()
        invariant
            i <= v.len(),
            is_ordered(v.deep_view().take(i as int)),
            forall|o: int| #[trigger]
                v.deep_view().filter(at_order(o)) == before.filter(at_order(o)),
        decreases v.len() - i,
    {
        let ghost ms = v.deep_view();
        let order: u8 = v[i].order;
        let mut j: usize = i;
        while j > 0 && v[j - 1].order > order
            invariant
                j <= i < v.len(),
                ms == v.deep_view(),
                order == ms[i as int].order,
                is_ordered(ms.take(i as int)),
                forall|k: int| j <= k < i ==> (#[trigger] ms[k]).order > order,
            decreases j,
        {
            assert(ms[j - 1] == v[j - 1]@);
            j -= 1;
        }
        let m = v.remove(i);
        v.insert(j, m);
        proof {
            let a = ms.take(j as int);
            let b = ms.subrange(j as int, i as int);
            let c = ms.skip(i + 1);
            let x = ms[i as int];
            assert(ms =~= a + b + seq![x] + c);
            assert(v.deep_view() =~= a + seq![x] + b + c);
            lemma_move_ahead(a, b, x, c);
            assert forall|o: int| #[trigger]
                v.deep_view().filter(at_order(o)) == before.filter(at_order(o)) by {
                assert(ms.filter(at_order(o)) == before.filter(at_order(o)));
                assert((a + b + seq![x] + c).filter(at_order(o)) == (a + seq![x] + b + c).filter(
                    at_order(o),
                ));
            }
            let prefix = ms.take(i as int);
            let done = v.deep_view().take(i + 1);
            assert(done =~= a + seq![x] + b);
            assert forall|k: int, l: int| 0 <= k <= l < done.len() implies done[k].order
                <= done[l].order by {
                if j > 0 {
                    assert(prefix[j - 1].order <= order) by {
                        assert(ms[j - 1] == prefix[j - 1]);
                    }
                }
                let k0 = if k < j { k } else { k - 1 };
                let l0 = if l < j { l } else { l - 1 };
                if k != j && l != j {
                    assert(done[k] == prefix[k0] && done[l] == prefix[l0]);
                } else if k < j {
                    assert(done[k] == prefix[k] && prefix[k].order <= prefix[j - 1].order);
                } else if l > j {
                    assert(done[l] == ms[l0]);
                }
            }
        }
        i += 1;
    }
    proof {
        assert(v.deep_view().take(i as int) =~= v.deep_view());
        lemma_in_order_found(before, v.deep_view());
    }
}

/// Monitors put in order stand by the numbers in their `order` fields, from the
/// smallest to the greatest. They are the monitors that there were, and those of
/// one `order` stand as they stood.
pub proof fn sorting_goes_by_the_numbers(ms: Seq<MonitorView>, order: u8)
    ensures
        forall|i: int, j: int|
            #![trigger in_order(ms)[i], in_order(ms)[j]]
            0 <= i < j < in_order(ms).len() ==> in_order(ms)[i].order <= in_order(ms)[j].order,
        in_order(ms).to_multiset() == ms.to_multiset(),
        in_order(ms).filter(|m: MonitorView| m.order == order) == ms.filter(
            |m: MonitorView| m.order == order,
        ),
{
    in_order_is_ordered(ms);
    in_order_keeps_the_monitors(ms);
    in_order_is_stable(ms, order);
    assert(at_order(order as int) =~= (|m: MonitorView| m.order == order));
}

/// A monitor that stood before another stays before it unless its `order` is
/// greater: with two monitors alone, only that swaps them.
pub proof fn two_monitors_swap_only_for_a_greater_order(a: MonitorView, b: MonitorView)
    ensures
        a.order <= b.order ==> in_order(seq![a, b]) == seq![a, b],
        a.order > b.order ==> in_order(seq![a, b]) == seq![b, a],
{
    let ms = seq![a, b];
    let turned = seq![b, a];
    if a.order <= b.order {
        ordered_monitors_stay(ms);
    } else {
        let none = Seq::<MonitorView>::empty();
        lemma_move_ahead(none, seq![a], b, none);
        assert(none + seq![a] + seq![b] + none =~= ms);
        assert(none + seq![b] + seq![a] + none =~= turned);
        lemma_in_order_found(ms, turned);
    }
}

} // verus!
