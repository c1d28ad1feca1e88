//! The order in which the source units of a program are translated: by
//! name, so that the translation of a program does not depend on the order in
//! which its units were found.

use vstd::prelude::*;
use crate::assembly::lines_view;
use crate::text::chars_of;

verus! {

/// Whether the text `a` comes no later than the text `b` in the order of
/// the dictionary, characters compared by their code: `a` is the beginning
/// of `b`, or where the two first differ `a` has the lesser character.
pub open spec fn text_le(a: Seq<char>, b: Seq<char>) -> bool
    decreases a.len(),
{
    if a.len() == 0 {
        true
    } else if b.len() == 0 {
        false
    } else if a[0] != b[0] {
        a[0] < b[0]
    } else {
        text_le(a.skip(1), b.skip(1))
    }
}

/// Whether the unit at the position `x` is translated before the unit at
/// the position `y`: its name comes earlier, or the names are the same and
/// it stands earlier among the units given.
pub open spec fn precedes(names: Seq<Seq<char>>, x: int, y: int) -> bool {
    if names[x] == names[y] {
        x < y
    } else {
        text_le(names[x], names[y])
    }
}

/// Whether `order` arranges positions so that each is translated before
/// those that follow it.
pub open spec fn ascending(names: Seq<Seq<char>>, order: Seq<usize>) -> bool {
    forall|i: int, j: int|
        0 <= i < j < order.len() ==> precedes(names, order[i] as int, order[j] as int)
}

/// Whether `order` is the order of translation of units with the names
/// `names`: it holds every position of a unit, and each is translated before
/// those that follow it, so that none occurs twice.
pub open spec fn is_unit_order(names: Seq<Seq<char>>, order: Seq<usize>) -> bool {
    &&& order.len() == names.len()
    &&& forall|i: int| 0 <= i < order.len() ==> (#[trigger] order[i]) < names.len()
    &&& ascending(names, order)
}

/// `order` with the position `k` put after the last position whose name
/// comes no later than the name at `k`.
pub open spec fn inserted(names: Seq<Seq<char>>, order: Seq<usize>, k: usize) -> Seq<usize>
    decreases order.len(),
{
    if order.len() == 0 || text_le(names[order.last() as int], names[k as int]) {
        order.push(k)
    } else {
        inserted(names, order.drop_last(), k).push(order.last())
    }
}

/// The order of translation of the first `n` units.
pub open spec fn unit_order_first(names: Seq<Seq<char>>, n: nat) -> Seq<usize>
    decreases n,
{
    if n == 0 {
        Seq::empty()
    } else {
        inserted(names, unit_order_first(names, (n - 1) as nat), (n - 1) as usize)
    }
}

/// The order of translation of units with the names `names`.
pub open spec fn unit_order_of(names: Seq<Seq<char>>) -> Seq<usize> {
    unit_order_first(names, names.len())
}

/// Every text comes no later than itself.
pub proof fn lemma_text_le_reflexive(a: Seq<char>)
    ensures
        text_le(a, a),
    decreases a.len(),
{
    if a.len() > 0 {
        lemma_text_le_reflexive(a.skip(1));
    }
}

/// Of two texts one comes no later than the other.
pub proof fn lemma_text_le_total(a: Seq<char>, b: Seq<char>)
    ensures
        text_le(a, b) || text_le(b, a),
    decreases a.len(),
{
    if a.len() > 0 && b.len() > 0 && a[0] == b[0] {
        lemma_text_le_total(a.skip(1), b.skip(1));
    }
}

/// Two texts of which each comes no later than the other are the same.
pub proof fn lemma_text_le_antisymmetric(a: Seq<char>, b: Seq<char>)
    requires
        text_le(a, b),
        text_le(b, a),
    ensures
        a == b,
    decreases a.len(),
{
    if a.len() == 0 || b.len() == 0 {
        assert(a =~= b);
    } else {
        lemma_text_le_antisymmetric(a.skip(1), b.skip(1));
        assert(a =~= seq![a[0]] + a.skip(1));
        assert(b =~= seq![b[0]] + b.skip(1));
    }
}

/// What comes no later than a text comes no later than what that text comes
/// no later than.
pub proof fn lemma_text_le_transitive(a: Seq<char>, b: Seq<char>, c: Seq<char>)
    requires
        text_le(a, b),
        text_le(b, c),
    ensures
        text_le(a, c),
    decreases a.len(),
{
    if a.len() > 0 && b.len() > 0 && c.len() > 0 && a[0] == b[0] && b[0] == c[0] {
        lemma_text_le_transitive(a.skip(1), b.skip(1), c.skip(1));
    }
}

/// What is translated before a unit is translated before what that unit is
/// translated before.
pub proof fn lemma_precedes_transitive(names: Seq<Seq<char>>, x: int, y: int, z: int)
    requires
        precedes(names, x, y),
        precedes(names, y, z),
    ensures
        precedes(names, x, z),
{
    lemma_text_le_reflexive(names[x]);
    lemma_text_le_reflexive(names[y]);
    if names[x] == names[z] {
        if names[x] != names[y] {
            lemma_text_le_antisymmetric(names[x], names[y]);
        }
    } else if names[x] == names[y] || names[y] == names[z] {
    } else {
        lemma_text_le_transitive(names[x], names[y], names[z]);
    }
}

/// Putting a position after all those given into an ascending order gives
/// an ascending order of the same positions and the new one.
pub proof fn lemma_inserted(names: Seq<Seq<char>>, order: Seq<usize>, k: usize)
    requires
        ascending(names, order),
        forall|i: int| 0 <= i < order.len() ==> (#[trigger] order[i]) < k,
    ensures
        ascending(names, inserted(names, order, k)),
        inserted(names, order, k).len() == order.len() + 1,
        forall|i: int|
            0 <= i < order.len() + 1 ==> (#[trigger] inserted(names, order, k)[i]) == k
                || order.contains(inserted(names, order, k)[i]),
        inserted(names, order, k).contains(k),
        forall|i: int|
            0 <= i < order.len() ==> inserted(names, order, k).contains(#[trigger] order[i]),
    decreases order.len(),
{
    let result = inserted(names, order, k);
    if order.len() == 0 {
        assert(result[0] == k);
    } else if text_le(names[order.last() as int], names[k as int]) {
        assert(result[order.len() as int] == k);
        assert forall|i: int| 0 <= i < order.len() implies result.contains(#[trigger] order[i]) by {
            assert(result[i] == order[i]);
        }
        assert forall|i: int, j: int| 0 <= i < j < result.len() implies precedes(
            names,
            result[i] as int,
            result[j] as int,
        ) by {
            if j == order.len() {
                assert(order.last() < k);
                if i < order.len() - 1 {
                    lemma_precedes_transitive(
                        names,
                        order[i] as int,
                        order.last() as int,
                        k as int,
                    );
                }
            }
        }
        assert forall|i: int| 0 <= i < order.len() + 1 implies (#[trigger] result[i]) == k
            || order.contains(result[i]) by {
            if i < order.len() {
                assert(order[i] == result[i]);
            }
        }
    } else {
        let rest = order.drop_last();
        let last = order.last();
        let inner = inserted(names, rest, k);
        assert(ascending(names, rest)) by {
            assert forall|i: int, j: int| 0 <= i < j < rest.len() implies precedes(
                names,
                rest[i] as int,
                rest[j] as int,
            ) by {
                assert(precedes(names, order[i] as int, order[j] as int));
            }
        }
        assert forall|i: int| 0 <= i < rest.len() implies (#[trigger] rest[i]) < k by {
            assert(order[i] < k);
        }
        lemma_inserted(names, rest, k);
        lemma_text_le_total(names[last as int], names[k as int]);
        lemma_text_le_reflexive(names[k as int]);
        assert(precedes(names, k as int, last as int));
        assert forall|i: int, j: int| 0 <= i < j < result.len() implies precedes(
            names,
            result[i] as int,
            result[j] as int,
        ) by {
            if j == inner.len() {
                if inner[i] != k {
                    let x = choose|x: int| 0 <= x < rest.len() && rest[x] == inner[i];
                    assert(precedes(names, order[x] as int, order[order.len() - 1] as int));
                }
            } else {
                assert(precedes(names, inner[i] as int, inner[j] as int));
            }
        }
        assert forall|i: int| 0 <= i < order.len() + 1 implies (#[trigger] result[i]) == k
            || order.contains(result[i]) by {
            if i < inner.len() {
                if inner[i] != k {
                    let x = choose|x: int| 0 <= x < rest.len() && rest[x] == inner[i];
                    assert(order[x] == result[i]);
                }
            } else {
                assert(order[order.len() - 1] == result[i]);
            }
        }
        assert(result.contains(k)) by {
            let x = choose|x: int| 0 <= x < inner.len() && inner[x] == k;
            assert(result[x] == k);
        }
        assert forall|i: int| 0 <= i < order.len() implies result.contains(#[trigger] order[i]) by {
            if i < rest.len() {
                assert(rest[i] == order[i]);
                let x = choose|x: int| 0 <= x < inner.len() && inner[x] == rest[i];
                assert(result[x] == order[i]);
            } else {
                assert(result[inner.len() as int] == order[i]);
            }
        }
    }
}

proof fn lemma_unit_order_first(names: Seq<Seq<char>>, n: nat)
    requires
        n <= names.len() <= usize::MAX,
    ensures
        ascending(names, unit_order_first(names, n)),
        unit_order_first(names, n).len() == n,
        forall|i: int| 0 <= i < n ==> (#[trigger] unit_order_first(names, n)[i]) < n,
        forall|x: usize| x < n ==> #[trigger] unit_order_first(names, n).contains(x),
    decreases n,
{
    if n > 0 {
        let before = unit_order_first(names, (n - 1) as nat);
        lemma_unit_order_first(names, (n - 1) as nat);
        lemma_inserted(names, before, (n - 1) as usize);
        let result = unit_order_first(names, n);
        assert forall|i: int| 0 <= i < n implies (#[trigger] result[i]) < n by {
            if result[i] != (n - 1) as usize {
                let x = choose|x: int| 0 <= x < before.len() && before[x] == result[i];
                assert(before[x] < n - 1);
            }
        }
        assert forall|x: usize| x < n implies #[trigger] result.contains(x) by {
            if x < n - 1 {
                assert(before.contains(x));
                let i = choose|i: int| 0 <= i < before.len() && before[i] == x;
                assert(result.contains(before[i]));
            }
        }
    }
}

/// The order of translation holds the position of every unit, each once,
/// and along it the names ascend; units of the same name keep the order in
/// which they were given.
pub proof fn lemma_unit_order(names: Seq<Seq<char>>)
    requires
        names.len() <= usize::MAX,
    ensures
        is_unit_order(names, unit_order_of(names)),
        forall|x: usize| x < names.len() ==> #[trigger] unit_order_of(names).contains(x),
        forall|i: int, j: int|
            0 <= i < j < names.len() ==> unit_order_of(names)[i] != unit_order_of(names)[j],
        forall|i: int, j: int|
            0 <= i < j < names.len() ==> text_le(
                names[unit_order_of(names)[i] as int],
                names[unit_order_of(names)[j] as int],
            ),
{
    lemma_unit_order_first(names, names.len());
    let order = unit_order_of(names);
    assert forall|i: int, j: int| 0 <= i < j < names.len() implies unit_order_of(names)[i]
        != unit_order_of(names)[j] by {
        assert(precedes(names, order[i] as int, order[j] as int));
    }
    assert forall|i: int, j: int| 0 <= i < j < names.len() implies text_le(
        names[unit_order_of(names)[i] as int],
        names[unit_order_of(names)[j] as int],
    ) by {
        assert(precedes(names, order[i] as int, order[j] as int));
        lemma_text_le_reflexive(names[order[i] as int]);
    }
}

/// Whether the text `a` comes no later than the text `b`.
pub fn text_no_later(a: &Vec<char>, b: &Vec<char>) -> (r: bool)
    ensures
        r == text_le(a@, b@),
{
    let mut i: usize = 0;
    assert(a@.skip(0) =~= a@ && b@.skip(0) =~= b@);
    while i < a.len() && i < b.len()
        invariant
            i <= a.len(),
            i <= b.len(),
            text_le(a@, b@) == text_le(a@.skip(i as int), b@.skip(i as int)),
        decreases a.len() - i,
    {
        assert(a@.skip(i as int)[0] == a@[i as int]);
        assert(b@.skip(i as int)[0] == b@[i as int]);
        if a[i] != b[i] {
            return a[i] < b[i];
        }
        assert(a@.skip(i as int).skip(1) =~= a@.skip(i + 1));
        assert(b@.skip(i as int).skip(1) =~= b@.skip(i + 1));
        i = i + 1;
    }
    i == a.len()
}

/// The order in which units with the names `names` are translated: the
/// positions of the units, arranged so that the names ascend.
pub fn unit_order(names: &Vec<String>) -> (order: Vec<usize>)
    ensures
        order@ == unit_order_of(lines_view(names@)),
{
    let ghost all = lines_view(names@);
    let mut texts: Vec<Vec<char>> = Vec::new();
    let mut t: usize = 0;
    while t < names.len()
        invariant
            t <= names.len(),
            texts.len() == t,
            forall|i: int| 0 <= i < t ==> (#[trigger] texts@[i])@ == names@[i]@,
        decreases names.len() - t,
    {
        texts.push(chars_of(names[t].as_str()));
        t = t + 1;
    }
    let mut order: Vec<usize> = Vec::new();
    let mut k: usize = 0;
    while k < names.len()
        invariant
            k <= names.len(),
            all == lines_view(names@),
            texts.len() == names.len(),
            forall|i: int| 0 <= i < names.len() ==> (#[trigger] texts@[i])@ == names@[i]@,
            order@ == unit_order_first(all, k as nat),
            order.len() == k,
            forall|i: int| 0 <= i < k ==> (#[trigger] order@[i]) < k,
        decreases names.len() - k,
    {
        let ghost before = order@;
        let mut p: usize = order.len();
        assert(before.take(p as int) =~= before);
        assert(before.skip(p as int) =~= Seq::<usize>::empty());
        assert(inserted(all, before, k) =~= inserted(all, before.take(p as int), k) + before.skip(
            p as int,
        ));
        while p > 0 && !text_no_later(&texts[order[p - 1]], &texts[k])
            invariant
                p <= order.len(),
                order@ == before,
                k < names.len(),
                all == lines_view(names@),
                texts.len() == names.len(),
                forall|i: int| 0 <= i < names.len() ==> (#[trigger] texts@[i])@ == names@[i]@,
                forall|i: int| 0 <= i < before.len() ==> (#[trigger] before[i]) < k,
                inserted(all, before, k) == inserted(all, before.take(p as int), k) + before.skip(
                    p as int,
                ),
            decreases p,
        {
            let ghost part = before.take(p as int);
            assert(part.last() == before[p - 1]);
            assert(part.drop_last() =~= before.take(p - 1));
            assert(inserted(all, before.take(p - 1), k).push(before[p - 1]) + before.skip(p as int)
                =~= inserted(all, before.take(p - 1), k) + before.skip(p - 1));
            p = p - 1;
        }
        proof {
            let part = before.take(p as int);
            if p > 0 {
                assert(part.last() == before[p - 1]);
            }
            assert(inserted(all, part, k) == part.push(k));
            assert(part.push(k) + before.skip(p as int) =~= before.insert(p as int, k));
            lemma_unit_order_first(all, k as nat);
            lemma_inserted(all, before, k);
            let result = inserted(all, before, k);
            assert forall|i: int| 0 <= i < k + 1 implies (#[trigger] result[i]) < k + 1 by {
                if result[i] != k {
                    let x = choose|x: int| 0 <= x < before.len() && before[x] == result[i];
                }
            }
        }
        order.insert(p, k);
        k = k + 1;
    }
    order
}

} // verus!
