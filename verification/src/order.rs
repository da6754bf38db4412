//! Putting things in order, by number or by name.
use vstd::prelude::*;

verus! {

/// Numbers of things, as integers.
pub open spec fn places(order: Seq<usize>) -> Seq<int> {
    Seq::new(order.len(), |i: int| order[i] as int)
}

/// Whether an order names each of `n` things once.
pub open spec fn names_each_once(order: Seq<int>, n: nat) -> bool {
    &&& order.len() == n
    &&& order.no_duplicates()
    &&& forall|i: int| 0 <= i < n ==> 0 <= #[trigger] order[i] < n
    &&& forall|k: int| 0 <= k < n ==> #[trigger] order.contains(k)
}

/// An order that names each of `n` things once, with one more thing put in.
proof fn lemma_put_in(order: Seq<int>, n: nat, at: int)
    requires
        names_each_once(order, n),
        0 <= at <= n,
    ensures
        names_each_once(order.insert(at, n as int), n + 1),
{
    let more = order.insert(at, n as int);
    assert forall|i: int| 0 <= i < n + 1 implies 0 <= #[trigger] more[i] < n + 1 by {
        if i < at {
            assert(more[i] == order[i]);
        } else if i > at {
            assert(more[i] == order[i - 1]);
        }
    }
    assert forall|i: int, j: int| 0 <= i < more.len() && 0 <= j < more.len() && i != j implies more[i]
        != more[j] by {
        let a = if i < at {
            order[i]
        } else if i > at {
            order[i - 1]
        } else {
            n as int
        };
        let b = if j < at {
            order[j]
        } else if j > at {
            order[j - 1]
        } else {
            n as int
        };
        assert(more[i] == a && more[j] == b);
    }
    assert forall|k: int| 0 <= k < n + 1 implies #[trigger] more.contains(k) by {
        if k == n {
            assert(more[at] == k);
        } else {
            assert(order.contains(k));
            let i = order.index_of(k);
            if i < at {
                assert(more[i] == k);
            } else {
                assert(more[i + 1] == k);
            }
        }
    }
}

/// Whether the thing with number `a` comes before that with number `b`: it has the
/// smaller key, or the same one and the smaller number.
pub open spec fn comes_first(keys: Seq<i64>, a: int, b: int) -> bool {
    keys[a] < keys[b] || (keys[a] == keys[b] && a < b)
}

/// Whether an order is that of the keys, from small to large; things with the same
/// key keep their order.
pub open spec fn is_order_of(keys: Seq<i64>, order: Seq<int>) -> bool {
    &&& names_each_once(order, keys.len())
    &&& forall|i: int, j: int|
        0 <= i < j < order.len() ==> comes_first(keys, #[trigger] order[i], #[trigger] order[j])
}

/// The order of things by their keys.
pub fn order_by_number(keys: &Vec<i64>) -> (order: Vec<usize>)
    ensures
        is_order_of(keys@, places(order@)),
{
    let mut order: Vec<usize> = Vec::new();
    let mut n: usize = 0;
    assert(places(order@) =~= Seq::empty());
    while n < keys.len()
        invariant
            n <= keys.len(),
            names_each_once(places(order@), n as nat),
            forall|i: int, j: int|
                0 <= i < j < n ==> comes_first(
                    keys@,
                    #[trigger] places(order@)[i],
                    #[trigger] places(order@)[j],
                ),
        decreases keys.len() - n,
    {
        let ghost before = places(order@);
        assert(order.len() == n);
        assert forall|i: int| 0 <= i < n implies #[trigger] order@[i] < n by {
            assert(before[i] == order@[i]);
        }
        let mut at: usize = n;
        while at > 0 && keys[order[at - 1]] > keys[n]
            invariant
                at <= n < keys.len(),
                order.len() == n,
                before == places(order@),
                names_each_once(before, n as nat),
                forall|i: int| at <= i < n ==> keys@[#[trigger] before[i]] > keys@[n as int],
                forall|i: int| 0 <= i < n ==> (#[trigger] before[i]) == order@[i],
                forall|i: int| 0 <= i < n ==> #[trigger] order@[i] < n,
            decreases at,
        {
            at -= 1;
        }
        assert forall|i: int| 0 <= i < at implies comes_first(
            keys@,
            #[trigger] before[i],
            n as int,
        ) by {
            if i < at - 1 {
                assert(comes_first(keys@, before[i], before[at - 1]));
            }
            assert(before[at - 1] == order@[at - 1]);
        }
        order.insert(at, n);
        proof {
            let after = places(order@);
            assert(after =~= before.insert(at as int, n as int));
            lemma_put_in(before, n as nat, at as int);
            assert forall|i: int, j: int| 0 <= i < j < n + 1 implies comes_first(
                keys@,
                #[trigger] after[i],
                #[trigger] after[j],
            ) by {
                if i < at && j < at {
                    assert(after[i] == before[i] && after[j] == before[j]);
                } else if i < at && j == at {
                    assert(after[i] == before[i]);
                } else if i < at {
                    assert(after[i] == before[i] && after[j] == before[j - 1]);
                } else if i == at {
                    assert(after[j] == before[j - 1]);
                } else {
                    assert(after[i] == before[i - 1] && after[j] == before[j - 1]);
                }
            }
        }
        n += 1;
    }
    order
}

/// The order of octets as in a dictionary.
pub open spec fn octets_before(a: Seq<u8>, b: Seq<u8>) -> bool
    decreases a.len(),
{
    if b.len() == 0 {
        false
    } else if a.len() == 0 {
        true
    } else if a[0] != b[0] {
        a[0] < b[0]
    } else {
        octets_before(a.skip(1), b.skip(1))
    }
}

/// The order of texts: that of their encodings.
pub open spec fn text_before(a: Seq<char>, b: Seq<char>) -> bool {
    octets_before(vstd::utf8::encode_utf8(a), vstd::utf8::encode_utf8(b))
}

proof fn lemma_octets_before_skip(a: Seq<u8>, b: Seq<u8>, i: int)
    requires
        0 <= i <= a.len(),
        i <= b.len(),
        forall|j: int| 0 <= j < i ==> a[j] == b[j],
    ensures
        octets_before(a, b) == octets_before(a.skip(i), b.skip(i)),
    decreases i,
{
    if i == 0 {
        assert(a.skip(0) =~= a);
        assert(b.skip(0) =~= b);
    } else {
        assert forall|j: int| 0 <= j < i - 1 implies a.skip(1)[j] == b.skip(1)[j] by {
            assert(a[j + 1] == b[j + 1]);
        }
        lemma_octets_before_skip(a.skip(1), b.skip(1), i - 1);
        assert(a.skip(1).skip(i - 1) =~= a.skip(i));
        assert(b.skip(1).skip(i - 1) =~= b.skip(i));
        assert(a[0] == b[0]);
    }
}

fn octets_are_before(a: &[u8], b: &[u8]) -> (r: bool)
    ensures
        r == octets_before(a@, b@),
{
    let mut i: usize = 0;
    while i < a.len() && i < b.len()
        invariant
            i <= a.len(),
            i <= b.len(),
            forall|j: int| 0 <= j < i ==> a@[j] == b@[j],
        decreases a.len() - i,
    {
        if a[i] != b[i] {
            proof {
                lemma_octets_before_skip(a@, b@, i as int);
            }
            return a[i] < b[i];
        }
        i += 1;
    }
    proof {
        lemma_octets_before_skip(a@, b@, i as int);
    }
    a.len() < b.len()
}

/// Of three octet strings in order, the first comes before the last; of two, at
/// least one comes first unless they are the same.
proof fn lemma_octets_before(a: Seq<u8>, b: Seq<u8>, c: Seq<u8>)
    ensures
        octets_before(a, b) && octets_before(b, c) ==> octets_before(a, c),
        !octets_before(b, a) && !octets_before(c, b) ==> !octets_before(c, a),
        !octets_before(a, b) && !octets_before(b, a) ==> a == b,
        !octets_before(a, a),
    decreases a.len() + b.len() + c.len(),
{
    if a.len() == 0 && b.len() == 0 {
        assert(a =~= b);
    }
    if a.len() > 0 && b.len() > 0 && c.len() > 0 {
        lemma_octets_before(a.skip(1), b.skip(1), c.skip(1));
        if a[0] == b[0] && a.skip(1) == b.skip(1) {
            assert(a =~= seq![a[0]] + a.skip(1));
            assert(b =~= seq![b[0]] + b.skip(1));
        }
    } else if a.len() > 0 && b.len() > 0 {
        lemma_octets_before(a.skip(1), b.skip(1), c);
        if a[0] == b[0] && a.skip(1) == b.skip(1) {
            assert(a =~= seq![a[0]] + a.skip(1));
            assert(b =~= seq![b[0]] + b.skip(1));
        }
    } else if a.len() > 0 {
        lemma_octets_before(a.skip(1), b, c);
    }
}

/// Whether an order is that of the names; things with the same name keep their
/// order.
pub open spec fn is_name_order_of(names: Seq<Seq<char>>, order: Seq<int>) -> bool {
    &&& names_each_once(order, names.len())
    &&& forall|i: int, j: int|
        0 <= i < j < order.len() ==> name_comes_first(
            names,
            #[trigger] order[i],
            #[trigger] order[j],
        )
}

/// Whether the thing with number `a` comes before that with number `b`: its name
/// does, or the names are the same and its number is smaller.
pub open spec fn name_comes_first(names: Seq<Seq<char>>, a: int, b: int) -> bool {
    text_before(names[a], names[b]) || (names[a] == names[b] && a < b)
}

proof fn lemma_name_order(names: Seq<Seq<char>>, a: int, b: int, c: int)
    ensures
        name_comes_first(names, a, b) && name_comes_first(names, b, c) ==> name_comes_first(
            names,
            a,
            c,
        ),
        !text_before(names[b], names[a]) && a < b ==> name_comes_first(names, a, b),
{
    lemma_octets_before(
        vstd::utf8::encode_utf8(names[a]),
        vstd::utf8::encode_utf8(names[b]),
        vstd::utf8::encode_utf8(names[c]),
    );
    if !text_before(names[b], names[a]) && !text_before(names[a], names[b]) {
        crate::text::lemma_encoding_injective(names[a], names[b]);
    }
}

/// The order of things by their names.
pub fn order_by_name(list: &Vec<&str>) -> (order: Vec<usize>)
    ensures
        is_name_order_of(Seq::new(list@.len(), |i: int| list@[i]@), places(order@)),
{
    let ghost names = Seq::new(list@.len(), |i: int| list@[i]@);
    let mut order: Vec<usize> = Vec::new();
    let mut n: usize = 0;
    assert(places(order@) =~= Seq::empty());
    while n < list.len()
        invariant
            n <= list.len(),
            names == Seq::new(list@.len(), |i: int| list@[i]@),
            names_each_once(places(order@), n as nat),
            forall|i: int, j: int|
                0 <= i < j < n ==> name_comes_first(
                    names,
                    #[trigger] places(order@)[i],
                    #[trigger] places(order@)[j],
                ),
        decreases list.len() - n,
    {
        let ghost before = places(order@);
        assert(order.len() == n);
        assert forall|i: int| 0 <= i < n implies #[trigger] order@[i] < n by {
            assert(before[i] == order@[i]);
        }
        let mut at: usize = n;
        while at > 0 && octets_are_before(list[n].as_bytes(), list[order[at - 1]].as_bytes())
            invariant
                at <= n < list.len(),
                order.len() == n,
                names == Seq::new(list@.len(), |i: int| list@[i]@),
                before == places(order@),
                names_each_once(before, n as nat),
                forall|i: int| at <= i < n ==> text_before(names[n as int], names[#[trigger] before[i]]),
                forall|i: int| 0 <= i < n ==> (#[trigger] before[i]) == order@[i],
                forall|i: int| 0 <= i < n ==> #[trigger] order@[i] < n,
            decreases at,
        {
            assert(before[at - 1] == order@[at - 1]);
            at -= 1;
        }
        proof {
            assert forall|i: int| 0 <= i < at implies name_comes_first(
                names,
                #[trigger] before[i],
                n as int,
            ) by {
                assert(before[at - 1] == order@[at - 1]);
                lemma_name_order(names, before[at - 1], n as int, n as int);
                if i < at - 1 {
                    assert(name_comes_first(names, before[i], before[at - 1]));
                    lemma_name_order(names, before[i], before[at - 1], n as int);
                }
            }
        }
        order.insert(at, n);
        proof {
            let after = places(order@);
            assert(after =~= before.insert(at as int, n as int));
            lemma_put_in(before, n as nat, at as int);
            assert forall|i: int, j: int| 0 <= i < j < n + 1 implies name_comes_first(
                names,
                #[trigger] after[i],
                #[trigger] after[j],
            ) by {
                if i < at && j < at {
                    assert(after[i] == before[i] && after[j] == before[j]);
                } else if i < at && j == at {
                    assert(after[i] == before[i]);
                } else if i < at {
                    assert(after[i] == before[i] && after[j] == before[j - 1]);
                } else if i == at {
                    assert(after[j] == before[j - 1]);
                } else {
                    assert(after[i] == before[i - 1] && after[j] == before[j - 1]);
                }
            }
        }
        n += 1;
    }
    order
}

/// Whether each thing in a list comes before those after it.
pub open spec fn is_sorted_by<T>(list: Seq<T>, first: spec_fn(T, T) -> bool) -> bool {
    forall|i: int, j: int|
        0 <= i < j < list.len() ==> first(#[trigger] list[i], #[trigger] list[j])
}

proof fn lemma_alike_upto<T>(a: Seq<T>, b: Seq<T>, first: spec_fn(T, T) -> bool, k: nat)
    requires
        a.len() == b.len(),
        a.no_duplicates(),
        b.no_duplicates(),
        forall|x: T| #[trigger] a.contains(x) <==> b.contains(x),
        forall|x: T, y: T| !(#[trigger] first(x, y) && first(y, x)),
        is_sorted_by(a, first),
        is_sorted_by(b, first),
        k <= a.len(),
    ensures
        forall|i: int| 0 <= i < k ==> #[trigger] a[i] == b[i],
    decreases k,
{
    if k > 0 {
        lemma_alike_upto(a, b, first, (k - 1) as nat);
        let x = a[k - 1];
        let y = b[k - 1];
        if x != y {
            assert(a.contains(x));
            assert(b.contains(x));
            let p = b.index_of(x);
            assert(b[p] == x);
            if p < k - 1 {
                assert(a[p] == x);
            }
            assert(first(y, x));
            assert(b.contains(y));
            assert(a.contains(y));
            let q = a.index_of(y);
            assert(a[q] == y);
            if q < k - 1 {
                assert(b[q] == y);
            }
            assert(first(x, y));
        }
    }
}

/// Two lists of the same things in the same order are the same.
pub(crate) proof fn lemma_sorted_alike<T>(a: Seq<T>, b: Seq<T>, first: spec_fn(T, T) -> bool)
    requires
        a.len() == b.len(),
        a.no_duplicates(),
        b.no_duplicates(),
        forall|x: T| #[trigger] a.contains(x) <==> b.contains(x),
        forall|x: T, y: T| !(#[trigger] first(x, y) && first(y, x)),
        is_sorted_by(a, first),
        is_sorted_by(b, first),
    ensures
        a == b,
{
    lemma_alike_upto(a, b, first, a.len());
    assert(a =~= b);
}

proof fn lemma_same_places(a: Seq<int>, b: Seq<int>, n: nat)
    requires
        names_each_once(a, n),
        names_each_once(b, n),
    ensures
        forall|x: int| #[trigger] a.contains(x) <==> b.contains(x),
{
    assert forall|x: int| #[trigger] a.contains(x) <==> b.contains(x) by {
        if a.contains(x) {
            let i = a.index_of(x);
            assert(0 <= a[i] < n);
        }
        if b.contains(x) {
            let i = b.index_of(x);
            assert(0 <= b[i] < n);
        }
    }
}

/// Numbers have one order.
pub proof fn numbers_have_one_order(keys: Seq<i64>, a: Seq<int>, b: Seq<int>)
    requires
        is_order_of(keys, a),
        is_order_of(keys, b),
    ensures
        a == b,
{
    let first = |x: int, y: int| comes_first(keys, x, y);
    lemma_same_places(a, b, keys.len());
    lemma_sorted_alike(a, b, first);
}

/// Of two texts at most one comes before the other.
pub(crate) proof fn lemma_text_before_once(a: Seq<char>, b: Seq<char>)
    ensures
        !(text_before(a, b) && text_before(b, a)),
        !text_before(a, a),
{
    let x = vstd::utf8::encode_utf8(a);
    let y = vstd::utf8::encode_utf8(b);
    lemma_octets_before(x, y, x);
}

/// Names have one order.
pub proof fn names_have_one_order(names: Seq<Seq<char>>, a: Seq<int>, b: Seq<int>)
    requires
        is_name_order_of(names, a),
        is_name_order_of(names, b),
    ensures
        a == b,
{
    let first = |x: int, y: int| name_comes_first(names, x, y);
    assert forall|x: int, y: int| !(#[trigger] first(x, y) && first(y, x)) by {
        lemma_text_before_once(names[x], names[y]);
    }
    lemma_same_places(a, b, names.len());
    lemma_sorted_alike(a, b, first);
}

/// The order of octets is that of a dictionary: the first octet in which they differ decides,
/// and what goes on comes after what ends.
pub proof fn the_first_difference_decides(
    head: Seq<u8>,
    x: u8,
    y: u8,
    a: Seq<u8>,
    b: Seq<u8>,
)
    requires
        x < y,
    ensures
        octets_before(head + (seq![x] + a), head + (seq![y] + b)),
        !octets_before(head + (seq![y] + b), head + (seq![x] + a)),
        octets_before(head, head + (seq![x] + a)),
        !octets_before(head + a, head),
        !octets_before(head, head),
{
    let n = head.len() as int;
    let first = seq![x] + a;
    let second = seq![y] + b;
    let none = Seq::<u8>::empty();
    assert(first[0] == x && second[0] == y);
    lemma_octets_before_skip(head + first, head + second, n);
    assert((head + first).skip(n) =~= first);
    assert((head + second).skip(n) =~= second);
    lemma_octets_before_skip(head + second, head + first, n);
    lemma_octets_before_skip(head, head + first, n);
    assert(head.skip(n) =~= none);
    lemma_octets_before_skip(head + a, head, n);
    lemma_octets_before_skip(head, head, n);
}

/// Things are put in the order of their numbers, the smallest first: nothing stands before a
/// thing with a smaller number, and things with one number stay as they stood.
pub proof fn smaller_numbers_come_first(keys: Seq<i64>, order: Seq<int>, i: int, j: int)
    requires
        is_order_of(keys, order),
        0 <= i < j < order.len(),
    ensures
        keys[order[i]] <= keys[order[j]],
        keys[order[i]] == keys[order[j]] ==> order[i] < order[j],
        0 <= order[i] < keys.len(),
        0 <= order[j] < keys.len(),
        order[i] != order[j],
{
    assert(comes_first(keys, order[i], order[j]));
}

/// Every thing has a place in an order.
pub proof fn everything_has_a_place(order: Seq<int>, n: nat, k: int)
    requires
        names_each_once(order, n),
        0 <= k < n,
    ensures
        exists|i: int| 0 <= i < order.len() && #[trigger] order[i] == k,
{
    assert(order.contains(k));
}

/// Names are put in the order of their encodings: none stands before an earlier one.
pub proof fn earlier_names_come_first(names: Seq<Seq<char>>, order: Seq<int>, i: int, j: int)
    requires
        is_name_order_of(names, order),
        0 <= i < j < order.len(),
    ensures
        octets_before(
            vstd::utf8::encode_utf8(names[order[i]]),
            vstd::utf8::encode_utf8(names[order[j]]),
        ) || (names[order[i]] == names[order[j]] && order[i] < order[j]),
{
    assert(name_comes_first(names, order[i], order[j]));
}

} // verus!
