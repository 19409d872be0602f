use vstd::prelude::*;

use crate::text::{lemma_seq_less_total, lemma_seq_less_transitive, order_str, seq_less, Order};

verus! {

/// A grouping key of three strings, as character sequences.
pub type GroupKey = (Seq<char>, Seq<char>, Seq<char>);

/// Items collected under one key of three strings.
pub struct Group<T> {
    pub key: (String, String, String),
    pub items: Vec<T>,
}

/// The key of a group, as character sequences.
pub open spec fn key_of<T>(g: Group<T>) -> GroupKey {
    (g.key.0@, g.key.1@, g.key.2@)
}

/// The key and item views of a group.
pub open spec fn group_view<T: View>(g: Group<T>) -> (GroupKey, Seq<T::V>) {
    (key_of(g), g.items@.map_values(|x: T| x@))
}

/// The views of a sequence of groups.
pub open spec fn groups_view<T: View>(gs: Seq<Group<T>>) -> Seq<(GroupKey, Seq<T::V>)> {
    gs.map_values(|g: Group<T>| group_view(g))
}

/// Lexicographic order on keys of three strings, the order of a `BTreeMap`
/// keyed by `(String, String, String)`.
pub open spec fn key_less(a: GroupKey, b: GroupKey) -> bool {
    seq_less(a.0, b.0) || (a.0 == b.0 && (seq_less(a.1, b.1) || (a.1 == b.1 && seq_less(a.2, b.2))))
}

/// The items of `stream` whose key is `k`, in stream order (entries without
/// an item only name their key).
pub open spec fn items_with_key<V>(stream: Seq<(GroupKey, Option<V>)>, k: GroupKey) -> Seq<V>
    decreases stream.len(),
{
    if stream.len() == 0 {
        Seq::<V>::empty()
    } else if stream.last().0 == k && stream.last().1 is Some {
        items_with_key(stream.drop_last(), k).push(stream.last().1->0)
    } else {
        items_with_key(stream.drop_last(), k)
    }
}

/// `k` is the key of some entry of the stream.
pub open spec fn key_occurs<V>(stream: Seq<(GroupKey, Option<V>)>, k: GroupKey) -> bool {
    exists|j: int| 0 <= j < stream.len() && (#[trigger] stream[j]).0 == k
}

/// `k` is the key of some group.
pub open spec fn key_has_group<V>(gs: Seq<(GroupKey, Seq<V>)>, k: GroupKey) -> bool {
    exists|i: int| 0 <= i < gs.len() && (#[trigger] gs[i]).0 == k
}

/// Groups in strictly increasing key order.
pub open spec fn groups_sorted<V>(gs: Seq<(GroupKey, Seq<V>)>) -> bool {
    forall|i: int, j: int| 0 <= i < j < gs.len() ==> key_less(#[trigger] gs[i].0, #[trigger] gs[j].0)
}

/// Each group holds the items of its key, in stream order.
pub open spec fn groups_hold<V>(gs: Seq<(GroupKey, Seq<V>)>, stream: Seq<(GroupKey, Option<V>)>) -> bool {
    forall|i: int| 0 <= i < gs.len() ==> (#[trigger] gs[i]).1 == items_with_key(stream, gs[i].0)
}

/// The key of each group occurs in the stream.
pub open spec fn groups_occur<V>(gs: Seq<(GroupKey, Seq<V>)>, stream: Seq<(GroupKey, Option<V>)>) -> bool {
    forall|i: int| 0 <= i < gs.len() ==> key_occurs(stream, (#[trigger] gs[i]).0)
}

/// Each key of the stream has a group.
pub open spec fn stream_covered<V>(gs: Seq<(GroupKey, Seq<V>)>, stream: Seq<(GroupKey, Option<V>)>) -> bool {
    forall|j: int| 0 <= j < stream.len() ==> key_has_group(gs, (#[trigger] stream[j]).0)
}

/// `gs` holds the items of `stream` grouped by key: one group per key that
/// occurs, groups in strictly increasing key order, each group with the
/// items of its key in stream order.
#[verifier::opaque]
pub open spec fn grouped<V>(gs: Seq<(GroupKey, Seq<V>)>, stream: Seq<(GroupKey, Option<V>)>) -> bool {
    &&& groups_sorted(gs)
    &&& groups_hold(gs, stream)
    &&& groups_occur(gs, stream)
    &&& stream_covered(gs, stream)
}

/// The view of an optional item.
pub open spec fn opt_view<T: View>(item: Option<T>) -> Option<T::V> {
    match item {
        Some(x) => Some(x@),
        None => None,
    }
}

/// The items that an optional item adds.
pub open spec fn opt_items<V>(iv: Option<V>) -> Seq<V> {
    match iv {
        Some(v) => seq![v],
        None => Seq::<V>::empty(),
    }
}

/// Key order is irreflexive, total and asymmetric.
pub proof fn lemma_key_less_total(a: GroupKey, b: GroupKey)
    ensures
        !key_less(a, a),
        a != b ==> (key_less(a, b) || key_less(b, a)),
        !(key_less(a, b) && key_less(b, a)),
{
    lemma_seq_less_total(a.0, b.0);
    lemma_seq_less_total(a.1, b.1);
    lemma_seq_less_total(a.2, b.2);
}

/// Key order is transitive.
pub proof fn lemma_key_less_transitive(
    a: GroupKey,
    b: GroupKey,
    c: GroupKey,
)
    requires
        key_less(a, b),
        key_less(b, c),
    ensures
        key_less(a, c),
{
    lemma_seq_less_total(a.0, b.0);
    lemma_seq_less_total(b.0, c.0);
    lemma_seq_less_total(a.1, b.1);
    lemma_seq_less_total(b.1, c.1);
    if seq_less(a.0, b.0) && seq_less(b.0, c.0) {
        lemma_seq_less_transitive(a.0, b.0, c.0);
    }
    if a.0 == b.0 && b.0 == c.0 {
        if seq_less(a.1, b.1) && seq_less(b.1, c.1) {
            lemma_seq_less_transitive(a.1, b.1, c.1);
        }
        if a.1 == b.1 && b.1 == c.1 {
            lemma_seq_less_transitive(a.2, b.2, c.2);
        }
    }
}

/// Compares two keys.
fn order_key(a: &(String, String, String), b: &(String, String, String)) -> (r: Order)
    ensures
        r == Order::Less <==> key_less((a.0@, a.1@, a.2@), (b.0@, b.1@, b.2@)),
        r == Order::Equal <==> (a.0@, a.1@, a.2@) == (b.0@, b.1@, b.2@),
        r == Order::Greater <==> key_less((b.0@, b.1@, b.2@), (a.0@, a.1@, a.2@)),
{
    proof {
        lemma_key_less_total((a.0@, a.1@, a.2@), (b.0@, b.1@, b.2@));
    }
    match order_str(a.0.as_str(), b.0.as_str()) {
        Order::Equal => match order_str(a.1.as_str(), b.1.as_str()) {
            Order::Equal => order_str(a.2.as_str(), b.2.as_str()),
            other => other,
        },
        other => other,
    }
}

/// The grouping of an empty stream has no groups.
pub proof fn lemma_grouped_empty<V>()
    ensures
        grouped(Seq::<(GroupKey, Seq<V>)>::empty(), Seq::<(GroupKey, Option<V>)>::empty()),
{
    reveal(grouped);
}

/// What one more stream entry does to the items of each key.
proof fn lemma_items_push<V>(stream: Seq<(GroupKey, Option<V>)>, k: GroupKey, iv: Option<V>)
    ensures
        forall|k2: GroupKey| #[trigger] items_with_key(stream.push((k, iv)), k2) == if k2 == k {
            items_with_key(stream, k2) + opt_items(iv)
        } else {
            items_with_key(stream, k2)
        },
{
    let s2 = stream.push((k, iv));
    assert forall|k2: GroupKey| #[trigger] items_with_key(s2, k2) == if k2 == k {
        items_with_key(stream, k2) + opt_items(iv)
    } else {
        items_with_key(stream, k2)
    } by {
        assert(s2.drop_last() =~= stream);
        if iv is None {
            assert(items_with_key(stream, k2) + opt_items(iv) =~= items_with_key(stream, k2));
        } else {
            assert(items_with_key(stream, k2) + opt_items(iv) =~= items_with_key(stream, k2).push(iv->0));
        }
    }
}

/// Adding to the existing group of a key keeps the grouping.
proof fn lemma_grouped_extend<V>(
    old_gs: Seq<(GroupKey, Seq<V>)>,
    stream: Seq<(GroupKey, Option<V>)>,
    iv: Option<V>,
    i: int,
)
    requires
        grouped(old_gs, stream),
        0 <= i < old_gs.len(),
    ensures
        grouped(old_gs.update(i, (old_gs[i].0, old_gs[i].1 + opt_items(iv))), stream.push((old_gs[i].0, iv))),
{
    reveal(grouped);
    let k = old_gs[i].0;
    let gs = old_gs.update(i, (k, old_gs[i].1 + opt_items(iv)));
    let s2 = stream.push((k, iv));
    lemma_items_push(stream, k, iv);
    assert forall|a: int, b: int| 0 <= a < b < gs.len() implies key_less(#[trigger] gs[a].0, #[trigger] gs[b].0) by {
        assert(gs[a].0 == old_gs[a].0);
        assert(gs[b].0 == old_gs[b].0);
    }
    assert forall|a: int| 0 <= a < gs.len() implies (#[trigger] gs[a]).1 == items_with_key(s2, gs[a].0) by {
        if a != i {
            if old_gs[a].0 == k {
                lemma_key_less_total(old_gs[a].0, k);
                if a < i {
                    assert(key_less(old_gs[a].0, old_gs[i].0));
                } else {
                    assert(key_less(old_gs[i].0, old_gs[a].0));
                }
            }
        }
    }
    assert forall|a: int| 0 <= a < gs.len() implies key_occurs(s2, (#[trigger] gs[a]).0) by {
        assert(key_occurs(stream, old_gs[a].0));
        let j = choose|j: int| 0 <= j < stream.len() && (#[trigger] stream[j]).0 == old_gs[a].0;
        assert(s2[j] == stream[j]);
    }
    assert forall|j: int| 0 <= j < s2.len() implies key_has_group(gs, (#[trigger] s2[j]).0) by {
        if j < stream.len() {
            assert(s2[j] == stream[j]);
            assert(key_has_group(old_gs, stream[j].0));
            let a = choose|a: int| 0 <= a < old_gs.len() && (#[trigger] old_gs[a]).0 == stream[j].0;
            assert(gs[a].0 == old_gs[a].0);
        } else {
            assert(gs[i].0 == s2[j].0);
        }
    }
}

/// A new group at its place in key order keeps the groups sorted.
proof fn lemma_insert_sorted<V>(old_gs: Seq<(GroupKey, Seq<V>)>, g: (GroupKey, Seq<V>), i: int)
    requires
        groups_sorted(old_gs),
        0 <= i <= old_gs.len(),
        forall|j: int| 0 <= j < i ==> key_less(#[trigger] old_gs[j].0, g.0),
        i < old_gs.len() ==> key_less(g.0, old_gs[i].0),
    ensures
        groups_sorted(old_gs.insert(i, g)),
{
    let k = g.0;
    let gs = old_gs.insert(i, g);
    assert forall|a: int, b: int| 0 <= a < b < gs.len() implies key_less(#[trigger] gs[a].0, #[trigger] gs[b].0) by {
        if b < i {
            assert(gs[a] == old_gs[a]);
            assert(gs[b] == old_gs[b]);
        } else if b == i {
            assert(gs[a] == old_gs[a]);
        } else if a == i {
            assert(gs[b] == old_gs[b - 1]);
            if b - 1 > i {
                lemma_key_less_transitive(k, old_gs[i].0, old_gs[b - 1].0);
            }
        } else if a < i {
            assert(gs[a] == old_gs[a]);
            assert(gs[b] == old_gs[b - 1]);
        } else {
            assert(gs[a] == old_gs[a - 1]);
            assert(gs[b] == old_gs[b - 1]);
        }
    }
}

/// A new group at its place in key order keeps each group's items.
proof fn lemma_insert_hold<V>(
    old_gs: Seq<(GroupKey, Seq<V>)>,
    stream: Seq<(GroupKey, Option<V>)>,
    k: GroupKey,
    iv: Option<V>,
    i: int,
)
    requires
        groups_sorted(old_gs),
        groups_hold(old_gs, stream),
        0 <= i <= old_gs.len(),
        forall|j: int| 0 <= j < i ==> key_less(#[trigger] old_gs[j].0, k),
        i < old_gs.len() ==> key_less(k, old_gs[i].0),
        items_with_key(stream, k).len() == 0,
    ensures
        groups_hold(old_gs.insert(i, (k, opt_items(iv))), stream.push((k, iv))),
{
    let s2 = stream.push((k, iv));
    let gs = old_gs.insert(i, (k, opt_items(iv)));
    lemma_items_push(stream, k, iv);
    assert forall|a: int| 0 <= a < gs.len() implies (#[trigger] gs[a]).1 == items_with_key(s2, gs[a].0) by {
        if a < i {
            assert(gs[a] == old_gs[a]);
            lemma_key_less_total(old_gs[a].0, k);
        } else if a > i {
            assert(gs[a] == old_gs[a - 1]);
            lemma_key_less_total(old_gs[a - 1].0, k);
            if a - 1 > i {
                lemma_key_less_transitive(k, old_gs[i].0, old_gs[a - 1].0);
            }
        } else {
            assert(items_with_key(stream, k) + opt_items(iv) =~= opt_items(iv));
        }
    }
}

/// A new group at its place in key order keeps keys and groups matched.
proof fn lemma_insert_keys<V>(
    old_gs: Seq<(GroupKey, Seq<V>)>,
    stream: Seq<(GroupKey, Option<V>)>,
    g: (GroupKey, Seq<V>),
    iv: Option<V>,
    i: int,
)
    requires
        groups_occur(old_gs, stream),
        stream_covered(old_gs, stream),
        0 <= i <= old_gs.len(),
    ensures
        groups_occur(old_gs.insert(i, g), stream.push((g.0, iv))),
        stream_covered(old_gs.insert(i, g), stream.push((g.0, iv))),
{
    let k = g.0;
    let s2 = stream.push((k, iv));
    let gs = old_gs.insert(i, g);
    assert forall|a: int| 0 <= a < gs.len() implies key_occurs(s2, (#[trigger] gs[a]).0) by {
        if a == i {
            assert(s2[stream.len() as int].0 == gs[a].0);
        } else {
            let oa = if a < i { a } else { a - 1 };
            assert(gs[a] == old_gs[oa]);
            assert(key_occurs(stream, old_gs[oa].0));
            let j = choose|j: int| 0 <= j < stream.len() && (#[trigger] stream[j]).0 == old_gs[oa].0;
            assert(s2[j] == stream[j]);
        }
    }
    assert forall|j: int| 0 <= j < s2.len() implies key_has_group(gs, (#[trigger] s2[j]).0) by {
        if j < stream.len() {
            assert(s2[j] == stream[j]);
            assert(key_has_group(old_gs, stream[j].0));
            let a = choose|a: int| 0 <= a < old_gs.len() && (#[trigger] old_gs[a]).0 == stream[j].0;
            let na = if a < i { a } else { a + 1 };
            assert(gs[na] == old_gs[a]);
        } else {
            assert(gs[i].0 == s2[j].0);
        }
    }
}

/// A new group at its place in key order keeps the grouping.
proof fn lemma_grouped_insert<V>(
    old_gs: Seq<(GroupKey, Seq<V>)>,
    stream: Seq<(GroupKey, Option<V>)>,
    k: GroupKey,
    iv: Option<V>,
    i: int,
)
    requires
        grouped(old_gs, stream),
        0 <= i <= old_gs.len(),
        forall|j: int| 0 <= j < i ==> key_less(#[trigger] old_gs[j].0, k),
        i < old_gs.len() ==> old_gs[i].0 != k && !key_less(old_gs[i].0, k),
    ensures
        grouped(old_gs.insert(i, (k, opt_items(iv))), stream.push((k, iv))),
{
    reveal(grouped);
    if i < old_gs.len() {
        lemma_key_less_total(old_gs[i].0, k);
    }
    lemma_items_absent(stream, k, old_gs, i);
    lemma_insert_sorted(old_gs, (k, opt_items(iv)), i);
    lemma_insert_hold(old_gs, stream, k, iv, i);
    lemma_insert_keys(old_gs, stream, (k, opt_items(iv)), iv, i);
}

/// A key without a group has no items in the stream.
proof fn lemma_items_absent<V>(stream: Seq<(GroupKey, Option<V>)>, k: GroupKey, gs: Seq<(GroupKey, Seq<V>)>, i: int)
    requires
        grouped(gs, stream),
        0 <= i <= gs.len(),
        forall|j: int| 0 <= j < i ==> key_less(#[trigger] gs[j].0, k),
        i < gs.len() ==> gs[i].0 != k && !key_less(gs[i].0, k),
    ensures
        items_with_key(stream, k).len() == 0,
{
    reveal(grouped);
    assert forall|j: int| 0 <= j < stream.len() implies (#[trigger] stream[j]).0 != k by {
        assert(key_has_group(gs, stream[j].0));
        let a = choose|a: int| 0 <= a < gs.len() && (#[trigger] gs[a]).0 == stream[j].0;
        if gs[a].0 == k {
            if a < i {
                lemma_key_less_total(k, k);
            } else if a > i {
                lemma_key_less_total(gs[i].0, k);
                assert(key_less(gs[i].0, gs[a].0));
            }
        }
    }
    lemma_items_none(stream, k);
}

/// A key that never occurs has no items.
proof fn lemma_items_none<V>(stream: Seq<(GroupKey, Option<V>)>, k: GroupKey)
    requires
        forall|j: int| 0 <= j < stream.len() ==> (#[trigger] stream[j]).0 != k,
    ensures
        items_with_key(stream, k).len() == 0,
    decreases stream.len(),
{
    if stream.len() > 0 {
        assert forall|j: int| 0 <= j < stream.drop_last().len() implies (#[trigger] stream.drop_last()[j]).0 != k by {
            assert(stream.drop_last()[j] == stream[j]);
        }
        lemma_items_none(stream.drop_last(), k);
    }
}

/// Adds `item` under `key`: to the group of that key, or to a new group at
/// its place in key order. With no item, the group of `key` is made where
/// it is missing and left as it is where it exists.
pub fn insert_grouped<T: View>(
    groups: &mut Vec<Group<T>>,
    key: (String, String, String),
    item: Option<T>,
    Ghost(stream): Ghost<Seq<(GroupKey, Option<T::V>)>>,
)
    requires
        grouped(groups_view(old(groups)@), stream),
    ensures
        grouped(groups_view(final(groups)@), stream.push(((key.0@, key.1@, key.2@), opt_view(item)))),
{
    let ghost k = (key.0@, key.1@, key.2@);
    let ghost iv = opt_view(item);
    let ghost old_groups = groups@;
    let ghost old_gs = groups_view(old_groups);
    proof {
        reveal(grouped);
    }
    let mut lo: usize = 0;
    let mut hi: usize = groups.len();
    while lo < hi
        invariant
            groups@ == old_groups,
            old_gs == groups_view(old_groups),
            old_gs.len() == old_groups.len(),
            groups_sorted(old_gs),
            k == (key.0@, key.1@, key.2@),
            lo <= hi <= old_groups.len(),
            forall|j: int| 0 <= j < lo ==> key_less(#[trigger] old_gs[j].0, k),
            forall|j: int| hi <= j < old_gs.len() ==> !key_less(#[trigger] old_gs[j].0, k),
        decreases hi - lo,
    {
        let mid = lo + (hi - lo) / 2;
        let o = order_key(&groups[mid].key, &key);
        if o == Order::Less {
            proof {
                assert(key_less(old_gs[mid as int].0, k));
                assert forall|j: int| 0 <= j < mid + 1 implies key_less(#[trigger] old_gs[j].0, k) by {
                    if j < mid {
                        assert(key_less(old_gs[j].0, old_gs[mid as int].0));
                        lemma_key_less_transitive(old_gs[j].0, old_gs[mid as int].0, k);
                    }
                }
            }
            lo = mid + 1;
        } else {
            proof {
                assert(!key_less(old_gs[mid as int].0, k));
                assert forall|j: int| mid <= j < old_gs.len() implies !key_less(#[trigger] old_gs[j].0, k) by {
                    if j > mid {
                        assert(key_less(old_gs[mid as int].0, old_gs[j].0));
                        if key_less(old_gs[j].0, k) {
                            lemma_key_less_transitive(old_gs[mid as int].0, old_gs[j].0, k);
                        }
                    }
                }
            }
            hi = mid;
        }
    }
    let i = lo;
    if i < groups.len() && order_key(&groups[i].key, &key) == Order::Equal {
        let mut g = groups.remove(i);
        let ghost old_g = g;
        match item {
            Some(x) => g.items.push(x),
            None => {},
        }
        groups.insert(i, g);
        proof {
            assert(old_g == old_groups[i as int]);
            assert(group_view(g).1 =~= group_view(old_g).1 + opt_items(iv));
            assert(groups_view(groups@) =~= old_gs.update(i as int, (old_gs[i as int].0, old_gs[i as int].1 + opt_items(iv))));
            lemma_grouped_extend(old_gs, stream, iv, i as int);
        }
    } else {
        let mut items: Vec<T> = Vec::new();
        match item {
            Some(x) => items.push(x),
            None => {},
        }
        let g = Group { key, items };
        groups.insert(i, g);
        proof {
            assert(group_view(g) =~= (k, opt_items(iv)));
            assert(groups_view(groups@) =~= old_gs.insert(i as int, (k, opt_items(iv))));
            if i < old_groups.len() {
                lemma_key_less_total(old_gs[i as int].0, k);
            }
            lemma_grouped_insert(old_gs, stream, k, iv, i as int);
        }
    }
}

/// How many events of a stream carry an occurrence.
pub open spec fn count_items<V>(events: Seq<(GroupKey, Option<V>)>) -> nat
    decreases events.len(),
{
    if events.len() == 0 {
        0
    } else {
        count_items(events.drop_last()) + if events.last().1 is Some {
            1nat
        } else {
            0nat
        }
    }
}


/// How many items the groups hold together.
pub open spec fn group_item_total<V>(gs: Seq<(GroupKey, Seq<V>)>) -> nat
    decreases gs.len(),
{
    if gs.len() == 0 {
        0
    } else {
        group_item_total(gs.drop_last()) + gs.last().1.len()
    }
}

/// How many items of `stream` the keys `keys` have together.
pub open spec fn key_item_total<V>(keys: Seq<GroupKey>, stream: Seq<(GroupKey, Option<V>)>) -> nat
    decreases keys.len(),
{
    if keys.len() == 0 {
        0
    } else {
        key_item_total(keys.drop_last(), stream) + items_with_key(stream, keys.last()).len()
    }
}

/// How often `k` occurs in `keys`.
pub open spec fn key_count(keys: Seq<GroupKey>, k: GroupKey) -> nat
    decreases keys.len(),
{
    if keys.len() == 0 {
        0
    } else {
        key_count(keys.drop_last(), k) + if keys.last() == k {
            1nat
        } else {
            0nat
        }
    }
}

/// A key that occurs once in a list counts once.
proof fn lemma_key_count_once(keys: Seq<GroupKey>, k: GroupKey)
    requires
        keys.no_duplicates(),
        keys.contains(k),
    ensures
        key_count(keys, k) == 1,
    decreases keys.len(),
{
    let p = keys.drop_last();
    if keys.last() == k {
        assert forall|j: int| 0 <= j < p.len() implies p[j] != k by {
            assert(keys[j] == p[j]);
        }
        lemma_key_count_absent(p, k);
    } else {
        let j = choose|j: int| 0 <= j < keys.len() && keys[j] == k;
        assert(p[j] == k);
        assert(p.no_duplicates()) by {
            assert forall|a: int, b: int| 0 <= a < p.len() && 0 <= b < p.len() && a != b implies p[a] != p[b] by {
                assert(p[a] == keys[a] && p[b] == keys[b]);
            }
        }
        lemma_key_count_once(p, k);
    }
}

/// A key absent from a list counts nothing.
proof fn lemma_key_count_absent(keys: Seq<GroupKey>, k: GroupKey)
    requires
        forall|j: int| 0 <= j < keys.len() ==> keys[j] != k,
    ensures
        key_count(keys, k) == 0,
    decreases keys.len(),
{
    if keys.len() > 0 {
        let p = keys.drop_last();
        assert forall|j: int| 0 <= j < p.len() implies p[j] != k by {
            assert(keys[j] == p[j]);
        }
        lemma_key_count_absent(p, k);
    }
}

/// One more stream entry adds its item once for each time its key is
/// listed.
proof fn lemma_key_item_total_push<V>(keys: Seq<GroupKey>, stream: Seq<(GroupKey, Option<V>)>, e: (GroupKey, Option<V>))
    ensures
        key_item_total(keys, stream.push(e)) == key_item_total(keys, stream) + if e.1 is Some {
            key_count(keys, e.0)
        } else {
            0
        },
    decreases keys.len(),
{
    lemma_items_push(stream, e.0, e.1);
    if keys.len() > 0 {
        lemma_key_item_total_push(keys.drop_last(), stream, e);
        let k = keys.last();
        assert(items_with_key(stream.push(e), k) == if k == e.0 {
            items_with_key(stream, k) + opt_items(e.1)
        } else {
            items_with_key(stream, k)
        });
    }
}

/// Distinct keys that cover every key of the stream hold all of its items.
proof fn lemma_key_item_total<V>(keys: Seq<GroupKey>, stream: Seq<(GroupKey, Option<V>)>)
    requires
        keys.no_duplicates(),
        forall|j: int| 0 <= j < stream.len() ==> keys.contains(#[trigger] stream[j].0),
    ensures
        key_item_total(keys, stream) == count_items(stream),
    decreases stream.len(),
{
    if stream.len() == 0 {
        lemma_key_item_total_empty(keys, stream);
    } else {
        let p = stream.drop_last();
        assert forall|j: int| 0 <= j < p.len() implies keys.contains(#[trigger] p[j].0) by {
            assert(p[j] == stream[j]);
        }
        lemma_key_item_total(keys, p);
        assert(p.push(stream.last()) =~= stream);
        lemma_key_item_total_push(keys, p, stream.last());
        if stream.last().1 is Some {
            assert(keys.contains(stream[stream.len() - 1].0));
            lemma_key_count_once(keys, stream.last().0);
        }
    }
}

/// The keys hold no items of an empty stream.
proof fn lemma_key_item_total_empty<V>(keys: Seq<GroupKey>, stream: Seq<(GroupKey, Option<V>)>)
    requires
        stream.len() == 0,
    ensures
        key_item_total(keys, stream) == 0,
    decreases keys.len(),
{
    if keys.len() > 0 {
        lemma_key_item_total_empty(keys.drop_last(), stream);
    }
}

/// The groups' item totals are the totals of their keys.
proof fn lemma_group_totals<V>(gs: Seq<(GroupKey, Seq<V>)>, stream: Seq<(GroupKey, Option<V>)>)
    requires
        groups_hold(gs, stream),
    ensures
        group_item_total(gs) == key_item_total(gs.map_values(|g: (GroupKey, Seq<V>)| g.0), stream),
    decreases gs.len(),
{
    if gs.len() > 0 {
        let p = gs.drop_last();
        assert forall|i: int| 0 <= i < p.len() implies (#[trigger] p[i]).1 == items_with_key(stream, p[i].0) by {
            assert(p[i] == gs[i]);
        }
        lemma_group_totals(p, stream);
        assert(gs.map_values(|g: (GroupKey, Seq<V>)| g.0).drop_last() =~= p.map_values(|g: (GroupKey, Seq<V>)| g.0));
        assert(gs[gs.len() - 1].1 == items_with_key(stream, gs[gs.len() - 1].0));
    }
}

/// Grouping keeps every item of the stream: the groups hold together as
/// many items as the stream carries.
pub proof fn lemma_grouped_total<V>(gs: Seq<(GroupKey, Seq<V>)>, stream: Seq<(GroupKey, Option<V>)>)
    requires
        grouped(gs, stream),
    ensures
        group_item_total(gs) == count_items(stream),
{
    reveal(grouped);
    let keys = gs.map_values(|g: (GroupKey, Seq<V>)| g.0);
    assert(keys.no_duplicates()) by {
        assert forall|a: int, b: int| 0 <= a < keys.len() && 0 <= b < keys.len() && a != b implies keys[a]
            != keys[b] by {
            if a < b {
                assert(key_less(gs[a].0, gs[b].0));
                lemma_key_less_total(gs[a].0, gs[b].0);
            } else {
                assert(key_less(gs[b].0, gs[a].0));
                lemma_key_less_total(gs[a].0, gs[b].0);
            }
        }
    }
    assert forall|j: int| 0 <= j < stream.len() implies keys.contains(#[trigger] stream[j].0) by {
        assert(key_has_group(gs, stream[j].0));
        let i = choose|i: int| 0 <= i < gs.len() && (#[trigger] gs[i]).0 == stream[j].0;
        assert(keys[i] == stream[j].0);
    }
    lemma_group_totals(gs, stream);
    lemma_key_item_total(keys, stream);
}


/// In a stream where every event carries an item, there are as many items
/// as events.
pub proof fn lemma_count_items_all<V>(stream: Seq<(GroupKey, Option<V>)>)
    requires
        forall|j: int| 0 <= j < stream.len() ==> (#[trigger] stream[j]).1 is Some,
    ensures
        count_items(stream) == stream.len(),
    decreases stream.len(),
{
    if stream.len() > 0 {
        let p = stream.drop_last();
        assert forall|j: int| 0 <= j < p.len() implies (#[trigger] p[j]).1 is Some by {
            assert(p[j] == stream[j]);
        }
        lemma_count_items_all(p);
        assert(stream[stream.len() - 1].1 is Some);
    }
}

/// In a stream where every event carries an item, a key that occurs has
/// an item.
pub proof fn lemma_items_nonempty<V>(stream: Seq<(GroupKey, Option<V>)>, k: GroupKey)
    requires
        forall|j: int| 0 <= j < stream.len() ==> (#[trigger] stream[j]).1 is Some,
        key_occurs(stream, k),
    ensures
        items_with_key(stream, k).len() > 0,
    decreases stream.len(),
{
    let p = stream.drop_last();
    assert(stream[stream.len() - 1].1 is Some);
    if stream.last().0 != k {
        let j = choose|j: int| 0 <= j < stream.len() && (#[trigger] stream[j]).0 == k;
        assert(p[j] == stream[j]);
        assert forall|i: int| 0 <= i < p.len() implies (#[trigger] p[i]).1 is Some by {
            assert(p[i] == stream[i]);
        }
        lemma_items_nonempty(p, k);
    }
}

/// Every group of a grouping of a stream whose events all carry an item
/// holds at least one item.
pub proof fn lemma_grouped_nonempty<V>(gs: Seq<(GroupKey, Seq<V>)>, stream: Seq<(GroupKey, Option<V>)>)
    requires
        grouped(gs, stream),
        forall|j: int| 0 <= j < stream.len() ==> (#[trigger] stream[j]).1 is Some,
    ensures
        forall|i: int| 0 <= i < gs.len() ==> (#[trigger] gs[i]).1.len() > 0,
{
    reveal(grouped);
    assert forall|i: int| 0 <= i < gs.len() implies (#[trigger] gs[i]).1.len() > 0 by {
        assert(key_occurs(stream, gs[i].0));
        lemma_items_nonempty(stream, gs[i].0);
    }
}

} // verus!
