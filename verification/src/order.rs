//! The members of an object in the order of their keys: a form of an object
//! that does not depend on the order in which its members were written.
use vstd::prelude::*;
use crate::json::{distinct_keys, entries_view, same_members, Json, JsonView};
use crate::text::chars_of;

verus! {

/// Whether the key `a` comes before the key `b`: character by character,
/// and a proper prefix before what it is a prefix of.
pub open spec fn key_lt(a: Seq<char>, b: Seq<char>) -> bool
    decreases a.len(),
{
    if b.len() == 0 {
        false
    } else if a.len() == 0 {
        true
    } else if a[0] != b[0] {
        a[0] < b[0]
    } else {
        key_lt(a.drop_first(), b.drop_first())
    }
}

/// No key comes before itself.
pub proof fn lemma_key_lt_irreflexive(a: Seq<char>)
    ensures
        !key_lt(a, a),
    decreases a.len(),
{
    if a.len() > 0 {
        lemma_key_lt_irreflexive(a.drop_first());
    }
}

/// Of two different keys, one comes before the other.
pub proof fn lemma_key_lt_total(a: Seq<char>, b: Seq<char>)
    ensures
        a == b || key_lt(a, b) || key_lt(b, a),
    decreases a.len(),
{
    if a.len() > 0 && b.len() > 0 && a[0] == b[0] {
        lemma_key_lt_total(a.drop_first(), b.drop_first());
        if a.drop_first() == b.drop_first() {
            assert(a =~= seq![a[0]] + a.drop_first());
            assert(b =~= seq![b[0]] + b.drop_first());
        }
    } else if a.len() == 0 && b.len() == 0 {
        assert(a =~= b);
    }
}

/// Coming before is transitive.
pub proof fn lemma_key_lt_transitive(a: Seq<char>, b: Seq<char>, c: Seq<char>)
    requires
        key_lt(a, b),
        key_lt(b, c),
    ensures
        key_lt(a, c),
    decreases a.len(),
{
    if a.len() > 0 && a[0] == b[0] && b[0] == c[0] {
        lemma_key_lt_transitive(a.drop_first(), b.drop_first(), c.drop_first());
    }
}

/// Of two keys, not both come before the other.
pub proof fn lemma_key_lt_asymmetric(a: Seq<char>, b: Seq<char>)
    requires
        key_lt(a, b),
    ensures
        !key_lt(b, a),
{
    if key_lt(b, a) {
        lemma_key_lt_transitive(a, b, a);
        lemma_key_lt_irreflexive(a);
    }
}

/// Whether the key `a` comes before the key `b`.
pub fn key_less(a: &str, b: &str) -> (r: bool)
    ensures
        r == key_lt(a@, b@),
{
    let x = chars_of(a);
    let y = chars_of(b);
    let mut i: usize = 0;
    proof {
        assert(a@.skip(0) =~= a@);
        assert(b@.skip(0) =~= b@);
    }
    while i < x.len() && i < y.len()
        invariant
            x@ == a@,
            y@ == b@,
            i <= x.len(),
            i <= y.len(),
            key_lt(a@, b@) == key_lt(a@.skip(i as int), b@.skip(i as int)),
        decreases x.len() - i,
    {
        let ghost rest_a = a@.skip(i as int);
        let ghost rest_b = b@.skip(i as int);
        proof {
            assert(rest_a[0] == x@[i as int]);
            assert(rest_b[0] == y@[i as int]);
            assert(rest_a.drop_first() =~= a@.skip(i + 1));
            assert(rest_b.drop_first() =~= b@.skip(i + 1));
        }
        if x[i] != y[i] {
            return x[i] < y[i];
        }
        i += 1;
    }
    i < y.len()
}

/// `sorted` with the member `e` put in by its key: behind every member
/// whose key does not come after its own.
pub open spec fn inserted(sorted: Seq<(Seq<char>, JsonView)>, e: (Seq<char>, JsonView)) -> Seq<
    (Seq<char>, JsonView),
>
    decreases sorted.len(),
{
    if sorted.len() == 0 {
        seq![e]
    } else if key_lt(e.0, sorted.last().0) {
        inserted(sorted.drop_last(), e).push(sorted.last())
    } else {
        sorted.push(e)
    }
}

/// The members of `entries` in the order of their keys; members with one
/// key stay in their written order.
pub open spec fn by_key(entries: Seq<(Seq<char>, JsonView)>) -> Seq<(Seq<char>, JsonView)>
    decreases entries.len(),
{
    if entries.len() == 0 {
        Seq::empty()
    } else {
        inserted(by_key(entries.drop_last()), entries.last())
    }
}

/// The keys of `s` ascend: each comes before every later one.
pub open spec fn ascending(s: Seq<(Seq<char>, JsonView)>) -> bool {
    forall|i: int, j: int|
        0 <= i < j < s.len() ==> key_lt((#[trigger] s[i]).0, (#[trigger] s[j]).0)
}

/// Putting a member in adds it and nothing else.
pub proof fn lemma_inserted_members(
    sorted: Seq<(Seq<char>, JsonView)>,
    e: (Seq<char>, JsonView),
)
    ensures
        inserted(sorted, e).len() == sorted.len() + 1,
        forall|x: (Seq<char>, JsonView)|
            #[trigger] inserted(sorted, e).contains(x) <==> sorted.contains(x) || x == e,
    decreases sorted.len(),
{
    let r = inserted(sorted, e);
    if sorted.len() == 0 {
        assert forall|x: (Seq<char>, JsonView)| r.contains(x) <==> sorted.contains(x) || x
            == e by {
            if x == e {
                assert(r[0] == x);
            }
        }
    } else if key_lt(e.0, sorted.last().0) {
        let shorter = sorted.drop_last();
        let inner = inserted(shorter, e);
        lemma_inserted_members(shorter, e);
        assert forall|x: (Seq<char>, JsonView)| r.contains(x) <==> sorted.contains(x) || x
            == e by {
            if r.contains(x) {
                let k = choose|k: int| 0 <= k < r.len() && r[k] == x;
                if k < inner.len() {
                    assert(inner[k] == x);
                    assert(inner.contains(x));
                    if shorter.contains(x) {
                        let m = choose|m: int| 0 <= m < shorter.len() && shorter[m] == x;
                        assert(sorted[m] == x);
                    }
                } else {
                    assert(sorted[sorted.len() - 1] == x);
                }
            }
            if sorted.contains(x) {
                let m = choose|m: int| 0 <= m < sorted.len() && sorted[m] == x;
                if m < shorter.len() {
                    assert(shorter[m] == x);
                    assert(shorter.contains(x));
                    assert(inner.contains(x));
                    let k = choose|k: int| 0 <= k < inner.len() && inner[k] == x;
                    assert(r[k] == x);
                } else {
                    assert(r[r.len() - 1] == x);
                }
            }
            if x == e {
                assert(inner.contains(x));
                let k = choose|k: int| 0 <= k < inner.len() && inner[k] == x;
                assert(r[k] == x);
            }
        }
    } else {
        assert forall|x: (Seq<char>, JsonView)| r.contains(x) <==> sorted.contains(x) || x
            == e by {
            if r.contains(x) {
                let k = choose|k: int| 0 <= k < r.len() && r[k] == x;
                if k < sorted.len() {
                    assert(sorted[k] == x);
                }
            }
            if sorted.contains(x) {
                let m = choose|m: int| 0 <= m < sorted.len() && sorted[m] == x;
                assert(r[m] == x);
            }
            if x == e {
                assert(r[r.len() - 1] == x);
            }
        }
    }
}

/// Putting a member with a new key into ascending members leaves them
/// ascending.
pub proof fn lemma_inserted_ascending(
    sorted: Seq<(Seq<char>, JsonView)>,
    e: (Seq<char>, JsonView),
)
    requires
        ascending(sorted),
        forall|i: int| 0 <= i < sorted.len() ==> (#[trigger] sorted[i]).0 != e.0,
    ensures
        ascending(inserted(sorted, e)),
    decreases sorted.len(),
{
    let r = inserted(sorted, e);
    lemma_inserted_members(sorted, e);
    if sorted.len() == 0 {
    } else if key_lt(e.0, sorted.last().0) {
        let shorter = sorted.drop_last();
        let inner = inserted(shorter, e);
        let last = sorted.last();
        assert forall|i: int, j: int| 0 <= i < j < shorter.len() implies key_lt(
            (#[trigger] shorter[i]).0,
            (#[trigger] shorter[j]).0,
        ) by {
            assert(key_lt(sorted[i].0, sorted[j].0));
        }
        assert forall|i: int| 0 <= i < shorter.len() implies (#[trigger] shorter[i]).0 != e.0 by {
            assert(sorted[i].0 != e.0);
        }
        lemma_inserted_ascending(shorter, e);
        lemma_inserted_members(shorter, e);
        assert forall|i: int, j: int| 0 <= i < j < r.len() implies key_lt(
            (#[trigger] r[i]).0,
            (#[trigger] r[j]).0,
        ) by {
            if j < inner.len() {
                assert(key_lt(inner[i].0, inner[j].0));
            } else {
                let x = inner[i];
                assert(inner.contains(x));
                if x != e {
                    assert(shorter.contains(x));
                    let m = choose|m: int| 0 <= m < shorter.len() && shorter[m] == x;
                    assert(key_lt(sorted[m].0, sorted[sorted.len() - 1].0));
                }
            }
        }
    } else {
        let last = sorted.last();
        assert(sorted[sorted.len() - 1].0 != e.0);
        lemma_key_lt_total(e.0, last.0);
        assert forall|i: int, j: int| 0 <= i < j < r.len() implies key_lt(
            (#[trigger] r[i]).0,
            (#[trigger] r[j]).0,
        ) by {
            if j < sorted.len() {
                assert(key_lt(sorted[i].0, sorted[j].0));
            } else if i < sorted.len() - 1 {
                assert(key_lt(sorted[i].0, sorted[sorted.len() - 1].0));
                lemma_key_lt_transitive(sorted[i].0, last.0, e.0);
            }
        }
    }
}

/// Ordering the members by key keeps every member and adds none.
pub proof fn lemma_by_key_members(entries: Seq<(Seq<char>, JsonView)>)
    ensures
        by_key(entries).len() == entries.len(),
        same_members(by_key(entries), entries),
    decreases entries.len(),
{
    if entries.len() > 0 {
        let shorter = entries.drop_last();
        lemma_by_key_members(shorter);
        lemma_inserted_members(by_key(shorter), entries.last());
        assert forall|x: (Seq<char>, JsonView)| by_key(entries).contains(x) <==> entries.contains(
            x,
        ) by {
            if entries.contains(x) {
                let m = choose|m: int| 0 <= m < entries.len() && entries[m] == x;
                if m < shorter.len() {
                    assert(shorter[m] == x);
                    assert(shorter.contains(x));
                }
            }
            if shorter.contains(x) {
                let m = choose|m: int| 0 <= m < shorter.len() && shorter[m] == x;
                assert(entries[m] == x);
            }
            if x == entries.last() {
                assert(entries[entries.len() - 1] == x);
            }
        }
    }
}

/// Members with distinct keys, ordered by key, ascend.
pub proof fn lemma_by_key_ascending(entries: Seq<(Seq<char>, JsonView)>)
    requires
        distinct_keys(entries),
    ensures
        ascending(by_key(entries)),
    decreases entries.len(),
{
    if entries.len() > 0 {
        let shorter = entries.drop_last();
        let last = entries.last();
        assert forall|i: int, j: int| 0 <= i < j < shorter.len() implies (#[trigger] shorter[i]).0
            != (#[trigger] shorter[j]).0 by {
            assert(entries[i].0 != entries[j].0);
        }
        lemma_by_key_ascending(shorter);
        lemma_by_key_members(shorter);
        let sorted = by_key(shorter);
        assert forall|i: int| 0 <= i < sorted.len() implies (#[trigger] sorted[i]).0 != last.0 by {
            let x = sorted[i];
            assert(sorted.contains(x));
            assert(shorter.contains(x));
            let m = choose|m: int| 0 <= m < shorter.len() && shorter[m] == x;
            assert(entries[m].0 != entries[entries.len() - 1].0);
        }
        lemma_inserted_ascending(sorted, last);
    }
}

/// Ascending members with the same members are the same sequence.
pub proof fn lemma_ascending_unique(
    a: Seq<(Seq<char>, JsonView)>,
    b: Seq<(Seq<char>, JsonView)>,
)
    requires
        ascending(a),
        ascending(b),
        same_members(a, b),
        a.len() == b.len(),
    ensures
        a == b,
    decreases a.len(),
{
    if a.len() == 0 {
        assert(a =~= b);
    } else {
        let la = a.last();
        let lb = b.last();
        assert(a[a.len() - 1] == la);
        assert(b[b.len() - 1] == lb);
        assert(a.contains(la));
        assert(b.contains(lb));
        assert(b.contains(la));
        assert(a.contains(lb));
        let j = choose|j: int| 0 <= j < b.len() && b[j] == la;
        let i = choose|i: int| 0 <= i < a.len() && a[i] == lb;
        if j < b.len() - 1 && i < a.len() - 1 {
            assert(key_lt(b[j].0, b[b.len() - 1].0));
            assert(key_lt(a[i].0, a[a.len() - 1].0));
            lemma_key_lt_asymmetric(la.0, lb.0);
        }
        assert(la == lb);
        let sa = a.drop_last();
        let sb = b.drop_last();
        assert forall|x: (Seq<char>, JsonView)| sa.contains(x) <==> sb.contains(x) by {
            if sa.contains(x) {
                let m = choose|m: int| 0 <= m < sa.len() && sa[m] == x;
                assert(a[m] == x);
                assert(key_lt(a[m].0, a[a.len() - 1].0));
                lemma_key_lt_irreflexive(la.0);
                assert(a.contains(x));
                assert(b.contains(x));
                let k = choose|k: int| 0 <= k < b.len() && b[k] == x;
                assert(sb[k] == x);
            }
            if sb.contains(x) {
                let m = choose|m: int| 0 <= m < sb.len() && sb[m] == x;
                assert(b[m] == x);
                assert(key_lt(b[m].0, b[b.len() - 1].0));
                lemma_key_lt_irreflexive(lb.0);
                assert(b.contains(x));
                assert(a.contains(x));
                let k = choose|k: int| 0 <= k < a.len() && a[k] == x;
                assert(sa[k] == x);
            }
        }
        assert forall|p: int, q: int| 0 <= p < q < sa.len() implies key_lt(
            (#[trigger] sa[p]).0,
            (#[trigger] sa[q]).0,
        ) by {
            assert(key_lt(a[p].0, a[q].0));
        }
        assert forall|p: int, q: int| 0 <= p < q < sb.len() implies key_lt(
            (#[trigger] sb[p]).0,
            (#[trigger] sb[q]).0,
        ) by {
            assert(key_lt(b[p].0, b[q].0));
        }
        lemma_ascending_unique(sa, sb);
        assert(a =~= sa.push(la));
        assert(b =~= sb.push(lb));
    }
}

/// Members with distinct keys are as many as any other members with
/// distinct keys that are the same members.
pub proof fn lemma_same_members_same_count(
    a: Seq<(Seq<char>, JsonView)>,
    b: Seq<(Seq<char>, JsonView)>,
)
    requires
        distinct_keys(a),
        distinct_keys(b),
        same_members(a, b),
    ensures
        a.len() == b.len(),
{
    assert(a.no_duplicates()) by {
        assert forall|i: int, j: int| 0 <= i < a.len() && 0 <= j < a.len() && i != j implies a[i]
            != a[j] by {
            if i < j {
                assert(a[i].0 != a[j].0);
            } else {
                assert(a[j].0 != a[i].0);
            }
        }
    }
    assert(b.no_duplicates()) by {
        assert forall|i: int, j: int| 0 <= i < b.len() && 0 <= j < b.len() && i != j implies b[i]
            != b[j] by {
            if i < j {
                assert(b[i].0 != b[j].0);
            } else {
                assert(b[j].0 != b[i].0);
            }
        }
    }
    a.unique_seq_to_set();
    b.unique_seq_to_set();
    assert(a.to_set() =~= b.to_set()) by {
        assert forall|x: (Seq<char>, JsonView)| a.to_set().contains(x) <==> b.to_set().contains(
            x,
        ) by {
            assert(a.contains(x) <==> b.contains(x));
        }
    }
}

/// The order by key does not depend on the written order: two objects with
/// distinct keys and the same members have the same members by key.
pub proof fn lemma_by_key_ignores_order(
    a: Seq<(Seq<char>, JsonView)>,
    b: Seq<(Seq<char>, JsonView)>,
)
    requires
        distinct_keys(a),
        distinct_keys(b),
        same_members(a, b),
    ensures
        by_key(a) == by_key(b),
{
    lemma_by_key_members(a);
    lemma_by_key_members(b);
    lemma_by_key_ascending(a);
    lemma_by_key_ascending(b);
    lemma_same_members_same_count(a, b);
    lemma_ascending_unique(by_key(a), by_key(b));
}

/// The views of the members that `refs` refer to, in order.
pub open spec fn refs_view(refs: Seq<&(String, Json)>) -> Seq<(Seq<char>, JsonView)> {
    Seq::new(refs.len(), |i: int| (refs[i].0@, refs[i].1@))
}

/// The members of `entries` in the order of their keys.
pub fn members_by_key<'a>(entries: &'a Vec<(String, Json)>) -> (r: Vec<&'a (String, Json)>)
    ensures
        refs_view(r@) == by_key(entries_view(entries@)),
{
    let ghost all = entries_view(entries@);
    let mut sorted: Vec<&(String, Json)> = Vec::new();
    let mut k: usize = 0;
    proof {
        assert(all.take(0) =~= Seq::empty());
        assert(refs_view(sorted@) =~= Seq::empty());
    }
    while k < entries.len()
        invariant
            k <= entries.len(),
            all == entries_view(entries@),
            refs_view(sorted@) == by_key(all.take(k as int)),
        decreases entries.len() - k,
    {
        let e = &entries[k];
        let ghost member = (e.0@, e.1@);
        let ghost before = refs_view(sorted@);
        let mut p: usize = sorted.len();
        proof {
            assert(before.take(p as int) =~= before);
            assert(inserted(before, member) =~= inserted(before.take(p as int), member)
                + before.skip(p as int));
        }
        while p > 0 && key_less(e.0.as_str(), sorted[p - 1].0.as_str())
            invariant
                p <= sorted.len(),
                before == refs_view(sorted@),
                member == (e.0@, e.1@),
                inserted(before, member) == inserted(before.take(p as int), member) + before.skip(
                    p as int,
                ),
            decreases p,
        {
            proof {
                let head = before.take(p as int);
                assert(head.last() == before[p - 1]);
                assert(head.drop_last() =~= before.take(p - 1));
                assert(inserted(before.take(p - 1), member).push(before[p - 1]) + before.skip(
                    p as int,
                ) =~= inserted(before.take(p - 1), member) + before.skip(p - 1));
            }
            p -= 1;
        }
        proof {
            let head = before.take(p as int);
            if p > 0 {
                assert(head.last() == before[p - 1]);
            }
            assert(inserted(head, member) == head.push(member));
        }
        sorted.insert(p, e);
        proof {
            assert(refs_view(sorted@) =~= before.take(p as int).push(member) + before.skip(
                p as int,
            ));
            assert(all.take(k + 1).drop_last() =~= all.take(k as int));
            assert(all.take(k + 1).last() == member);
        }
        k += 1;
    }
    proof {
        assert(all.take(entries.len() as int) =~= all);
    }
    sorted
}

} // verus!
