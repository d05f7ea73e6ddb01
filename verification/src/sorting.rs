//! A stable sort by descending integer key, stated as a recursive insertion
//! sort at the specification level.  Elements with equal keys keep their
//! input order.
use vstd::prelude::*;

verus! {

/// Inserts `x` into `s` from the right: `x` ends up after every element
/// whose key is at least `key(x)` and before every later element.
pub open spec fn insert_desc<T>(s: Seq<T>, x: T, key: spec_fn(T) -> int) -> Seq<T>
    decreases s.len(),
{
    if s.len() == 0 {
        seq![x]
    } else if key(s.last()) >= key(x) {
        s.push(x)
    } else {
        insert_desc(s.drop_last(), x, key).push(s.last())
    }
}

/// Stable insertion sort by descending key.
pub open spec fn sort_desc<T>(s: Seq<T>, key: spec_fn(T) -> int) -> Seq<T>
    decreases s.len(),
{
    if s.len() == 0 {
        s
    } else {
        insert_desc(sort_desc(s.drop_last(), key), s.last(), key)
    }
}

/// Keys never increase along the sequence.
pub open spec fn sorted_desc<T>(s: Seq<T>, key: spec_fn(T) -> int) -> bool {
    forall|i: int, j: int|
        0 <= i <= j < s.len() ==> #[trigger] key(s[i]) >= #[trigger] key(s[j])
}

/// Where the insertion lands: if every element from position `j` on has a
/// key below `key(x)` and the element before `j` (if any) does not, then
/// inserting `x` splits `s` at `j`.
pub proof fn lemma_insert_desc_split<T>(s: Seq<T>, x: T, key: spec_fn(T) -> int, j: int)
    requires
        0 <= j <= s.len(),
        forall|m: int| j <= m < s.len() ==> key(#[trigger] s[m]) < key(x),
        j > 0 ==> key(s[j - 1]) >= key(x),
    ensures
        insert_desc(s, x, key) == s.subrange(0, j) + seq![x] + s.subrange(j, s.len() as int),
    decreases s.len(),
{
    if s.len() == 0 {
        assert(insert_desc(s, x, key) =~= s.subrange(0, j) + seq![x] + s.subrange(
            j,
            s.len() as int,
        ));
    } else if key(s.last()) >= key(x) {
        assert(j == s.len());
        assert(s.subrange(0, j) =~= s);
        assert(insert_desc(s, x, key) =~= s.subrange(0, j) + seq![x] + s.subrange(
            j,
            s.len() as int,
        ));
    } else {
        let t = s.drop_last();
        assert(j < s.len());
        lemma_insert_desc_split(t, x, key, j);
        assert(t.subrange(0, j) =~= s.subrange(0, j));
        assert(insert_desc(s, x, key) =~= s.subrange(0, j) + seq![x] + s.subrange(
            j,
            s.len() as int,
        ));
    }
}

/// Inserting into a sorted sequence at the split position keeps it sorted.
pub proof fn lemma_insert_desc_sorted<T>(s: Seq<T>, x: T, key: spec_fn(T) -> int, j: int)
    requires
        sorted_desc(s, key),
        0 <= j <= s.len(),
        forall|m: int| j <= m < s.len() ==> key(#[trigger] s[m]) < key(x),
        j > 0 ==> key(s[j - 1]) >= key(x),
    ensures
        sorted_desc(insert_desc(s, x, key), key),
        insert_desc(s, x, key).len() == s.len() + 1,
{
    lemma_insert_desc_split(s, x, key, j);
    let r = insert_desc(s, x, key);
    assert forall|a: int, b: int| 0 <= a <= b < r.len() implies #[trigger] key(r[a])
        >= #[trigger] key(r[b]) by {
        if a < j {
            assert(r[a] == s[a]);
        }
        if b < j {
            assert(r[b] == s[b]);
        }
        if a > j {
            assert(r[a] == s[a - 1]);
        }
        if b > j {
            assert(r[b] == s[b - 1]);
        }
        if a == j {
            assert(r[a] == x);
        }
        if b == j {
            assert(r[b] == x);
        }
        if a < j && b == j {
            assert(key(s[a]) >= key(s[j - 1]));
        }
        if a == j && b > j {
            assert(key(s[b - 1]) < key(x));
        }
        if a < j && b > j {
            assert(key(s[a]) >= key(s[b - 1]));
        }
    }
}

} // verus!
