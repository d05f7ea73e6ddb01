//! Small verified utilities on character sequences: extracting the characters
//! of a string slice, comparing two slices, and splitting a sequence on a
//! separator character.
use vstd::prelude::*;

verus! {

/// Splits `s` on every occurrence of `sep`.  The result always has at least
/// one element; an empty input yields a single empty field, and a separator
/// at either end yields an empty field on that side.
pub open spec fn split_on(s: Seq<char>, sep: char) -> Seq<Seq<char>>
    decreases s.len(),
{
    if s.len() == 0 {
        seq![Seq::<char>::empty()]
    } else if s[0] == sep {
        seq![Seq::<char>::empty()] + split_on(s.drop_first(), sep)
    } else {
        let rest = split_on(s.drop_first(), sep);
        seq![seq![s[0]] + rest[0]] + rest.drop_first()
    }
}

pub proof fn lemma_split_on_len(s: Seq<char>, sep: char)
    ensures
        split_on(s, sep).len() >= 1,
    decreases s.len(),
{
    if s.len() > 0 {
        lemma_split_on_len(s.drop_first(), sep);
    }
}

/// Collects the characters of a string slice into a vector.
pub fn chars_of(s: &str) -> (r: Vec<char>)
    ensures
        r@ == s@,
{
    let n = s.unicode_len();
    let mut r: Vec<char> = Vec::new();
    let mut i: usize = 0;
    while i < n
        invariant
            n == s@.len(),
            i <= n,
            r@ == s@.take(i as int),
        decreases n - i,
    {
        r.push(s.get_char(i));
        assert(r@ =~= s@.take(i + 1 as int));
        i = i + 1;
    }
    assert(r@ =~= s@);
    r
}

/// Character-by-character equality of two string slices.
pub fn str_eq_str(a: &str, b: &str) -> (r: bool)
    ensures
        r == (a@ == b@),
{
    let an = a.unicode_len();
    let bn = b.unicode_len();
    if an != bn {
        return false;
    }
    let mut i: usize = 0;
    while i < an
        invariant
            an == a@.len(),
            an == b@.len(),
            i <= an,
            forall|j: int| 0 <= j < i ==> a@[j] == b@[j],
        decreases an - i,
    {
        if a.get_char(i) != b.get_char(i) {
            return false;
        }
        i = i + 1;
    }
    assert(a@ =~= b@);
    true
}

/// Copies the characters of `v` in positions `from..to` into a new vector.
pub fn subvec(v: &Vec<char>, from: usize, to: usize) -> (r: Vec<char>)
    requires
        from <= to <= v@.len(),
    ensures
        r@ == v@.subrange(from as int, to as int),
{
    let mut r: Vec<char> = Vec::new();
    let mut i: usize = from;
    while i < to
        invariant
            from <= i <= to <= v@.len(),
            r@ == v@.subrange(from as int, i as int),
        decreases to - i,
    {
        r.push(v[i]);
        assert(r@ =~= v@.subrange(from as int, i + 1 as int));
        i = i + 1;
    }
    r
}

/// Splits `v` on `sep`, as `split_on` describes.
pub fn split_chars(v: &Vec<char>, sep: char) -> (r: Vec<Vec<char>>)
    ensures
        r@.len() == split_on(v@, sep).len(),
        forall|i: int| 0 <= i < r@.len() ==> (#[trigger] r@[i])@ == split_on(v@, sep)[i],
{
    let mut fields: Vec<Vec<char>> = Vec::new();
    let mut cur: Vec<char> = Vec::new();
    let mut i: usize = 0;
    proof {
        lemma_split_on_len(v@, sep);
        assert(v@.skip(0) =~= v@);
        assert(Seq::<char>::empty() + split_on(v@, sep)[0] =~= split_on(v@, sep)[0]);
        assert(fields@.map_values(|f: Vec<char>| f@) + seq![Seq::<char>::empty() + split_on(
            v@,
            sep,
        )[0]] + split_on(v@, sep).drop_first() =~= split_on(v@, sep));
    }
    while i < v.len()
        invariant
            i <= v@.len(),
            split_on(v@, sep) == fields@.map_values(|f: Vec<char>| f@) + seq![cur@ + split_on(
                v@.skip(i as int),
                sep,
            )[0]] + split_on(v@.skip(i as int), sep).drop_first(),
        decreases v@.len() - i,
    {
        let ghost rest = v@.skip(i as int);
        let ghost rest1 = v@.skip(i + 1 as int);
        proof {
            assert(rest.len() > 0);
            assert(rest[0] == v@[i as int]);
            assert(rest.drop_first() =~= rest1);
            lemma_split_on_len(rest1, sep);
        }
        let c = v[i];
        if c == sep {
            proof {
                assert(split_on(rest, sep) =~= seq![Seq::<char>::empty()] + split_on(rest1, sep));
            }
            let ghost old_fields = fields@;
            let ghost old_cur = cur@;
            fields.push(cur);
            cur = Vec::new();
            proof {
                assert(old_cur + split_on(rest, sep)[0] =~= old_cur);
                assert(fields@.map_values(|f: Vec<char>| f@) =~= old_fields.map_values(
                    |f: Vec<char>| f@,
                ).push(old_cur));
                assert(cur@ + split_on(rest1, sep)[0] =~= split_on(rest1, sep)[0]);
                assert(old_fields.map_values(|f: Vec<char>| f@) + seq![old_cur + split_on(
                    rest,
                    sep,
                )[0]] + split_on(rest, sep).drop_first() =~= fields@.map_values(|f: Vec<char>| f@)
                    + seq![cur@ + split_on(rest1, sep)[0]] + split_on(rest1, sep).drop_first());
            }
        } else {
            let ghost old_cur = cur@;
            cur.push(c);
            proof {
                let rsplit = split_on(rest1, sep);
                assert(split_on(rest, sep) =~= seq![seq![rest[0]] + rsplit[0]]
                    + rsplit.drop_first());
                assert(old_cur + split_on(rest, sep)[0] =~= cur@ + rsplit[0]);
                assert(split_on(rest, sep).drop_first() =~= rsplit.drop_first());
            }
        }
        i = i + 1;
    }
    proof {
        assert(v@.skip(i as int) =~= Seq::<char>::empty());
        assert(split_on(Seq::<char>::empty(), sep) =~= seq![Seq::<char>::empty()]);
        assert(cur@ + split_on(v@.skip(i as int), sep)[0] =~= cur@);
        assert(split_on(v@.skip(i as int), sep).drop_first() =~= Seq::<Seq<char>>::empty());
    }
    let ghost old_fields = fields@;
    let ghost last = cur@;
    fields.push(cur);
    proof {
        assert(fields@.map_values(|f: Vec<char>| f@) =~= old_fields.map_values(|f: Vec<char>| f@)
            + seq![last]);
        assert(split_on(v@, sep) =~= fields@.map_values(|f: Vec<char>| f@));
    }
    fields
}

} // verus!
