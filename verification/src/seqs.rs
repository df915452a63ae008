use vstd::prelude::*;

use crate::types::bytes_list;

verus! {

//  Sequences as the pallet's bounded lists use them.

/// `s` with every occurrence of `x` taken out, the rest in order.
pub open spec fn without<T>(s: Seq<T>, x: T) -> Seq<T>
    decreases s.len(),
{
    if s.len() == 0 {
        s
    } else if s.last() == x {
        without(s.drop_last(), x)
    } else {
        without(s.drop_last(), x).push(s.last())
    }
}

/// No value occurs twice in `s`.
pub open spec fn no_dups<T>(s: Seq<T>) -> bool {
    forall|i: int, j: int| 0 <= i < j < s.len() ==> s[i] != s[j]
}

/// The items of `s` that do not occur in `other`, in order.
pub open spec fn keep_not_in(s: Seq<Seq<u8>>, other: Seq<Seq<u8>>) -> Seq<Seq<u8>>
    decreases s.len(),
{
    if s.len() == 0 {
        s
    } else if other.contains(s.last()) {
        keep_not_in(s.drop_last(), other)
    } else {
        keep_not_in(s.drop_last(), other).push(s.last())
    }
}

/// The items of `s`, each once, in the order of their first occurrence.
pub open spec fn unique(s: Seq<Seq<u8>>) -> Seq<Seq<u8>>
    decreases s.len(),
{
    if s.len() == 0 {
        s
    } else if s.drop_last().contains(s.last()) {
        unique(s.drop_last())
    } else {
        unique(s.drop_last()).push(s.last())
    }
}

/// How many of `n` items fit behind `len` items under a bound of `max`.
pub open spec fn room(len: int, n: int, max: int) -> int {
    if len >= max {
        0
    } else if n <= max - len {
        n
    } else {
        max - len
    }
}

/// `s` after pushing each of `items` in turn into a list bounded by `max`,
/// where a push into a full list is dropped.
pub open spec fn push_until_full<T>(s: Seq<T>, items: Seq<T>, max: int) -> Seq<T> {
    s + items.take(room(s.len() as int, items.len() as int, max))
}

pub proof fn lemma_without_contains<T>(s: Seq<T>, x: T, y: T)
    ensures
        without(s, x).contains(y) <==> (s.contains(y) && y != x),
    decreases s.len(),
{
    if s.len() > 0 {
        lemma_without_contains(s.drop_last(), x, y);
        if s.contains(y) && y != x {
            let i = choose|i: int| 0 <= i < s.len() && s[i] == y;
            if i < s.len() - 1 {
                assert(s.drop_last()[i] == y);
            }
        }
        if s.drop_last().contains(y) {
            let i = choose|i: int| 0 <= i < s.drop_last().len() && s.drop_last()[i] == y;
            assert(s[i] == y);
        }
        if without(s, x).contains(y) && s.last() != x {
            let w = without(s.drop_last(), x);
            let i = choose|i: int| 0 <= i < w.push(s.last()).len() && w.push(s.last())[i] == y;
            if i < w.len() {
                assert(w[i] == y);
            }
        }
        if s.last() != x && y == s.last() {
            assert(without(s, x)[without(s, x).len() - 1] == y);
        }
        if s.last() != x && without(s.drop_last(), x).contains(y) {
            let w = without(s.drop_last(), x);
            let i = choose|i: int| 0 <= i < w.len() && w[i] == y;
            assert(w.push(s.last())[i] == y);
        }
    }
}

pub proof fn lemma_without_len<T>(s: Seq<T>, x: T)
    ensures
        without(s, x).len() <= s.len(),
    decreases s.len(),
{
    if s.len() > 0 {
        lemma_without_len(s.drop_last(), x);
    }
}

pub proof fn lemma_without_no_dups<T>(s: Seq<T>, x: T)
    requires
        no_dups(s),
    ensures
        no_dups(without(s, x)),
    decreases s.len(),
{
    if s.len() > 0 {
        assert(no_dups(s.drop_last()));
        lemma_without_no_dups(s.drop_last(), x);
        if s.last() != x {
            let w = without(s.drop_last(), x);
            lemma_without_contains(s.drop_last(), x, s.last());
            assert(!s.drop_last().contains(s.last())) by {
                if s.drop_last().contains(s.last()) {
                    let i = choose|i: int|
                        0 <= i < s.drop_last().len() && s.drop_last()[i] == s.last();
                    assert(s[i] == s[s.len() - 1]);
                }
            }
            assert forall|i: int, j: int|
                0 <= i < j < w.push(s.last()).len() implies w.push(s.last())[i] != w.push(
                s.last(),
            )[j] by {
                if j == w.len() {
                    assert(w[i] == w.push(s.last())[i]);
                }
            }
        }
    }
}

/// A list without duplicates, with a fresh value pushed, has no duplicates.
pub proof fn lemma_push_no_dups<T>(s: Seq<T>, x: T)
    requires
        no_dups(s),
        !s.contains(x),
    ensures
        no_dups(s.push(x)),
{
    assert forall|i: int, j: int| 0 <= i < j < s.push(x).len() implies s.push(x)[i] != s.push(
        x,
    )[j] by {
        if j == s.len() {
            assert(s[i] == s.push(x)[i]);
        }
    }
}

/// A list without duplicates whose items all lie in another such list, and which
/// misses one item of it, is shorter than it.
pub proof fn lemma_sub_len<T>(small: Seq<T>, big: Seq<T>, missing: T)
    requires
        no_dups(small),
        forall|y: T| small.contains(y) ==> big.contains(y),
        big.contains(missing),
        !small.contains(missing),
    ensures
        small.len() < big.len(),
{
    let sset = small.to_set();
    let bset = big.to_set();
    small.unique_seq_to_set();
    assert(sset.len() == small.len());
    big.lemma_cardinality_of_set();
    assert(sset.subset_of(bset.remove(missing)));
    assert(bset.contains(missing));
    vstd::set_lib::lemma_len_subset(sset, bset.remove(missing));
}

pub proof fn lemma_keep_not_in_contains(s: Seq<Seq<u8>>, other: Seq<Seq<u8>>, y: Seq<u8>)
    ensures
        keep_not_in(s, other).contains(y) <==> (s.contains(y) && !other.contains(y)),
    decreases s.len(),
{
    if s.len() > 0 {
        lemma_keep_not_in_contains(s.drop_last(), other, y);
        let k = keep_not_in(s.drop_last(), other);
        if s.contains(y) && !other.contains(y) {
            let i = choose|i: int| 0 <= i < s.len() && s[i] == y;
            if i < s.len() - 1 {
                assert(s.drop_last()[i] == y);
            }
        }
        if s.drop_last().contains(y) {
            let i = choose|i: int| 0 <= i < s.drop_last().len() && s.drop_last()[i] == y;
            assert(s[i] == y);
        }
        if !other.contains(s.last()) {
            if k.push(s.last()).contains(y) {
                let i = choose|i: int| 0 <= i < k.push(s.last()).len() && k.push(s.last())[i] == y;
                if i < k.len() {
                    assert(k[i] == y);
                }
            }
            if k.contains(y) {
                let i = choose|i: int| 0 <= i < k.len() && k[i] == y;
                assert(k.push(s.last())[i] == y);
            }
            assert(k.push(s.last())[k.len() as int] == s.last());
        }
    }
}

pub proof fn lemma_unique_contains(s: Seq<Seq<u8>>, y: Seq<u8>)
    ensures
        unique(s).contains(y) <==> s.contains(y),
    decreases s.len(),
{
    if s.len() > 0 {
        let d = s.drop_last();
        lemma_unique_contains(d, y);
        let u = unique(d);
        if s.contains(y) {
            let i = choose|i: int| 0 <= i < s.len() && s[i] == y;
            if i < s.len() - 1 {
                assert(d[i] == y);
            }
        }
        if d.contains(y) {
            let i = choose|i: int| 0 <= i < d.len() && d[i] == y;
            assert(s[i] == y);
        }
        if !d.contains(s.last()) {
            if u.push(s.last()).contains(y) {
                let i = choose|i: int| 0 <= i < u.push(s.last()).len() && u.push(s.last())[i] == y;
                if i < u.len() {
                    assert(u[i] == y);
                }
            }
            if u.contains(y) {
                let i = choose|i: int| 0 <= i < u.len() && u[i] == y;
                assert(u.push(s.last())[i] == y);
            }
            assert(u.push(s.last())[u.len() as int] == s.last());
        }
        assert(s[s.len() - 1] == s.last());
    }
}

pub proof fn lemma_unique_no_dups(s: Seq<Seq<u8>>)
    ensures
        no_dups(unique(s)),
    decreases s.len(),
{
    if s.len() > 0 {
        let d = s.drop_last();
        lemma_unique_no_dups(d);
        if !d.contains(s.last()) {
            lemma_unique_contains(d, s.last());
            lemma_push_no_dups(unique(d), s.last());
        }
    }
}

//  Byte strings, compared as the pallet's movie ids are.

/// Whether two byte strings are equal.
pub fn bytes_eq(a: &Vec<u8>, b: &Vec<u8>) -> (r: bool)
    ensures
        r == (a@ == b@),
{
    if a.len() != b.len() {
        return false;
    }
    let mut i: usize = 0;
    while i < a.len()
        invariant
            a@.len() == b@.len(),
            i <= a@.len(),
            forall|j: int| 0 <= j < i ==> a@[j] == b@[j],
        decreases a@.len() - i,
    {
        if a[i] != b[i] {
            return false;
        }
        i = i + 1;
    }
    assert(a@ =~= b@);
    true
}

/// A copy of a byte string.
pub fn copy_bytes(a: &Vec<u8>) -> (r: Vec<u8>)
    ensures
        r@ == a@,
{
    let mut r: Vec<u8> = Vec::new();
    let mut i: usize = 0;
    while i < a.len()
        invariant
            i <= a@.len(),
            r@ == a@.take(i as int),
        decreases a@.len() - i,
    {
        r.push(a[i]);
        i = i + 1;
        assert(r@ =~= a@.take(i as int));
    }
    assert(a@.take(a@.len() as int) =~= a@);
    r
}

/// Whether `list` holds the byte string `m`.
pub fn list_contains(list: &Vec<Vec<u8>>, m: &Vec<u8>) -> (r: bool)
    ensures
        r == bytes_list(list@).contains(m@),
{
    let mut i: usize = 0;
    while i < list.len()
        invariant
            i <= list@.len(),
            forall|j: int| 0 <= j < i ==> list@[j]@ != m@,
        decreases list@.len() - i,
    {
        if bytes_eq(&list[i], m) {
            assert(bytes_list(list@)[i as int] == m@);
            return true;
        }
        i = i + 1;
    }
    proof {
        if bytes_list(list@).contains(m@) {
            let j = choose|j: int| 0 <= j < bytes_list(list@).len() && bytes_list(list@)[j] == m@;
            assert(list@[j]@ == m@);
        }
    }
    false
}

/// A copy of a list of byte strings.
pub fn copy_list(list: &Vec<Vec<u8>>) -> (r: Vec<Vec<u8>>)
    ensures
        bytes_list(r@) == bytes_list(list@),
{
    let mut r: Vec<Vec<u8>> = Vec::new();
    let mut i: usize = 0;
    while i < list.len()
        invariant
            i <= list@.len(),
            bytes_list(r@) == bytes_list(list@).take(i as int),
        decreases list@.len() - i,
    {
        let ghost before = bytes_list(r@);
        let b = copy_bytes(&list[i]);
        r.push(b);
        assert(bytes_list(r@) =~= before.push(list@[i as int]@));
        assert(bytes_list(list@).take(i + 1) =~= bytes_list(list@).take(i as int).push(
            list@[i as int]@,
        ));
        i = i + 1;
    }
    assert(bytes_list(list@).take(list@.len() as int) =~= bytes_list(list@));
    r
}

/// A copy of a list of festival ids.
pub fn copy_ids(list: &Vec<u32>) -> (r: Vec<u32>)
    ensures
        r@ == list@,
{
    let mut r: Vec<u32> = Vec::new();
    let mut i: usize = 0;
    while i < list.len()
        invariant
            i <= list@.len(),
            r@ == list@.take(i as int),
        decreases list@.len() - i,
    {
        r.push(list[i]);
        i = i + 1;
        assert(r@ =~= list@.take(i as int));
    }
    assert(list@.take(list@.len() as int) =~= list@);
    r
}

/// `list` with every occurrence of `x` taken out.
pub fn without_id(list: &Vec<u32>, x: u32) -> (r: Vec<u32>)
    ensures
        r@ == without(list@, x),
{
    let mut r: Vec<u32> = Vec::new();
    let mut i: usize = 0;
    while i < list.len()
        invariant
            i <= list@.len(),
            r@ == without(list@.take(i as int), x),
        decreases list@.len() - i,
    {
        assert(list@.take(i + 1).drop_last() =~= list@.take(i as int));
        if list[i] != x {
            r.push(list[i]);
        }
        i = i + 1;
    }
    assert(list@.take(list@.len() as int) =~= list@);
    r
}

/// The items of `list` that do not occur in `other`, in order.
pub fn keep_movies_not_in(list: &Vec<Vec<u8>>, other: &Vec<Vec<u8>>) -> (r: Vec<Vec<u8>>)
    ensures
        bytes_list(r@) == keep_not_in(bytes_list(list@), bytes_list(other@)),
{
    let mut r: Vec<Vec<u8>> = Vec::new();
    let mut i: usize = 0;
    while i < list.len()
        invariant
            i <= list@.len(),
            bytes_list(r@) == keep_not_in(bytes_list(list@).take(i as int), bytes_list(other@)),
        decreases list@.len() - i,
    {
        assert(bytes_list(list@).take(i + 1).drop_last() =~= bytes_list(list@).take(i as int));
        if !list_contains(other, &list[i]) {
            let b = copy_bytes(&list[i]);
            r.push(b);
            assert(bytes_list(r@) =~= keep_not_in(
                bytes_list(list@).take(i as int),
                bytes_list(other@),
            ).push(list@[i as int]@));
        }
        i = i + 1;
    }
    assert(bytes_list(list@).take(list@.len() as int) =~= bytes_list(list@));
    r
}

/// The items of `list`, each once, in the order of their first occurrence.
pub fn unique_movies(list: &Vec<Vec<u8>>) -> (r: Vec<Vec<u8>>)
    ensures
        bytes_list(r@) == unique(bytes_list(list@)),
{
    let mut r: Vec<Vec<u8>> = Vec::new();
    let mut i: usize = 0;
    while i < list.len()
        invariant
            i <= list@.len(),
            bytes_list(r@) == unique(bytes_list(list@).take(i as int)),
        decreases list@.len() - i,
    {
        let ghost t = bytes_list(list@).take(i + 1);
        assert(t.drop_last() =~= bytes_list(list@).take(i as int));
        assert(t.last() == list@[i as int]@);
        proof {
            lemma_unique_contains(bytes_list(list@).take(i as int), list@[i as int]@);
        }
        if !list_contains(&r, &list[i]) {
            let ghost before = bytes_list(r@);
            let b = copy_bytes(&list[i]);
            r.push(b);
            assert(bytes_list(r@) =~= before.push(list@[i as int]@));
        }
        i = i + 1;
    }
    assert(bytes_list(list@).take(list@.len() as int) =~= bytes_list(list@));
    r
}

/// Pushes each of `items` in turn onto `list`, dropping those that find it full.
pub fn push_movies_until_full(list: &mut Vec<Vec<u8>>, items: &Vec<Vec<u8>>, max: u32)
    ensures
        bytes_list(final(list)@) == push_until_full(
            bytes_list(old(list)@),
            bytes_list(items@),
            max as int,
        ),
{
    let ghost start = bytes_list(list@);
    let mut i: usize = 0;
    while i < items.len()
        invariant
            i <= items@.len(),
            bytes_list(list@) == push_until_full(start, bytes_list(items@).take(i as int), max as int),
        decreases items@.len() - i,
    {
        let ghost before = bytes_list(list@);
        if list.len() < max as usize {
            let b = copy_bytes(&items[i]);
            list.push(b);
            assert(bytes_list(list@) =~= before.push(items@[i as int]@));
        }
        i = i + 1;
        assert(bytes_list(list@) =~= push_until_full(
            start,
            bytes_list(items@).take(i as int),
            max as int,
        ));
    }
    assert(bytes_list(items@).take(items@.len() as int) =~= bytes_list(items@));
}

pub proof fn lemma_keep_not_in_len(s: Seq<Seq<u8>>, other: Seq<Seq<u8>>)
    ensures
        keep_not_in(s, other).len() <= s.len(),
    decreases s.len(),
{
    if s.len() > 0 {
        lemma_keep_not_in_len(s.drop_last(), other);
    }
}

pub proof fn lemma_push_until_full_len<T>(s: Seq<T>, items: Seq<T>, max: int)
    requires
        s.len() <= max,
    ensures
        push_until_full(s, items, max).len() <= max,
{
}

} // verus!
