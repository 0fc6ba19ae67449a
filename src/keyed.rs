use vstd::prelude::*;
use crate::model::Keyed;

verus! {

/// No two records of `s` share a url.
pub open spec fn unique_keys<T: Keyed>(s: Seq<T>) -> bool {
    forall|i: int, j: int|
        #![trigger s[i].key(), s[j].key()]
        0 <= i < s.len() && 0 <= j < s.len() && i != j ==> s[i].key() != s[j].key()
}

/// Some record of `s` has the url `k`.
pub open spec fn holds_key<T: Keyed>(s: Seq<T>, k: Seq<char>) -> bool {
    exists|i: int| 0 <= i < s.len() && #[trigger] s[i].key() == k
}

/// Where the record with url `k` stands in `s`.
pub open spec fn key_index<T: Keyed>(s: Seq<T>, k: Seq<char>) -> int {
    choose|i: int| 0 <= i < s.len() && #[trigger] s[i].key() == k
}

/// `s` without its record of url `k`, if it has one.
pub open spec fn without_key<T: Keyed>(s: Seq<T>, k: Seq<char>) -> Seq<T> {
    if holds_key(s, k) {
        s.remove(key_index(s, k))
    } else {
        s
    }
}

/// With unique urls, the record found at `i` is the one that `key_index` names.
pub proof fn lemma_key_index<T: Keyed>(s: Seq<T>, i: int)
    requires
        unique_keys(s),
        0 <= i < s.len(),
    ensures
        holds_key(s, s[i].key()),
        key_index(s, s[i].key()) == i,
{
    let k = s[i].key();
    assert(holds_key(s, k));
    let j = key_index(s, k);
    assert(s[j].key() == k);
}

/// Taking a record out keeps the urls unique, and every record left was there before.
pub proof fn lemma_without_key<T: Keyed>(s: Seq<T>, k: Seq<char>)
    requires
        unique_keys(s),
    ensures
        unique_keys(without_key(s, k)),
        !holds_key(without_key(s, k), k),
        forall|j: int|
            0 <= j < without_key(s, k).len() ==> s.contains(#[trigger] without_key(s, k)[j]),
        forall|x: Seq<char>| #[trigger] holds_key(without_key(s, k), x) ==> holds_key(s, x),
        forall|x: Seq<char>| x != k && holds_key(s, x) ==> #[trigger] holds_key(without_key(s, k), x),
{
    let r = without_key(s, k);
    assert forall|x: Seq<char>| x != k && holds_key(s, x) implies #[trigger] holds_key(r, x) by {
        let m = choose|m: int| 0 <= m < s.len() && #[trigger] s[m].key() == x;
        if holds_key(s, k) {
            let i = key_index(s, k);
            if m < i {
                assert(r[m] == s[m]);
            } else {
                assert(m != i);
                assert(r[m - 1] == s[m]);
            }
        } else {
            assert(r[m] == s[m]);
        }
    }
    if holds_key(s, k) {
        let i = key_index(s, k);
        assert forall|j: int| 0 <= j < r.len() implies s.contains(#[trigger] r[j]) by {
            if j < i {
                assert(s[j] == r[j]);
            } else {
                assert(s[j + 1] == r[j]);
            }
        }
        assert forall|a: int, b: int|
            #![trigger r[a].key(), r[b].key()]
            0 <= a < r.len() && 0 <= b < r.len() && a != b implies r[a].key() != r[b].key() by {
            let ia = if a < i { a } else { a + 1 };
            let ib = if b < i { b } else { b + 1 };
            assert(r[a] == s[ia]);
            assert(r[b] == s[ib]);
        }
        if holds_key(r, k) {
            let j = choose|j: int| 0 <= j < r.len() && #[trigger] r[j].key() == k;
            let ij = if j < i { j } else { j + 1 };
            assert(r[j] == s[ij]);
        }
    } else {
        assert forall|j: int| 0 <= j < r.len() implies s.contains(#[trigger] r[j]) by {
            assert(s[j] == r[j]);
        }
    }
    assert forall|x: Seq<char>| #[trigger] holds_key(r, x) implies holds_key(s, x) by {
        let j = choose|j: int| 0 <= j < r.len() && #[trigger] r[j].key() == x;
        assert(s.contains(r[j]));
        let m = choose|m: int| 0 <= m < s.len() && s[m] == r[j];
        assert(s[m].key() == x);
    }
}

/// Finds the position of the record with url `k`.
pub fn position_of<T: Keyed>(v: &Vec<T>, k: &String) -> (r: Option<usize>)
    requires
        unique_keys(v@),
    ensures
        r == (if holds_key(v@, k@) {
            Some(key_index(v@, k@) as usize)
        } else {
            None::<usize>
        }),
        r matches Some(i) ==> i < v@.len() && v@[i as int].key() == k@,
{
    let mut i: usize = 0;
    while i < v.len()
        invariant
            i <= v@.len(),
            unique_keys(v@),
            forall|j: int| 0 <= j < i ==> #[trigger] v@[j].key() != k@,
        decreases v@.len() - i,
    {
        if *v[i].key_text() == *k {
            proof {
                lemma_key_index(v@, i as int);
            }
            return Some(i);
        }
        i += 1;
    }
    None
}

/// Takes the record with url `k` out of `v`, if there is one.
pub fn remove_key<T: Keyed>(v: &mut Vec<T>, k: &String)
    requires
        unique_keys(old(v)@),
    ensures
        final(v)@ == without_key(old(v)@, k@),
{
    match position_of(v, k) {
        Some(i) => {
            v.remove(i);
        },
        None => {},
    }
}


/// Filtering keeps the urls unique, and every url left was there before.
pub proof fn lemma_filter_keys<T: Keyed>(s: Seq<T>, p: spec_fn(T) -> bool)
    requires
        unique_keys(s),
    ensures
        unique_keys(s.filter(p)),
        forall|x: Seq<char>| #[trigger] holds_key(s.filter(p), x) ==> holds_key(s, x),
    decreases s.len(),
{
    reveal(Seq::filter);
    if s.len() > 0 {
        let d = s.drop_last();
        assert(unique_keys(d)) by {
            assert forall|i: int, j: int|
                #![trigger d[i].key(), d[j].key()]
                0 <= i < d.len() && 0 <= j < d.len() && i != j implies d[i].key() != d[j].key() by {
                assert(d[i] == s[i] && d[j] == s[j]);
            }
        }
        lemma_filter_keys(d, p);
        let f = d.filter(p);
        assert forall|x: Seq<char>| #[trigger] holds_key(d, x) implies holds_key(s, x) by {
            let j = choose|j: int| 0 <= j < d.len() && #[trigger] d[j].key() == x;
            assert(s[j] == d[j]);
        }
        if p(s.last()) {
            let r = f.push(s.last());
            assert(s.filter(p) == r);
            assert(!holds_key(f, s.last().key())) by {
                if holds_key(f, s.last().key()) {
                    assert(holds_key(d, s.last().key()));
                    let j = choose|j: int| 0 <= j < d.len() && #[trigger] d[j].key() == s.last().key();
                    assert(s[j] == d[j]);
                    assert(s[j].key() == s[s.len() - 1].key());
                }
            }
            assert forall|a: int, b: int|
                #![trigger r[a].key(), r[b].key()]
                0 <= a < r.len() && 0 <= b < r.len() && a != b implies r[a].key() != r[b].key() by {
                if a == r.len() - 1 {
                    assert(f[b].key() == r[b].key());
                } else if b == r.len() - 1 {
                    assert(f[a].key() == r[a].key());
                } else {
                    assert(f[a] == r[a] && f[b] == r[b]);
                }
            }
            assert forall|x: Seq<char>| #[trigger] holds_key(r, x) implies holds_key(s, x) by {
                let j = choose|j: int| 0 <= j < r.len() && #[trigger] r[j].key() == x;
                if j == r.len() - 1 {
                    assert(s[s.len() - 1].key() == x);
                } else {
                    assert(f[j] == r[j]);
                    assert(holds_key(f, x));
                }
            }
        }
    }
}


/// Changing, through `f`, the one record of url `k` is mapping `f` over all
/// records, when `f` leaves every other record as it is and keeps urls.
pub proof fn lemma_update_at_key<T: Keyed>(s: Seq<T>, k: Seq<char>, f: spec_fn(T) -> T)
    requires
        unique_keys(s),
        forall|x: T| x.key() != k ==> #[trigger] f(x) == x,
        forall|x: T| #[trigger] f(x).key() == x.key(),
    ensures
        holds_key(s, k) ==> s.update(key_index(s, k), f(s[key_index(s, k)])) == s.map_values(f),
        !holds_key(s, k) ==> s == s.map_values(f),
        unique_keys(s.map_values(f)),
        forall|x: Seq<char>| #[trigger] holds_key(s.map_values(f), x) == holds_key(s, x),
{
    let m = s.map_values(f);
    if holds_key(s, k) {
        let i = key_index(s, k);
        assert forall|j: int| 0 <= j < s.len() && j != i implies m[j] == s[j] by {
            assert(s[j].key() != s[i].key());
        }
        assert(s.update(i, f(s[i])) =~= m);
    } else {
        assert forall|j: int| 0 <= j < s.len() implies m[j] == s[j] by {
            if s[j].key() == k {
                assert(holds_key(s, k));
            }
        }
        assert(s =~= m);
    }
    assert forall|a: int, b: int|
        #![trigger m[a].key(), m[b].key()]
        0 <= a < m.len() && 0 <= b < m.len() && a != b implies m[a].key() != m[b].key() by {
        assert(m[a].key() == s[a].key() && m[b].key() == s[b].key());
    }
    assert forall|x: Seq<char>| #[trigger] holds_key(m, x) == holds_key(s, x) by {
        if holds_key(m, x) {
            let j = choose|j: int| 0 <= j < m.len() && #[trigger] m[j].key() == x;
            assert(s[j].key() == x);
        }
        if holds_key(s, x) {
            let j = choose|j: int| 0 <= j < s.len() && #[trigger] s[j].key() == x;
            assert(m[j].key() == x);
        }
    }
}

/// Appending a record of a url not yet held keeps the urls unique.
pub proof fn lemma_push_key<T: Keyed>(s: Seq<T>, x: T)
    requires
        unique_keys(s),
        !holds_key(s, x.key()),
    ensures
        unique_keys(s.push(x)),
        forall|k: Seq<char>| #[trigger] holds_key(s.push(x), k) == (holds_key(s, k) || k == x.key()),
{
    let t = s.push(x);
    assert forall|i: int, j: int|
        #![trigger t[i].key(), t[j].key()]
        0 <= i < t.len() && 0 <= j < t.len() && i != j implies t[i].key() != t[j].key() by {
        if i < s.len() && j < s.len() {
            assert(t[i] == s[i] && t[j] == s[j]);
        } else if i < s.len() {
            assert(t[i] == s[i]);
        } else {
            assert(t[j] == s[j]);
        }
    }
    assert forall|k: Seq<char>| #[trigger] holds_key(t, k) == (holds_key(s, k) || k == x.key()) by {
        if holds_key(t, k) {
            let j = choose|j: int| 0 <= j < t.len() && #[trigger] t[j].key() == k;
            if j < s.len() {
                assert(t[j] == s[j]);
            }
        }
        if holds_key(s, k) {
            let j = choose|j: int| 0 <= j < s.len() && #[trigger] s[j].key() == k;
            assert(t[j] == s[j]);
        }
        if k == x.key() {
            assert(t[s.len() as int] == x);
        }
    }
}


/// Tells whether the urls of `v` are unique.
pub fn keys_unique<T: Keyed>(v: &Vec<T>) -> (r: bool)
    ensures
        r == unique_keys(v@),
{
    let mut i: usize = 0;
    while i < v.len()
        invariant
            i <= v@.len(),
            forall|a: int, b: int|
                #![trigger v@[a].key(), v@[b].key()]
                0 <= a < i && 0 <= b < v@.len() && a != b ==> v@[a].key() != v@[b].key(),
        decreases v@.len() - i,
    {
        let mut j: usize = 0;
        while j < v.len()
            invariant
                i < v@.len(),
                j <= v@.len(),
                forall|a: int, b: int|
                    #![trigger v@[a].key(), v@[b].key()]
                    0 <= a < i && 0 <= b < v@.len() && a != b ==> v@[a].key() != v@[b].key(),
                forall|b: int|
                    0 <= b < j && b != i ==> v@[i as int].key() != #[trigger] v@[b].key(),
            decreases v@.len() - j,
        {
            if j != i && *v[i].key_text() == *v[j].key_text() {
                return false;
            }
            j += 1;
        }
        i += 1;
    }
    true
}

/// Tells whether some record of `v` has the url `k`.
pub fn has_key<T: Keyed>(v: &Vec<T>, k: &String) -> (r: bool)
    ensures
        r == holds_key(v@, k@),
{
    let mut i: usize = 0;
    while i < v.len()
        invariant
            i <= v@.len(),
            forall|j: int| 0 <= j < i ==> #[trigger] v@[j].key() != k@,
        decreases v@.len() - i,
    {
        if *v[i].key_text() == *k {
            return true;
        }
        i += 1;
    }
    false
}

} // verus!
