//! Lexicographic ordering of texts by code point, a sorting order for the
//! catalog types, and sorting with removal of duplicates.

use vstd::prelude::*;

verus! {

use vstd::multiset::Multiset;

broadcast use vstd::seq_lib::group_to_multiset_ensures;

/// Strict lexicographic order on texts, comparing code points.
pub open spec fn lex_lt(a: Seq<char>, b: Seq<char>) -> bool
    decreases a.len(),
{
    if b.len() == 0 {
        false
    } else if a.len() == 0 {
        true
    } else if a[0] < b[0] {
        true
    } else if b[0] < a[0] {
        false
    } else {
        lex_lt(a.skip(1), b.skip(1))
    }
}

/// Two texts are always ordered one way or the other, unless equal.
pub proof fn lemma_lex_trichotomy(a: Seq<char>, b: Seq<char>)
    ensures
        lex_lt(a, b) || lex_lt(b, a) || a == b,
    decreases a.len(),
{
    if a.len() == 0 && b.len() == 0 {
        assert(a =~= b);
    } else if a.len() > 0 && b.len() > 0 {
        if !(a[0] < b[0]) && !(b[0] < a[0]) {
            assert(a[0] == b[0]);
            lemma_lex_trichotomy(a.skip(1), b.skip(1));
            if a.skip(1) == b.skip(1) {
                assert(a.skip(1).len() == b.skip(1).len());
                assert(a.len() == b.len());
                assert forall|i: int| 0 <= i < a.len() implies a[i] == b[i] by {
                    if i > 0 {
                        assert(a[i] == a.skip(1)[i - 1]);
                        assert(b[i] == b.skip(1)[i - 1]);
                    }
                }
                assert(a =~= b);
            }
        }
    }
}

/// A text never precedes itself.
pub proof fn lemma_lex_irreflexive(a: Seq<char>)
    ensures
        !lex_lt(a, a),
    decreases a.len(),
{
    if a.len() > 0 {
        lemma_lex_irreflexive(a.skip(1));
    }
}

/// Lexicographic order is transitive.
pub proof fn lemma_lex_transitive(a: Seq<char>, b: Seq<char>, c: Seq<char>)
    requires
        lex_lt(a, b),
        lex_lt(b, c),
    ensures
        lex_lt(a, c),
    decreases a.len(),
{
    if a.len() > 0 && b.len() > 0 && c.len() > 0 {
        if !(a[0] < b[0]) && !(b[0] < a[0]) && !(b[0] < c[0]) && !(c[0] < b[0]) {
            lemma_lex_transitive(a.skip(1), b.skip(1), c.skip(1));
        }
    }
}

/// Compare two texts lexicographically by code point.
pub fn str_lt(a: &str, b: &str) -> (r: bool)
    ensures
        r == lex_lt(a@, b@),
{
    let a_len = a.unicode_len();
    let b_len = b.unicode_len();
    let mut i: usize = 0;
    proof {
        assert(a@.skip(0) =~= a@);
        assert(b@.skip(0) =~= b@);
    }
    loop
        invariant
            i <= a_len,
            i <= b_len,
            a_len == a@.len(),
            b_len == b@.len(),
            lex_lt(a@, b@) == lex_lt(a@.skip(i as int), b@.skip(i as int)),
        decreases a_len - i,
    {
        if i >= b_len {
            return false;
        }
        if i >= a_len {
            return true;
        }
        let ca = a.get_char(i);
        let cb = b.get_char(i);
        if ca < cb {
            return true;
        }
        if cb < ca {
            return false;
        }
        proof {
            assert(a@.skip(i as int).skip(1) =~= a@.skip(i as int + 1));
            assert(b@.skip(i as int).skip(1) =~= b@.skip(i as int + 1));
        }
        i = i + 1;
    }
}

/// Test two texts for equality.
pub fn str_eq(a: &str, b: &str) -> (r: bool)
    ensures
        r == (a@ == b@),
{
    let a_len = a.unicode_len();
    let b_len = b.unicode_len();
    if a_len != b_len {
        return false;
    }
    let mut i: usize = 0;
    while i < a_len
        invariant
            i <= a_len,
            a_len == a@.len(),
            a_len == b@.len(),
            forall|j: int| 0 <= j < i ==> a@[j] == b@[j],
        decreases a_len - i,
    {
        if a.get_char(i) != b.get_char(i) {
            return false;
        }
        i = i + 1;
    }
    proof {
        assert(a@ =~= b@);
    }
    true
}

/// A sorting order: a strict, irreflexive, transitive relation with an
/// executable test. Elements ordered neither way count as equivalent and
/// sort next to each other.
pub trait SortOrder: Sized {
    /// The strict order this type sorts by.
    spec fn before(&self, other: &Self) -> bool;

    /// The order is transitive.
    proof fn lemma_before_transitive(a: &Self, b: &Self, c: &Self)
        requires
            a.before(b),
            b.before(c),
        ensures
            a.before(c),
    ;

    /// No element stands before itself.
    proof fn lemma_before_irreflexive(a: &Self)
        ensures
            !a.before(a),
    ;

    /// Decide the order on concrete values.
    fn before_exec(&self, other: &Self) -> (r: bool)
        ensures
            r == self.before(other),
    ;
}

/// Two elements neither of which stands before the other.
pub open spec fn equivalent<T: SortOrder>(a: T, b: T) -> bool {
    !a.before(&b) && !b.before(&a)
}

/// A sequence is sorted when no later element must stand before an earlier one.
pub open spec fn sorted<T: SortOrder>(s: Seq<T>) -> bool {
    forall|i: int, j: int| 0 <= i < j < s.len() ==> !#[trigger] s[j].before(&s[i])
}

/// A sequence is strictly sorted when every earlier element stands before
/// every later one; such a sequence holds no two equivalent elements.
pub open spec fn strictly_sorted<T: SortOrder>(s: Seq<T>) -> bool {
    forall|i: int, j: int| 0 <= i < j < s.len() ==> #[trigger] s[i].before(&s[j])
}

/// Somewhere among the kept elements stands one equivalent to `x`.
pub open spec fn covered<T: SortOrder>(x: T, s: Seq<T>) -> bool {
    exists|j: int| 0 <= j < s.len() && equivalent(x, #[trigger] s[j])
}

proof fn lemma_covered_push<T: SortOrder>(x: T, s: Seq<T>, e: T)
    requires
        covered(x, s),
    ensures
        covered(x, s.push(e)),
{
    let j = choose|j: int| 0 <= j < s.len() && equivalent(x, #[trigger] s[j]);
    assert(s.push(e)[j] == s[j]);
}

/// The position before the first element that `e` must precede: everything
/// earlier may stay before `e`.
fn insertion_point<T: SortOrder>(out: &Vec<T>, e: &T) -> (j: usize)
    ensures
        j <= out@.len(),
        forall|k: int| 0 <= k < j ==> !#[trigger] e.before(&out@[k]),
        j < out@.len() ==> e.before(&out@[j as int]),
{
    let mut j: usize = 0;
    while j < out.len()
        invariant
            j <= out@.len(),
            forall|k: int| 0 <= k < j ==> !#[trigger] e.before(&out@[k]),
        decreases out@.len() - j,
    {
        if e.before_exec(&out[j]) {
            return j;
        }
        j = j + 1;
    }
    j
}

/// A property of every element carries over to any reordering.
pub proof fn lemma_all_elements_permuted<T>(a: Seq<T>, b: Seq<T>, p: spec_fn(T) -> bool)
    requires
        a.to_multiset() == b.to_multiset(),
        forall|i: int| 0 <= i < a.len() ==> p(#[trigger] a[i]),
    ensures
        forall|i: int| 0 <= i < b.len() ==> p(#[trigger] b[i]),
{
    assert forall|i: int| 0 <= i < b.len() implies p(#[trigger] b[i]) by {
        assert(b.contains(b[i]));
        assert(b.to_multiset().count(b[i]) > 0);
        assert(a.contains(b[i]));
        let j = choose|j: int| 0 <= j < a.len() && a[j] == b[i];
        assert(p(a[j]));
    }
}

/// Pairwise distinct keys carry over to any reordering.
pub proof fn lemma_distinct_keys_permuted<T>(a: Seq<T>, b: Seq<T>, key: spec_fn(T) -> Seq<char>)
    requires
        a.to_multiset() == b.to_multiset(),
        forall|i: int, j: int| 0 <= i < j < a.len() ==> key(#[trigger] a[i]) != key(#[trigger] a[j]),
    ensures
        forall|i: int, j: int| 0 <= i < j < b.len() ==> key(#[trigger] b[i]) != key(#[trigger] b[j]),
{
    assert(a.no_duplicates()) by {
        assert forall|i: int, j: int|
            0 <= i < a.len() && 0 <= j < a.len() && i != j implies a[i] != a[j] by {
            if i < j {
                assert(key(a[i]) != key(a[j]));
            } else {
                assert(key(a[j]) != key(a[i]));
            }
        }
    }
    a.lemma_multiset_has_no_duplicates();
    b.lemma_multiset_has_no_duplicates_conv();
    assert forall|i: int, j: int|
        0 <= i < j < b.len() implies key(#[trigger] b[i]) != key(#[trigger] b[j]) by {
        if key(b[i]) == key(b[j]) {
            assert(b[i] != b[j]);
            assert(b.contains(b[i]));
            assert(b.contains(b[j]));
            assert(b.to_multiset().count(b[i]) > 0);
            assert(b.to_multiset().count(b[j]) > 0);
            assert(a.contains(b[i]));
            assert(a.contains(b[j]));
            let x = choose|x: int| 0 <= x < a.len() && a[x] == b[i];
            let y = choose|y: int| 0 <= y < a.len() && a[y] == b[j];
            assert(x != y);
            if x < y {
                assert(key(a[x]) != key(a[y]));
            } else {
                assert(key(a[y]) != key(a[x]));
            }
            assert(false);
        }
    }
}

/// Sort a vector by insertion, keeping exactly the elements that were given.
pub fn sort<T: SortOrder>(v: Vec<T>) -> (r: Vec<T>)
    ensures
        sorted(r@),
        r@.to_multiset() == v@.to_multiset(),
{
    let ghost orig = v@;
    let mut out: Vec<T> = Vec::new();
    let mut rest = v;
    loop
        invariant
            orig == v@,
            sorted(out@),
            out@.to_multiset().add(rest@.to_multiset()) == orig.to_multiset(),
        decreases rest@.len(),
    {
        let ghost rest_old = rest@;
        let e = match rest.pop() {
            Some(e) => e,
            None => {
                proof {
                    assert(rest@.to_multiset() =~= Multiset::empty());
                    assert(out@.to_multiset().add(rest@.to_multiset()) =~= out@.to_multiset());
                    assert(out@.to_multiset() == orig.to_multiset());
                }
                return out;
            },
        };
        proof {
            assert(rest_old =~= rest@.push(e));
        }
        let j = insertion_point(&out, &e);
        proof {
            if j < out@.len() {
                assert forall|m: int| j <= m < out@.len() implies !#[trigger] out@[m].before(
                    &e,
                ) by {
                    if out@[m].before(&e) {
                        if m == j {
                            T::lemma_before_transitive(&e, &out@[j as int], &e);
                            T::lemma_before_irreflexive(&e);
                        } else {
                            T::lemma_before_transitive(&out@[m], &e, &out@[j as int]);
                            assert(!out@[m].before(&out@[j as int]));
                        }
                    }
                }
            }
        }
        let ghost out_old = out@;
        out.insert(j, e);
        proof {
            assert forall|a: int, b: int|
                0 <= a < b < out@.len() implies !#[trigger] out@[b].before(&out@[a]) by {
                if b < j {
                    assert(out@[a] == out_old[a] && out@[b] == out_old[b]);
                } else if a > j {
                    assert(out@[a] == out_old[a - 1] && out@[b] == out_old[b - 1]);
                } else if a == j {
                    assert(out@[b] == out_old[b - 1]);
                } else if b == j {
                    assert(out@[a] == out_old[a]);
                } else {
                    assert(out@[a] == out_old[a] && out@[b] == out_old[b - 1]);
                }
            }
            assert(out@ == out_old.insert(j as int, e));
            assert(out@.to_multiset() == out_old.to_multiset().insert(e));
            assert(rest_old.to_multiset() == rest@.to_multiset().insert(e));
            assert(out@.to_multiset().add(rest@.to_multiset()) =~= orig.to_multiset());
        }
    }
}

/// Remove from a sorted vector every element equivalent to an earlier one,
/// leaving a strictly sorted vector with one representative per equivalence
/// class: every kept element was given, and everything given has an
/// equivalent kept representative.
pub fn dedup_sorted<T: SortOrder>(v: Vec<T>) -> (r: Vec<T>)
    requires
        sorted(v@),
    ensures
        strictly_sorted(r@),
        forall|j: int| 0 <= j < r@.len() ==> v@.contains(#[trigger] r@[j]),
        forall|i: int| 0 <= i < v@.len() ==> covered(#[trigger] v@[i], r@),
{
    let ghost orig = v@;
    let mut rest = v;
    let mut out: Vec<T> = Vec::new();
    loop
        invariant
            orig == v@,
            sorted(orig),
            rest@.len() <= orig.len(),
            rest@ == orig.skip(orig.len() - rest@.len()),
            strictly_sorted(out@),
            forall|j: int| 0 <= j < out@.len() ==> orig.contains(#[trigger] out@[j]),
            forall|k: int|
                0 <= k < orig.len() - rest@.len() ==> covered(#[trigger] orig[k], out@),
            out@.len() > 0 ==> exists|k: int|
                0 <= k < orig.len() - rest@.len() && out@[out@.len() - 1] == #[trigger] orig[k],
        decreases rest@.len(),
    {
        if rest.len() == 0 {
            return out;
        }
        let ghost i = orig.len() - rest@.len();
        let ghost rest_old = rest@;
        let e = rest.remove(0);
        proof {
            assert(e == rest_old[0]);
            assert(rest_old[0] == orig[i]);
            assert(rest@ =~= orig.skip(orig.len() - rest@.len()));
        }
        let keep = if out.len() == 0 {
            true
        } else {
            let last_idx = out.len() - 1;
            out[last_idx].before_exec(&e)
        };
        if keep {
            proof {
                if out@.len() > 0 {
                    let last = out@[out@.len() - 1];
                    assert forall|j: int| 0 <= j < out@.len() implies #[trigger] out@[j].before(
                        &e,
                    ) by {
                        if j < out@.len() - 1 {
                            T::lemma_before_transitive(&out@[j], &last, &e);
                        }
                    }
                }
            }
            let ghost out_old = out@;
            out.push(e);
            proof {
                assert forall|a: int, b: int|
                    0 <= a < b < out@.len() implies #[trigger] out@[a].before(&out@[b]) by {
                    if b == out@.len() - 1 {
                        assert(out@[a] == out_old[a]);
                    } else {
                        assert(out@[a] == out_old[a] && out@[b] == out_old[b]);
                    }
                }
                assert(orig.contains(e)) by {
                    assert(orig[i] == e);
                }
                assert forall|j: int| 0 <= j < out@.len() implies orig.contains(
                    #[trigger] out@[j],
                ) by {
                    if j < out@.len() - 1 {
                        assert(out@[j] == out_old[j]);
                    }
                }
                assert forall|k: int| 0 <= k < i + 1 implies covered(
                    #[trigger] orig[k],
                    out@,
                ) by {
                    if k < i {
                        lemma_covered_push(orig[k], out_old, e);
                    } else {
                        T::lemma_before_irreflexive(&e);
                        assert(equivalent(orig[k], out@[out@.len() - 1]));
                    }
                }
                assert(out@[out@.len() - 1] == orig[i]);
            }
        } else {
            proof {
                let last_j = out@.len() - 1;
                let kw = choose|k: int|
                    0 <= k < i && out@[out@.len() - 1] == #[trigger] orig[k];
                assert(!orig[i].before(&orig[kw]));
                assert(equivalent(orig[i], out@[last_j]));
                assert forall|k: int| 0 <= k < i + 1 implies covered(
                    #[trigger] orig[k],
                    out@,
                ) by {
                    if k == i {
                        assert(equivalent(orig[k], out@[last_j]));
                    }
                }
            }
        }
    }
}

} // verus!
