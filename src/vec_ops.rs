use vstd::laws_eq::obeys_concrete_eq;
use vstd::prelude::*;

verus! {

pub proof fn lemma_push_contains<T>(s: Seq<T>, a: T)
    ensures
        forall|b: T| #[trigger] s.push(a).contains(b) <==> s.contains(b) || b == a,
{
    assert forall|b: T| #[trigger] s.push(a).contains(b) <==> s.contains(b) || b == a by {
        if s.contains(b) {
            let j = choose|j: int| 0 <= j < s.len() && s[j] == b;
            assert(s.push(a)[j] == b);
        }
        if b == a {
            assert(s.push(a)[s.len() as int] == b);
        }
        if s.push(a).contains(b) {
            let j = choose|j: int| 0 <= j < s.push(a).len() && s.push(a)[j] == b;
            if j < s.len() {
                assert(s[j] == b);
            }
        }
    }
}

pub proof fn lemma_push_no_duplicates<T>(s: Seq<T>, a: T)
    requires
        s.no_duplicates(),
        !s.contains(a),
    ensures
        s.push(a).no_duplicates(),
{
    assert forall|i: int, j: int|
        0 <= i < s.push(a).len() && 0 <= j < s.push(a).len() && i != j implies s.push(a)[i]
        != s.push(a)[j] by {
        if i < s.len() && j == s.len() {
            assert(s[i] != a);
        } else if j < s.len() && i == s.len() {
            assert(s[j] != a);
        }
    }
}

/// Whether `x` is stored in `v`.
pub fn contains_item<T: PartialEq>(v: &Vec<T>, x: &T) -> (r: bool)
    requires
        obeys_concrete_eq::<T>(),
    ensures
        r == v@.contains(*x),
{
    let mut i: usize = 0;
    while i < v.len()
        invariant
            i <= v.len(),
            obeys_concrete_eq::<T>(),
            forall|j: int| 0 <= j < i ==> v@[j] != *x,
        decreases v.len() - i,
    {
        proof {
            reveal(obeys_concrete_eq);
        }
        if v[i].eq(x) {
            return true;
        }
        i += 1;
    }
    false
}

/// `v` without `x`, order kept.
pub fn without_item<T: PartialEq + Copy>(v: &Vec<T>, x: &T) -> (r: Vec<T>)
    requires
        obeys_concrete_eq::<T>(),
        v@.no_duplicates(),
    ensures
        r@.no_duplicates(),
        forall|y: T| #[trigger] r@.contains(y) <==> v@.contains(y) && y != *x,
{
    let mut r: Vec<T> = Vec::new();
    let mut i: usize = 0;
    while i < v.len()
        invariant
            i <= v.len(),
            obeys_concrete_eq::<T>(),
            v@.no_duplicates(),
            r@.no_duplicates(),
            forall|y: T| #[trigger] r@.contains(y) <==> v@.take(i as int).contains(y) && y != *x,
        decreases v.len() - i,
    {
        let y = v[i];
        proof {
            reveal(obeys_concrete_eq);
            assert(v@.take(i as int + 1) == v@.take(i as int).push(y));
            lemma_push_contains(v@.take(i as int), y);
            lemma_push_contains(r@, y);
            if r@.contains(y) {
                let j = choose|j: int| 0 <= j < i && v@.take(i as int)[j] == y;
                assert(v@[j] == v@[i as int]);
            }
        }
        if !y.eq(x) {
            proof {
                lemma_push_no_duplicates(r@, y);
            }
            r.push(y);
        }
        i += 1;
    }
    assert(v@.take(v.len() as int) == v@);
    r
}

} // verus!
