use vstd::prelude::*;

verus! {

/// The position of the first element of `s` equal to `x`.
pub open spec fn first_index<T>(s: Seq<T>, x: T) -> Option<int>
    decreases s.len(),
{
    if s.len() == 0 {
        None
    } else {
        match first_index(s.drop_last(), x) {
            Some(i) => Some(i),
            None => if s.last() == x {
                Some(s.len() - 1)
            } else {
                None
            },
        }
    }
}

/// The character sequences of a list of strings.
pub open spec fn string_views(v: Seq<String>) -> Seq<Seq<char>> {
    v.map_values(|s: String| s@)
}

pub proof fn lemma_first_index_bounds<T>(s: Seq<T>, x: T)
    ensures
        first_index(s, x) matches Some(i) ==> 0 <= i < s.len() && s[i] == x && forall|j: int|
            0 <= j < i ==> s[j] != x,
        first_index(s, x) is None ==> forall|j: int| 0 <= j < s.len() ==> s[j] != x,
    decreases s.len(),
{
    if s.len() > 0 {
        let d = s.drop_last();
        lemma_first_index_bounds(d, x);
        assert forall|j: int| 0 <= j < d.len() implies d[j] == s[j] by {}
    }
}

/// A first occurrence in a prefix is the first occurrence in the whole.
pub proof fn lemma_first_index_prefix<T>(s: Seq<T>, x: T, n: int)
    requires
        0 <= n <= s.len(),
        first_index(s.subrange(0, n), x) is Some,
    ensures
        first_index(s, x) == first_index(s.subrange(0, n), x),
    decreases s.len() - n,
{
    if n < s.len() {
        let p = s.subrange(0, n + 1);
        assert(p.drop_last() == s.subrange(0, n));
        assert(p.subrange(0, n) == s.subrange(0, n));
        lemma_first_index_prefix(s, x, n + 1);
    } else {
        assert(s.subrange(0, n) == s);
    }
}

/// Where the elements are distinct, the first occurrence is the only one.
pub proof fn lemma_first_index_unique<T>(s: Seq<T>, x: T, k: int)
    requires
        0 <= k < s.len(),
        s[k] == x,
        forall|i: int, j: int| 0 <= i < j < s.len() ==> s[i] != s[j],
    ensures
        first_index(s, x) == Some(k),
{
    lemma_first_index_bounds(s, x);
}

/// In a sequence of distinct elements, `x` is found exactly where it stands.
pub proof fn lemma_distinct_lookup<T>(s: Seq<T>, x: T)
    requires
        forall|i: int, j: int| 0 <= i < j < s.len() ==> s[i] != s[j],
    ensures
        first_index(s, x) matches Some(k) ==> 0 <= k < s.len() && s[k] == x,
        first_index(s, x) is None <==> forall|k: int| 0 <= k < s.len() ==> s[k] != x,
        forall|k: int| 0 <= k < s.len() && s[k] == x ==> first_index(s, x) == Some(k),
{
    lemma_first_index_bounds(s, x);
    assert forall|k: int| 0 <= k < s.len() && s[k] == x implies first_index(s, x) == Some(k) by {
        lemma_first_index_unique(s, x, k);
    }
}

/// Finds the first string of `names` that reads as `name`.
pub fn find_string(names: &Vec<String>, name: &str) -> (r: Option<usize>)
    ensures
        r matches Some(i) ==> i as int == first_index(string_views(names@), name@)->0,
        r is Some <==> first_index(string_views(names@), name@) is Some,
{
    let key = name.to_owned();
    let ghost views = string_views(names@);
    let mut i: usize = 0;
    while i < names.len()
        invariant
            i <= names.len(),
            views == string_views(names@),
            key@ == name@,
            first_index(views.subrange(0, i as int), name@) is None,
        decreases names.len() - i,
    {
        assert(views.subrange(0, i + 1).drop_last() == views.subrange(0, i as int));
        if names[i] == key {
            proof {
                lemma_first_index_prefix(views, name@, i + 1);
            }
            return Some(i);
        }
        i = i + 1;
    }
    assert(views.subrange(0, i as int) == views);
    None
}

} // verus!
