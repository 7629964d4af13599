//! Lists of names, and the first repeated name in a list.
use vstd::prelude::*;

verus! {

/// The texts of a list of strings.
pub open spec fn texts(v: Seq<String>) -> Seq<Seq<char>> {
    v.map_values(|s: String| s@)
}

/// The index of the first name that repeats an earlier one, if there is one.
pub open spec fn first_repeat(names: Seq<Seq<char>>) -> Option<int>
    decreases names.len(),
{
    if names.len() == 0 {
        None
    } else {
        match first_repeat(names.drop_last()) {
            Some(j) => Some(j),
            None => if names.drop_last().contains(names.last()) {
                Some(names.len() - 1)
            } else {
                None
            },
        }
    }
}

pub proof fn lemma_first_repeat_bounds(names: Seq<Seq<char>>)
    ensures
        first_repeat(names) matches Some(j) ==> 0 < j < names.len()
            && names.take(j).contains(names[j])
            && first_repeat(names.take(j)) is None,
    decreases names.len(),
{
    if names.len() > 0 {
        lemma_first_repeat_bounds(names.drop_last());
        if let Some(j) = first_repeat(names.drop_last()) {
            assert(names.drop_last().take(j) =~= names.take(j));
        } else if names.drop_last().contains(names.last()) {
            assert(names.take(names.len() - 1) =~= names.drop_last());
        }
    }
}

/// Whether `v` holds a string with the same text as `s`.
pub fn contains_text(v: &Vec<String>, s: &String) -> (r: bool)
    ensures
        r == texts(v@).contains(s@),
{
    let mut k: usize = 0;
    while k < v.len()
        invariant
            k <= v@.len(),
            forall|j: int| 0 <= j < k ==> v@[j]@ != s@,
        decreases v@.len() - k,
    {
        if v[k] == *s {
            proof {
                assert(texts(v@)[k as int] == s@);
            }
            return true;
        }
        k = k + 1;
    }
    proof {
        if texts(v@).contains(s@) {
            let j = choose|j: int| 0 <= j < texts(v@).len() && texts(v@)[j] == s@;
            assert(v@[j]@ == s@);
        }
    }
    false
}

/// Extending a list by one name extends its texts by that name's text.
pub proof fn lemma_texts_push(v: Seq<String>, s: String)
    ensures
        texts(v.push(s)) == texts(v).push(s@),
{
    assert(texts(v.push(s)) =~= texts(v).push(s@));
}

/// The first repeat of a list that has none so far, extended by one name.
pub proof fn lemma_first_repeat_push(names: Seq<Seq<char>>, n: Seq<char>)
    requires
        first_repeat(names) is None,
    ensures
        first_repeat(names.push(n)) == (if names.contains(n) { Some(names.len() as int) } else { None::<int> }),
{
    assert(names.push(n).drop_last() =~= names);
}

} // verus!

verus! {

/// A copy of a list of names.
pub fn copy_names(v: &Vec<String>) -> (r: Vec<String>)
    ensures
        r@ == v@,
{
    let mut r: Vec<String> = Vec::new();
    let mut k: usize = 0;
    while k < v.len()
        invariant
            k <= v@.len(),
            r@ == v@.take(k as int),
        decreases v@.len() - k,
    {
        r.push(v[k].clone());
        assert(v@.take(k + 1) =~= v@.take(k as int).push(v@[k as int]));
        k = k + 1;
    }
    assert(v@.take(v@.len() as int) =~= v@);
    r
}

} // verus!
