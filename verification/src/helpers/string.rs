use vstd::prelude::*;

verus! {

/// What joining a sequence of strings comes to when each element is appended
/// to the accumulator, with the separator inserted only once the accumulator
/// is non-empty. Elements that are themselves empty therefore do not give
/// rise to a leading separator.
pub open spec fn spec_concat(items: Seq<Seq<char>>, separator: Seq<char>) -> Seq<char>
    decreases items.len(),
{
    if items.len() == 0 {
        Seq::empty()
    } else {
        let acc = spec_concat(items.drop_last(), separator);
        if acc.len() > 0 {
            acc + separator + items.last()
        } else {
            items.last()
        }
    }
}

/// Compares two string slices character by character.
pub fn str_eq(a: &str, b: &str) -> (r: bool)
    ensures
        r == (a@ == b@),
{
    let alen = a.unicode_len();
    let blen = b.unicode_len();
    if alen != blen {
        return false;
    }
    let mut i: usize = 0;
    while i < alen
        invariant
            alen == a@.len(),
            blen == b@.len(),
            alen == blen,
            i <= alen,
            forall|j: int| 0 <= j < i ==> a@[j] == b@[j],
        decreases alen - i,
    {
        if a.get_char(i) != b.get_char(i) {
            return false;
        }
        i += 1;
    }
    proof {
        assert(a@ =~= b@);
    }
    true
}

/// Joins a vector of strings into a single `String` with a separator between
/// non-empty prefixes.
pub fn concat_vec(items: &Vec<String>, separator: &str) -> (r: String)
    ensures
        r@ == spec_concat(items@.map_values(|s: String| s@), separator@),
{
    let ghost views = items@.map_values(|s: String| s@);
    let mut acc = String::new();
    let mut i: usize = 0;
    while i < items.len()
        invariant
            i <= items@.len(),
            views == items@.map_values(|s: String| s@),
            acc@ == spec_concat(views.take(i as int), separator@),
        decreases items@.len() - i,
    {
        proof {
            assert(views.take(i + 1 as int).drop_last() =~= views.take(i as int));
            assert(views.take(i + 1 as int).last() == views[i as int]);
        }
        if !acc.as_str().is_empty() {
            acc.append(separator);
        }
        acc.append(items[i].as_str());
        i += 1;
    }
    proof {
        assert(views.take(items@.len() as int) =~= views);
    }
    acc
}

} // verus!
