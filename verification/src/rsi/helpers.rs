use vstd::prelude::*;

use crate::helpers::string::{concat_vec, spec_concat};
use crate::rsi::enums::{spec_selector_text, RsiSelectors};

verus! {

/// The full name of a state: its base name, followed — only when there are
/// selectors — by `+` and the selectors joined with `+` (as in `wrench+m`).
pub open spec fn spec_full_name(name: Seq<char>, select: Seq<RsiSelectors>) -> Seq<char> {
    if select.len() > 0 {
        name + "+"@ + spec_concat(select.map_values(|s: RsiSelectors| spec_selector_text(s)), "+"@)
    } else {
        name
    }
}

/// Turns a name and slice of selectors into a full state name like `wrench+m`.
pub fn full_state_name(name: &str, select: &[RsiSelectors]) -> (r: String)
    ensures
        r@ == spec_full_name(name@, select@),
{
    let mut full = name.to_owned();
    if select.len() > 0 {
        let mut texts: Vec<String> = Vec::new();
        let mut i: usize = 0;
        while i < select.len()
            invariant
                i <= select@.len(),
                texts@.len() == i,
                forall|j: int| 0 <= j < i ==> texts@[j]@ == spec_selector_text(select@[j]),
            decreases select@.len() - i,
        {
            texts.push(select[i].text());
            i += 1;
        }
        proof {
            assert(texts@.map_values(|s: String| s@) =~= select@.map_values(
                |s: RsiSelectors| spec_selector_text(s),
            ));
        }
        full.append("+");
        let joined = concat_vec(&texts, "+");
        full.append(joined.as_str());
    }
    full
}

} // verus!
