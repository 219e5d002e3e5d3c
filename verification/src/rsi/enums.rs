use vstd::prelude::*;

verus! {

/// A selector tag qualifying a state's identity. Selectors take part in a
/// state's full name (joined to the base name with `+`, as in `wrench+m`).
/// They are reserved for future use: manifests currently always parse with an
/// empty selector list.
#[derive(Clone, Copy, Debug, PartialEq, Eq, Structural)]
pub enum RsiSelectors {
    /// The `m` tag.
    Male,
    /// The `f` tag.
    Female,
}

/// What a selector contributes to a full state name.
pub open spec fn spec_selector_text(s: RsiSelectors) -> Seq<char> {
    match s {
        RsiSelectors::Male => "m"@,
        RsiSelectors::Female => "f"@,
    }
}

impl RsiSelectors {
    /// The textual form of this selector as it appears in full state names.
    pub fn text(&self) -> (r: String)
        ensures
            r@ == spec_selector_text(*self),
    {
        match self {
            RsiSelectors::Male => String::from_str("m"),
            RsiSelectors::Female => String::from_str("f"),
        }
    }
}

/// Extensible per-state metadata. Flags are carried through parsing untouched
/// and are not interpreted by it.
#[derive(Clone, Copy, Debug, PartialEq, Eq, Structural)]
pub enum RsiFlags {
    /// The state should not be listed by editor tooling.
    Hidden,
}

} // verus!
