//! The RSI document: cell size and a table of animation states keyed by full
//! name, plus the parser that opens a document from an RSI directory's files.

use vstd::prelude::*;

use crate::helpers::string::str_eq;
use crate::rsi::constants::{MAXIMUM_RSI_VERSION, MINIMUM_RSI_VERSION};
use crate::rsi::enums::RsiSelectors;
use crate::rsi::error::{RsiError, RsiErrorView};
use crate::rsi::helpers::{full_state_name, spec_full_name};
use crate::rsi::meta::{
    bytes_to_string, json_doc, meta_lookup, parse_meta_text, spec_lookup, utf8_decode, MetaValue,
};
use crate::rsi::state::{spec_state_from_meta, spec_state_meta_eq, FrameView, State, StateView};
use crate::tree::{find_file, spec_find_file, DirEntry};

verus! {

/// The metadata of an RSI document: the cell size shared by its states, and
/// the states in storage order.
pub struct RsiView {
    /// The pixel dimensions of one frame cell.
    pub size: (u32, u32),
    /// The document's states, in storage order, keyed by full name.
    pub states: Seq<StateView>,
}

/// The position of the first state of a given full name, or `-1` when no
/// state carries it.
pub open spec fn spec_state_index(states: Seq<StateView>, full_name: Seq<char>) -> int
    decreases states.len(),
{
    if states.len() == 0 {
        -1
    } else if states[0].full_name == full_name {
        0
    } else {
        let rest = spec_state_index(states.drop_first(), full_name);
        if rest < 0 {
            -1
        } else {
            1 + rest
        }
    }
}

/// What the index of a full name means: when non-negative it points at the
/// first state carrying the name; when negative no state carries it.
pub proof fn lemma_state_index(states: Seq<StateView>, full_name: Seq<char>)
    ensures
        spec_state_index(states, full_name) >= 0 ==> {
            &&& spec_state_index(states, full_name) < states.len()
            &&& states[spec_state_index(states, full_name)].full_name == full_name
            &&& forall|j: int|
                0 <= j < spec_state_index(states, full_name) ==> states[j].full_name != full_name
        },
        spec_state_index(states, full_name) < 0 ==> forall|j: int|
            0 <= j < states.len() ==> states[j].full_name != full_name,
    decreases states.len(),
{
    if states.len() > 0 && states[0].full_name != full_name {
        lemma_state_index(states.drop_first(), full_name);
        assert forall|j: int| 1 <= j < states.len() implies states.drop_first()[j - 1]
            == states[j] by {}
    }
}

/// The state a full name designates: the first of that name, if any.
pub open spec fn spec_get_state(states: Seq<StateView>, full_name: Seq<char>) -> Option<
    StateView,
> {
    let i = spec_state_index(states, full_name);
    if i < 0 {
        None
    } else {
        Some(states[i])
    }
}

/// What adding a state to the table comes to: a state already carrying the
/// same full name is replaced in place; otherwise the state is appended.
pub open spec fn spec_add_state(states: Seq<StateView>, st: StateView) -> Seq<StateView> {
    let i = spec_state_index(states, st.full_name);
    if i < 0 {
        states.push(st)
    } else {
        states.update(i, st)
    }
}

impl RsiView {
    /// A document is well formed when its cell size is positive in both
    /// dimensions, its states are keyed uniquely by full name, each is well
    /// formed, and each shares the document's cell size.
    pub open spec fn wf(&self) -> bool {
        &&& self.size.0 > 0 && self.size.1 > 0
        &&& forall|i: int, j: int|
            0 <= i < j < self.states.len() ==> (#[trigger] self.states[i]).full_name
                != (#[trigger] self.states[j]).full_name
        &&& forall|i: int| 0 <= i < self.states.len() ==> (#[trigger] self.states[i]).wf()
        &&& forall|i: int|
            0 <= i < self.states.len() ==> (#[trigger] self.states[i]).size == self.size
    }
}

/// Whether the metadata of document `a` is covered by document `b`: the cell
/// sizes agree and every state of `a` has a state of the same full name in
/// `b` with equal metadata. Pixel data takes no part.
pub open spec fn spec_meta_eq(a: RsiView, b: RsiView) -> bool {
    &&& a.size == b.size
    &&& forall|i: int|
        0 <= i < a.states.len() ==> {
            let m = spec_get_state(b.states, (#[trigger] a.states[i]).full_name);
            &&& m is Some
            &&& spec_state_meta_eq(a.states[i], m->Some_0)
        }
}

/// Represents an RSI.
#[derive(Debug)]
pub struct Rsi {
    /// The dimensions of the RSI's images.
    size: (u32, u32),
    /// The states, keyed by full name.
    states: Vec<State>,
}

impl View for Rsi {
    type V = RsiView;

    closed spec fn view(&self) -> RsiView {
        RsiView { size: self.size, states: self.states@.map_values(|s: State| s@) }
    }
}

impl Rsi {
    /// Returns a new RSI with a set pair of dimensions and no states. The
    /// cell size must be positive in both dimensions.
    pub fn new(size: (u32, u32)) -> (r: Rsi)
        requires
            size.0 > 0,
            size.1 > 0,
        ensures
            r@ == (RsiView { size, states: Seq::empty() }),
            r@.wf(),
    {
        let rsi = Rsi { size, states: Vec::new() };
        proof {
            assert(rsi@.states =~= Seq::<StateView>::empty());
        }
        rsi
    }

    pub fn get_size(&self) -> (r: (u32, u32))
        ensures
            r == self@.size,
    {
        self.size
    }

    /// Finds the position of a state by full name.
    fn find_index(&self, full_name: &str) -> (r: Option<usize>)
        ensures
            match r {
                Some(i) => i == spec_state_index(self@.states, full_name@),
                None => spec_state_index(self@.states, full_name@) < 0,
            },
    {
        proof {
            lemma_state_index(self@.states, full_name@);
        }
        let mut i: usize = 0;
        while i < self.states.len()
            invariant
                i <= self.states@.len(),
                forall|j: int|
                    0 <= j < i ==> (#[trigger] self@.states[j]).full_name != full_name@,
                spec_state_index(self@.states, full_name@) >= 0 ==> {
                    &&& spec_state_index(self@.states, full_name@) < self@.states.len()
                    &&& self@.states[spec_state_index(self@.states, full_name@)].full_name
                        == full_name@
                    &&& forall|j: int|
                        0 <= j < spec_state_index(self@.states, full_name@)
                            ==> self@.states[j].full_name != full_name@
                },
                spec_state_index(self@.states, full_name@) < 0 ==> forall|j: int|
                    0 <= j < self@.states.len() ==> self@.states[j].full_name != full_name@,
            decreases self.states@.len() - i,
        {
            if str_eq(self.states[i].get_full_name(), full_name) {
                proof {
                    let idx = spec_state_index(self@.states, full_name@);
                    assert(self@.states[i as int].full_name == full_name@);
                    if idx < 0 {
                        assert(self@.states[i as int].full_name != full_name@);
                    } else if idx < i as int {
                        assert(self@.states[idx].full_name != full_name@);
                    } else if idx > i as int {
                        assert(self@.states[i as int].full_name != full_name@);
                    }
                }
                return Some(i);
            }
            i += 1;
        }
        None
    }

    /// Gets a state by full name.
    pub fn get(&self, name: &str) -> (r: Option<&State>)
        ensures
            match r {
                Some(st) => spec_get_state(self@.states, name@) == Some(st@),
                None => spec_get_state(self@.states, name@) is None,
            },
    {
        proof {
            lemma_state_index(self@.states, name@);
        }
        match self.find_index(name) {
            Some(i) => Some(&self.states[i]),
            None => None,
        }
    }

    /// Gets a state by name and selectors.
    pub fn get_select(&self, name: &str, select: &[RsiSelectors]) -> (r: Option<&State>)
        ensures
            match r {
                Some(st) => spec_get_state(self@.states, spec_full_name(name@, select@)) == Some(
                    st@,
                ),
                None => spec_get_state(self@.states, spec_full_name(name@, select@)) is None,
            },
    {
        let full = full_state_name(name, select);
        self.get(full.as_str())
    }

    /// Gets a state by `StateId`.
    pub fn get_stateid(&self, id: &StateId) -> (r: Option<&State>)
        ensures
            match r {
                Some(st) => spec_get_state(
                    self@.states,
                    spec_full_name(id.name@, id.select@),
                ) == Some(st@),
                None => spec_get_state(self@.states, spec_full_name(id.name@, id.select@))
                    is None,
            },
    {
        let full = id.to_full_name();
        self.get(full.as_str())
    }

    /// Gets a mutable state by full name. What the caller makes of the state
    /// replaces the stored one when the borrow ends; a mutation that keeps the
    /// state's full name keeps the document well formed.
    pub fn get_mut(&mut self, name: &str) -> (r: Option<&mut State>)
        ensures
            match r {
                Some(st) => {
                    &&& spec_get_state(old(self)@.states, name@) == Some((*st)@)
                    &&& final(self)@.size == old(self)@.size
                    &&& final(self)@.states =~= old(self)@.states.update(
                        spec_state_index(old(self)@.states, name@),
                        (*final(st))@,
                    )
                },
                None => {
                    &&& spec_get_state(old(self)@.states, name@) is None
                    &&& final(self)@ == old(self)@
                },
            },
    {
        proof {
            lemma_state_index(self@.states, name@);
        }
        match self.find_index(name) {
            Some(i) => Some(&mut self.states[i]),
            None => None,
        }
    }

    /// Gets a mutable state by name and selectors.
    pub fn get_select_mut(&mut self, name: &str, select: &[RsiSelectors]) -> (r: Option<
        &mut State,
    >)
        ensures
            match r {
                Some(st) => {
                    &&& spec_get_state(
                        old(self)@.states,
                        spec_full_name(name@, select@),
                    ) == Some((*st)@)
                    &&& final(self)@.size == old(self)@.size
                    &&& final(self)@.states == old(self)@.states.update(
                        spec_state_index(old(self)@.states, spec_full_name(name@, select@)),
                        (*final(st))@,
                    )
                },
                None => {
                    &&& spec_get_state(old(self)@.states, spec_full_name(name@, select@))
                        is None
                    &&& final(self)@ == old(self)@
                },
            },
    {
        let full = full_state_name(name, select);
        self.get_mut(full.as_str())
    }

    /// Gets a mutable state by `StateId`.
    pub fn get_stateid_mut(&mut self, id: &StateId) -> (r: Option<&mut State>)
        ensures
            match r {
                Some(st) => {
                    &&& spec_get_state(
                        old(self)@.states,
                        spec_full_name(id.name@, id.select@),
                    ) == Some((*st)@)
                    &&& final(self)@.size == old(self)@.size
                    &&& final(self)@.states == old(self)@.states.update(
                        spec_state_index(
                            old(self)@.states,
                            spec_full_name(id.name@, id.select@),
                        ),
                        (*final(st))@,
                    )
                },
                None => {
                    &&& spec_get_state(
                        old(self)@.states,
                        spec_full_name(id.name@, id.select@),
                    ) is None
                    &&& final(self)@ == old(self)@
                },
            },
    {
        let full = id.to_full_name();
        self.get_mut(full.as_str())
    }

    /// Adds an existing state to this RSI, overriding any with the same full
    /// name. The state must share the document's cell size.
    pub fn add_state(&mut self, state: State)
        requires
            old(self)@.wf(),
            state@.wf(),
            state@.size == old(self)@.size,
        ensures
            final(self)@ == (RsiView {
                size: old(self)@.size,
                states: spec_add_state(old(self)@.states, state@),
            }),
            final(self)@.wf(),
    {
        proof {
            lemma_state_index(self@.states, state@.full_name);
        }
        let full = state.get_full_name();
        match self.find_index(full) {
            Some(i) => {
                self.states.set(i, state);
            },
            None => {
                self.states.push(state);
            },
        }
        proof {
            assert(self@.states =~= spec_add_state(old(self)@.states, state@));
        }
    }

    /// Makes a new state with this RSI's cell size and adds it, overriding
    /// any state with the same name and selectors.
    pub fn new_state(&mut self, name: &str, select: &[RsiSelectors], directions: u8)
        requires
            old(self)@.wf(),
        ensures
            final(self)@ == (RsiView {
                size: old(self)@.size,
                states: spec_add_state(
                    old(self)@.states,
                    StateView {
                        name: name@,
                        full_name: spec_full_name(name@, select@),
                        size: old(self)@.size,
                        directions,
                        selectors: select@,
                        flags: Seq::empty(),
                        frames: Seq::new(
                            directions as nat,
                            |d: int| Seq::<FrameView>::empty(),
                        ),
                    },
                ),
            }),
            final(self)@.wf(),
    {
        let state = State::new(name, select, self.size, directions);
        self.add_state(state);
    }

    /// Returns an iterator over the states of this RSI in storage order.
    pub fn iter_states<'a>(&'a self) -> (r: States<'a>)
        ensures
            r.spec_states() == self@.states,
            r.spec_pos() == 0,
    {
        States { states: &self.states, pos: 0 }
    }

    /// Checks whether this RSI's metadata is covered by another's: equal cell
    /// size, and for every state here a state of the same full name there
    /// with equal metadata. This does **not** check equality of the images
    /// themselves.
    pub fn metadata_equality(&self, other: &Rsi) -> (r: bool)
        ensures
            r == spec_meta_eq(self@, other@),
    {
        if self.size.0 != other.size.0 || self.size.1 != other.size.1 {
            return false;
        }
        let mut i: usize = 0;
        while i < self.states.len()
            invariant
                i <= self.states@.len(),
                self@.size == other@.size,
                forall|j: int|
                    0 <= j < i ==> {
                        let m = spec_get_state(
                            other@.states,
                            (#[trigger] self@.states[j]).full_name,
                        );
                        &&& m is Some
                        &&& spec_state_meta_eq(self@.states[j], m->Some_0)
                    },
            decreases self.states@.len() - i,
        {
            let state = &self.states[i];
            match other.get(state.get_full_name()) {
                Some(other_state) => {
                    if !state.metadata_equality(other_state) {
                        proof {
                            let k = i as int;
                            assert(!spec_state_meta_eq(
                                self@.states[k],
                                spec_get_state(
                                    other@.states,
                                    self@.states[k].full_name,
                                )->Some_0,
                            ));
                        }
                        return false;
                    }
                },
                None => {
                    proof {
                        let k = i as int;
                        assert(spec_get_state(other@.states, self@.states[k].full_name)
                            is None);
                    }
                    return false;
                },
            }
            i += 1;
        }
        proof {
            assert(self@.size =~= other@.size);
        }
        true
    }
}

/// What folding the manifest's `states` array into a state table yields:
/// each element must be an object and is parsed independently; parsed states
/// are added in array order, a later state overriding an earlier one of the
/// same full name. The first failure aborts the whole document.
pub open spec fn spec_fold_states(
    arr: Seq<MetaValue>,
    files: Seq<DirEntry>,
    size: (u32, u32),
    acc: Seq<StateView>,
) -> Result<Seq<StateView>, RsiErrorView>
    decreases arr.len(),
{
    if arr.len() == 0 {
        Ok(acc)
    } else {
        match arr[0] {
            MetaValue::Object(fields) => match spec_state_from_meta(fields@, files, size) {
                Ok(st) => spec_fold_states(arr.drop_first(), files, size, spec_add_state(acc, st)),
                Err(e) => Err(e),
            },
            _ => Err(RsiErrorView::Metadata("State not an object."@)),
        }
    }
}

/// What validating a parsed manifest document against the directory's files
/// yields: the document's version must be an unsigned integer within the
/// supported range, its size an object of two positive unsigned integers,
/// its `states` an array of objects, each parsed and sliced in turn.
pub open spec fn spec_open_doc(doc: MetaValue, files: Seq<DirEntry>) -> Result<
    RsiView,
    RsiErrorView,
> {
    match doc {
        MetaValue::Object(fields) => match spec_lookup(fields@, "version"@) {
            Some(MetaValue::UInt(version)) => if MAXIMUM_RSI_VERSION < version || version
                < MINIMUM_RSI_VERSION {
                Err(RsiErrorView::Version)
            } else {
                match spec_lookup(fields@, "size"@) {
                    Some(MetaValue::Object(size_fields)) => match spec_lookup(
                        size_fields@,
                        "x"@,
                    ) {
                        Some(MetaValue::UInt(x)) => match spec_lookup(size_fields@, "y"@) {
                            Some(MetaValue::UInt(y)) => {
                                let size = ((x as u32), (y as u32));
                                if size.0 == 0 || size.1 == 0 {
                                    Err(RsiErrorView::Metadata("Size must not be zero."@))
                                } else {
                                    match spec_lookup(fields@, "states"@) {
                                        Some(MetaValue::Array(arr)) => match spec_fold_states(
                                            arr@,
                                            files,
                                            size,
                                            Seq::empty(),
                                        ) {
                                            Ok(states) => Ok(RsiView { size, states }),
                                            Err(e) => Err(e),
                                        },
                                        _ => Err(
                                            RsiErrorView::Metadata("States not an array."@),
                                        ),
                                    }
                                }
                            },
                            _ => Err(RsiErrorView::Metadata("Size: y not included."@)),
                        },
                        _ => Err(RsiErrorView::Metadata("Size: x not included."@)),
                    },
                    _ => Err(RsiErrorView::Metadata("Size not an object."@)),
                }
            },
            _ => Err(RsiErrorView::Metadata("Version not a number."@)),
        },
        _ => Err(RsiErrorView::Metadata("Not a root object"@)),
    }
}

/// What opening an RSI directory yields: its `meta.json` must be present,
/// readable and valid JSON; the document is then validated and its states
/// sliced against the directory's atlas images.
pub open spec fn spec_open(files: Seq<DirEntry>) -> Result<RsiView, RsiErrorView> {
    match spec_find_file(files, "meta.json"@) {
        Some(Some(bytes)) => match utf8_decode(bytes) {
            Some(text) => match json_doc(text) {
                Some(doc) => spec_open_doc(doc, files),
                None => Err(RsiErrorView::Json),
            },
            None => Err(RsiErrorView::Io),
        },
        _ => Err(RsiErrorView::Io),
    }
}

impl Rsi {
    /// Opens an RSI from the files of a directory whose extension marked it
    /// as an RSI bundle: reads and validates `meta.json`, then parses and
    /// slices every declared state. The first failure aborts the whole
    /// document; no partial document is returned.
    pub fn open(files: &Vec<DirEntry>) -> (r: Result<Rsi, RsiError>)
        ensures
            match r {
                Ok(rsi) => {
                    &&& spec_open(files@) == Ok::<RsiView, RsiErrorView>(rsi@)
                    &&& rsi@.wf()
                    &&& forall|i: int|
                        0 <= i < rsi@.states.len() ==> (#[trigger] rsi@.states[i])
                            .each_direction_framed()
                },
                Err(e) => spec_open(files@) == Err::<RsiView, RsiErrorView>(e@),
            },
    {
        let meta_bytes: &Vec<u8> = match find_file(files, "meta.json") {
            Some(content) => match content {
                Some(b) => b,
                None => {
                    return Err(RsiError::Io);
                },
            },
            None => {
                return Err(RsiError::Io);
            },
        };
        let text = match bytes_to_string(meta_bytes) {
            Some(t) => t,
            None => {
                return Err(RsiError::Io);
            },
        };
        let doc = match parse_meta_text(text.as_str()) {
            Ok(d) => d,
            Err(m) => {
                return Err(RsiError::Json(m));
            },
        };
        let fields: &Vec<(String, MetaValue)> = match &doc {
            MetaValue::Object(f) => f,
            _ => {
                return Err(RsiError::Metadata(String::from_str("Not a root object")));
            },
        };
        let version: u64 = match meta_lookup(fields, "version") {
            Some(MetaValue::UInt(v)) => *v,
            _ => {
                return Err(RsiError::Metadata(String::from_str("Version not a number.")));
            },
        };
        if MAXIMUM_RSI_VERSION < version || version < MINIMUM_RSI_VERSION {
            return Err(RsiError::Version);
        }
        let size_fields: &Vec<(String, MetaValue)> = match meta_lookup(fields, "size") {
            Some(MetaValue::Object(o)) => o,
            _ => {
                return Err(RsiError::Metadata(String::from_str("Size not an object.")));
            },
        };
        let x: u32 = match meta_lookup(size_fields, "x") {
            Some(MetaValue::UInt(x)) => #[verifier::truncate] (*x as u32),
            _ => {
                return Err(RsiError::Metadata(String::from_str("Size: x not included.")));
            },
        };
        let y: u32 = match meta_lookup(size_fields, "y") {
            Some(MetaValue::UInt(y)) => #[verifier::truncate] (*y as u32),
            _ => {
                return Err(RsiError::Metadata(String::from_str("Size: y not included.")));
            },
        };
        if x == 0 || y == 0 {
            return Err(RsiError::Metadata(String::from_str("Size must not be zero.")));
        }
        let arr: &Vec<MetaValue> = match meta_lookup(fields, "states") {
            Some(MetaValue::Array(a)) => a,
            _ => {
                return Err(RsiError::Metadata(String::from_str("States not an array.")));
            },
        };
        let mut rsi = Rsi { size: (x, y), states: Vec::new() };
        proof {
            assert(rsi@.states =~= Seq::<StateView>::empty());
            assert(arr@.skip(0) =~= arr@);
        }
        let mut i: usize = 0;
        while i < arr.len()
            invariant
                i <= arr@.len(),
                rsi@.size == (x, y),
                rsi@.wf(),
                x > 0,
                y > 0,
                spec_open(files@) == (match spec_fold_states(
                    arr@.skip(i as int),
                    files@,
                    (x, y),
                    rsi@.states,
                ) {
                    Ok(states) => Ok::<RsiView, RsiErrorView>(RsiView { size: (x, y), states }),
                    Err(e) => Err(e),
                }),
            decreases arr@.len() - i,
        {
            proof {
                assert(arr@.skip(i as int)[0] == arr@[i as int]);
                assert(arr@.skip(i as int).drop_first() =~= arr@.skip(i + 1));
            }
            match &arr[i] {
                MetaValue::Object(state_fields) => {
                    match State::from_json(state_fields, files, (x, y)) {
                        Ok(st) => {
                            rsi.add_state(st);
                        },
                        Err(e) => {
                            return Err(e);
                        },
                    }
                },
                _ => {
                    return Err(RsiError::Metadata(String::from_str("State not an object.")));
                },
            }
            i += 1;
        }
        proof {
            assert(arr@.skip(arr@.len() as int) =~= Seq::<MetaValue>::empty());
            assert(spec_open(files@) == Ok::<RsiView, RsiErrorView>(rsi@));
            crate::rsi::laws::lemma_open_states_framed(files@);
            assert forall|st_i: int| 0 <= st_i < rsi@.states.len() implies (
            #[trigger] rsi@.states[st_i]).each_direction_framed() by {
                assert(spec_open(files@)->Ok_0.states[st_i].each_direction_framed());
            }
        }
        Ok(rsi)
    }
}

/// An iterator over all the states in an RSI, in storage order.
pub struct States<'a> {
    states: &'a Vec<State>,
    pos: usize,
}

impl<'a> States<'a> {
    /// The states the iterator walks.
    pub closed spec fn spec_states(&self) -> Seq<StateView> {
        self.states@.map_values(|s: State| s@)
    }

    /// How many states the iterator has handed out.
    pub closed spec fn spec_pos(&self) -> int {
        self.pos as int
    }

    /// The next state, or `None` once all have been handed out.
    pub fn next(&mut self) -> (r: Option<&'a State>)
        ensures
            final(self).spec_states() == old(self).spec_states(),
            match r {
                Some(st) => {
                    &&& old(self).spec_pos() < old(self).spec_states().len()
                    &&& st@ == old(self).spec_states()[old(self).spec_pos()]
                    &&& final(self).spec_pos() == old(self).spec_pos() + 1
                },
                None => {
                    &&& old(self).spec_pos() >= old(self).spec_states().len()
                    &&& final(self).spec_pos() == old(self).spec_pos()
                },
            },
    {
        if self.pos < self.states.len() {
            let st = &self.states[self.pos];
            self.pos += 1;
            Some(st)
        } else {
            None
        }
    }
}

/// An identifier for a state in an RSI. Contains name and selectors.
#[derive(Debug)]
pub struct StateId {
    pub name: String,
    pub select: Vec<RsiSelectors>,
}

impl Clone for StateId {
    fn clone(&self) -> (r: Self)
        ensures
            r.name@ == self.name@,
            r.select@ == self.select@,
    {
        StateId {
            name: self.name.clone(),
            select: vstd::slice::slice_to_vec(self.select.as_slice()),
        }
    }
}

impl PartialEq for StateId {
    fn eq(&self, other: &StateId) -> (r: bool) {
        if !str_eq(self.name.as_str(), other.name.as_str()) {
            return false;
        }
        if self.select.len() != other.select.len() {
            return false;
        }
        let mut i: usize = 0;
        while i < self.select.len()
            invariant
                self.select@.len() == other.select@.len(),
                i <= self.select@.len(),
                forall|j: int| 0 <= j < i ==> self.select@[j] == other.select@[j],
            decreases self.select@.len() - i,
        {
            if self.select[i] != other.select[i] {
                return false;
            }
            i += 1;
        }
        proof {
            assert(self.select@ =~= other.select@);
        }
        true
    }
}

impl Eq for StateId {

}

impl vstd::std_specs::cmp::PartialEqSpecImpl for StateId {
    open spec fn obeys_eq_spec() -> bool {
        true
    }

    open spec fn eq_spec(&self, other: &StateId) -> bool {
        self.name@ == other.name@ && self.select@ == other.select@
    }
}

impl StateId {
    /// Create a new StateId with name, but no selectors.
    pub fn new(name: &str) -> (r: StateId)
        ensures
            r.name@ == name@,
            r.select@ == Seq::<RsiSelectors>::empty(),
    {
        let r = StateId { name: name.to_owned(), select: Vec::new() };
        proof {
            assert(r.select@ =~= Seq::<RsiSelectors>::empty());
        }
        r
    }

    /// Create a new StateId with name and selectors.
    pub fn with_select(name: &str, select: &[RsiSelectors]) -> (r: StateId)
        ensures
            r.name@ == name@,
            r.select@ == select@,
    {
        StateId { name: name.to_owned(), select: vstd::slice::slice_to_vec(select) }
    }

    /// Returns the "full name" of this state.
    ///
    /// The full name is the name and selectors of a state combined into one
    /// string, for storing on disk.
    pub fn to_full_name(&self) -> (r: String)
        ensures
            r@ == spec_full_name(self.name@, self.select@),
    {
        full_state_name(self.name.as_str(), self.select.as_slice())
    }
}

/// Represents a "position" inside an RSI.
///
/// It can be seen as an identifier for all individual icons stored in an RSI.
#[derive(Debug)]
pub struct RsiRef {
    pub state: StateId,
    pub dir: u8,
    pub frame: usize,
}

impl Clone for RsiRef {
    fn clone(&self) -> (r: Self)
        ensures
            r.state.name@ == self.state.name@,
            r.state.select@ == self.state.select@,
            r.dir == self.dir,
            r.frame == self.frame,
    {
        RsiRef { state: self.state.clone(), dir: self.dir, frame: self.frame }
    }
}

impl RsiRef {
    pub fn new(state: &StateId, dir: u8, frame: usize) -> (r: RsiRef)
        ensures
            r.state.name@ == state.name@,
            r.state.select@ == state.select@,
            r.dir == dir,
            r.frame == frame,
    {
        RsiRef { state: state.clone(), dir, frame }
    }
}

} // verus!
