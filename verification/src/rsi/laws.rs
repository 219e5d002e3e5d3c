//! Properties of the RSI parser and document model, stated and proved once
//! for all inputs.

use vstd::prelude::*;

use crate::rsi::constants::{MAXIMUM_RSI_VERSION, MINIMUM_RSI_VERSION};
use crate::rsi::error::RsiErrorView;
use crate::rsi::meta::{spec_lookup, MetaValue};
use crate::rsi::rsi::{
    lemma_state_index, spec_add_state, spec_fold_states, spec_get_state, spec_meta_eq,
    spec_open, spec_open_doc, spec_state_index, Rsi, RsiView,
};
use crate::rsi::state::{
    lemma_state_framed, spec_delay_row, spec_delay_rows, spec_state_from_meta,
    spec_state_meta_eq, StateView,
};
use crate::tree::DirEntry;

verus! {

/// A delay row parse never fails with anything but a `Metadata` error.
proof fn lemma_delay_row_errors(items: Seq<MetaValue>)
    ensures
        spec_delay_row(items) matches Err(e) ==> e is Metadata,
    decreases items.len(),
{
    if items.len() > 0 {
        lemma_delay_row_errors(items.drop_first());
    }
}

/// A delays parse never fails with anything but a `Metadata` error.
proof fn lemma_delay_rows_errors(arr: Seq<MetaValue>, directions: int)
    ensures
        spec_delay_rows(arr, directions) matches Err(e) ==> e is Metadata,
    decreases directions,
{
    if directions > 0 && arr.len() > 0 {
        match arr[0] {
            MetaValue::Array(items) => {
                lemma_delay_row_errors(items@);
                lemma_delay_rows_errors(arr.drop_first(), directions - 1);
            },
            _ => {},
        }
    }
}

/// A state parse never fails with a `Version` error: out-of-range versions
/// are diagnosed at the document level and nowhere else.
proof fn lemma_state_errors_no_version(
    fields: Seq<(String, MetaValue)>,
    files: Seq<DirEntry>,
    size: (u32, u32),
)
    ensures
        spec_state_from_meta(fields, files, size) matches Err(e) ==> !(e is Version),
{
    match spec_lookup(fields, "directions"@) {
        Some(MetaValue::UInt(dirs)) => {
            lemma_delay_rows_errors(
                match spec_lookup(fields, "delays"@) {
                    Some(MetaValue::Array(arr)) => arr@,
                    _ => Seq::empty(),
                },
                (dirs as u8) as int,
            );
        },
        _ => {},
    }
}

/// Folding the states array never fails with a `Version` error.
proof fn lemma_fold_errors_no_version(
    arr: Seq<MetaValue>,
    files: Seq<DirEntry>,
    size: (u32, u32),
    acc: Seq<StateView>,
)
    ensures
        spec_fold_states(arr, files, size, acc) matches Err(e) ==> !(e is Version),
    decreases arr.len(),
{
    if arr.len() > 0 {
        match arr[0] {
            MetaValue::Object(fields) => {
                lemma_state_errors_no_version(fields@, files, size);
                match spec_state_from_meta(fields@, files, size) {
                    Ok(st) => {
                        lemma_fold_errors_no_version(
                            arr.drop_first(),
                            files,
                            size,
                            spec_add_state(acc, st),
                        );
                    },
                    Err(_) => {},
                }
            },
            _ => {},
        }
    }
}

/// The supported version window is a closed interval, and the `Version`
/// error marks exactly its violation: a manifest whose `version` field holds
/// the unsigned integer `v` is rejected with `Version` precisely when
/// `v < MINIMUM_RSI_VERSION` or `MAXIMUM_RSI_VERSION < v`; in particular a
/// manifest that is otherwise valid is accepted exactly when
/// `MINIMUM_RSI_VERSION <= v <= MAXIMUM_RSI_VERSION`.
pub proof fn lemma_version_bounds(doc: MetaValue, files: Seq<DirEntry>, v: u64)
    requires
        doc matches MetaValue::Object(fields) && spec_lookup(fields@, "version"@) == Some(
            MetaValue::UInt(v),
        ),
    ensures
        spec_open_doc(doc, files) == Err::<RsiView, RsiErrorView>(RsiErrorView::Version) <==> (v
            < MINIMUM_RSI_VERSION || MAXIMUM_RSI_VERSION < v),
        spec_open_doc(doc, files) is Ok ==> MINIMUM_RSI_VERSION <= v <= MAXIMUM_RSI_VERSION,
{
    let fields = doc->Object_0;
    if MINIMUM_RSI_VERSION <= v <= MAXIMUM_RSI_VERSION {
        match spec_lookup(fields@, "size"@) {
            Some(MetaValue::Object(size_fields)) => {
                match (spec_lookup(size_fields@, "x"@), spec_lookup(size_fields@, "y"@)) {
                    (Some(MetaValue::UInt(x)), Some(MetaValue::UInt(y))) => {
                        if x as u32 != 0 && y as u32 != 0 {
                            match spec_lookup(fields@, "states"@) {
                                Some(MetaValue::Array(arr)) => {
                                    lemma_fold_errors_no_version(
                                        arr@,
                                        files,
                                        ((x as u32), (y as u32)),
                                        Seq::empty(),
                                    );
                                },
                                _ => {},
                            }
                        }
                    },
                    _ => {},
                }
            },
            _ => {},
        }
    }
}

/// A manifest whose `size` object misses the `x` field (or holds it with the
/// wrong type) fails with a `Metadata` error naming the missing field; the
/// same holds of `y` once `x` is present. Both are diagnosed only after the
/// version was found valid.
pub proof fn lemma_size_fields_required(doc: MetaValue, files: Seq<DirEntry>, v: u64)
    requires
        doc matches MetaValue::Object(fields) && spec_lookup(fields@, "version"@) == Some(
            MetaValue::UInt(v),
        ),
        MINIMUM_RSI_VERSION <= v <= MAXIMUM_RSI_VERSION,
    ensures
        (match spec_lookup(doc->Object_0@, "size"@) {
            Some(MetaValue::Object(size_fields)) => !(spec_lookup(
                size_fields@,
                "x"@,
            ) matches Some(MetaValue::UInt(_))),
            _ => false,
        }) ==> spec_open_doc(doc, files) == Err::<RsiView, RsiErrorView>(
            RsiErrorView::Metadata("Size: x not included."@),
        ),
        (match spec_lookup(doc->Object_0@, "size"@) {
            Some(MetaValue::Object(size_fields)) => (spec_lookup(
                size_fields@,
                "x"@,
            ) matches Some(MetaValue::UInt(_))) && !(spec_lookup(
                size_fields@,
                "y"@,
            ) matches Some(MetaValue::UInt(_))),
            _ => false,
        }) ==> spec_open_doc(doc, files) == Err::<RsiView, RsiErrorView>(
            RsiErrorView::Metadata("Size: y not included."@),
        ),
{
}

/// A declared `delays` array whose outer length differs from the declared
/// direction count fails the state's parse with a `Metadata` error, whatever
/// its contents; the parse returns no partial state.
pub proof fn lemma_delays_wrong_length(
    fields: Seq<(String, MetaValue)>,
    files: Seq<DirEntry>,
    size: (u32, u32),
    arr: Vec<MetaValue>,
    dirs: u64,
)
    requires
        spec_lookup(fields, "name"@) matches Some(MetaValue::Text(_)),
        spec_lookup(fields, "directions"@) == Some(MetaValue::UInt(dirs)),
        spec_lookup(fields, "delays"@) == Some(MetaValue::Array(arr)),
        arr@.len() != (dirs as u8) as int,
    ensures
        spec_state_from_meta(fields, files, size) is Err,
        spec_state_from_meta(fields, files, size)->Err_0 is Metadata,
{
    lemma_delay_rows_wrong_length(arr@, (dirs as u8) as int);
}

/// A delays array of the wrong outer length always fails, with a `Metadata`
/// error.
proof fn lemma_delay_rows_wrong_length(arr: Seq<MetaValue>, directions: int)
    requires
        directions >= 0,
        arr.len() != directions,
    ensures
        spec_delay_rows(arr, directions) is Err,
        spec_delay_rows(arr, directions)->Err_0 is Metadata,
    decreases directions,
{
    if directions > 0 && arr.len() > 0 {
        match arr[0] {
            MetaValue::Array(items) => {
                lemma_delay_row_errors(items@);
                if spec_delay_row(items@) is Ok {
                    lemma_delay_rows_wrong_length(arr.drop_first(), directions - 1);
                }
            },
            _ => {},
        }
    }
}

/// Metadata equality is reflexive: every well-formed document covers itself.
pub proof fn lemma_metadata_eq_reflexive(doc: RsiView)
    requires
        doc.wf(),
    ensures
        spec_meta_eq(doc, doc),
{
    assert forall|i: int| 0 <= i < doc.states.len() implies {
        let m = spec_get_state(doc.states, (#[trigger] doc.states[i]).full_name);
        &&& m is Some
        &&& spec_state_meta_eq(doc.states[i], m->Some_0)
    } by {
        lemma_state_index(doc.states, doc.states[i].full_name);
        let idx = spec_state_index(doc.states, doc.states[i].full_name);
        if idx < 0 {
            assert(doc.states[i].full_name != doc.states[i].full_name);
        } else if idx < i {
            assert(doc.states[idx].full_name != doc.states[i].full_name);
        } else if idx > i {
            assert(doc.states[i].full_name != doc.states[i].full_name);
        }
    }
}

/// Pixel content takes no part in metadata equality: two documents with equal
/// metadata compare equal however their frames' images differ, since a
/// document's metadata view carries no pixel data at all.
pub proof fn lemma_metadata_eq_ignores_pixels(a: Rsi, b: Rsi)
    requires
        a@ == b@,
        a@.wf(),
    ensures
        spec_meta_eq(a@, b@),
{
    lemma_metadata_eq_reflexive(a@);
}

/// A full name designates the same position in two state tables whose states
/// carry the same full names position for position.
proof fn lemma_state_index_same_names(a: Seq<StateView>, b: Seq<StateView>, name: Seq<char>)
    requires
        a.len() == b.len(),
        forall|j: int| 0 <= j < a.len() ==> (#[trigger] a[j]).full_name == b[j].full_name,
    ensures
        spec_state_index(a, name) == spec_state_index(b, name),
    decreases a.len(),
{
    if a.len() > 0 && a[0].full_name != name {
        assert forall|j: int| 0 <= j < a.drop_first().len() implies (#[trigger] a.drop_first()[j])
            .full_name == b.drop_first()[j].full_name by {
            assert(a.drop_first()[j] == a[j + 1]);
            assert(b.drop_first()[j] == b[j + 1]);
        }
        lemma_state_index_same_names(a.drop_first(), b.drop_first(), name);
    }
}

/// Two documents that agree state for state on all compared metadata -- name,
/// full name, cell size, direction count and flags -- compare equal, whatever
/// their frames and pixel content hold.
pub proof fn lemma_metadata_eq_by_metadata(a: RsiView, b: RsiView)
    requires
        a.size == b.size,
        a.states.len() == b.states.len(),
        forall|i: int|
            0 <= i < a.states.len() ==> spec_state_meta_eq(#[trigger] a.states[i], b.states[i]),
        a.wf(),
    ensures
        spec_meta_eq(a, b),
{
    assert forall|i: int| 0 <= i < a.states.len() implies {
        let m = spec_get_state(b.states, (#[trigger] a.states[i]).full_name);
        &&& m is Some
        &&& spec_state_meta_eq(a.states[i], m->Some_0)
    } by {
        let name = a.states[i].full_name;
        lemma_state_index_same_names(a.states, b.states, name);
        lemma_state_index(a.states, name);
        let idx = spec_state_index(a.states, name);
        if idx < 0 {
            assert(a.states[i].full_name != name);
        } else if idx < i {
            assert(a.states[idx].full_name != a.states[i].full_name);
        } else if idx > i {
            assert(a.states[i].full_name != name);
        }
        assert(spec_state_index(b.states, name) == i);
    }
}

/// Folding the states array keeps every accumulated state framed: the states
/// it adds come from the per-state parse, which never accepts a direction of
/// zero frames.
proof fn lemma_fold_framed(
    arr: Seq<MetaValue>,
    files: Seq<DirEntry>,
    size: (u32, u32),
    acc: Seq<StateView>,
)
    requires
        forall|i: int| 0 <= i < acc.len() ==> (#[trigger] acc[i]).each_direction_framed(),
    ensures
        spec_fold_states(arr, files, size, acc) matches Ok(states) ==> forall|i: int|
            0 <= i < states.len() ==> (#[trigger] states[i]).each_direction_framed(),
    decreases arr.len(),
{
    if arr.len() > 0 {
        match arr[0] {
            MetaValue::Object(fields) => {
                match spec_state_from_meta(fields@, files, size) {
                    Ok(st) => {
                        lemma_state_framed(fields@, files, size);
                        let acc2 = spec_add_state(acc, st);
                        lemma_state_index(acc, st.full_name);
                        assert forall|i: int| 0 <= i < acc2.len() implies (#[trigger] acc2[i])
                            .each_direction_framed() by {
                            if acc2[i] != st {
                                assert(acc2[i] == acc[i]);
                            }
                        }
                        lemma_fold_framed(arr.drop_first(), files, size, acc2);
                    },
                    Err(_) => {},
                }
            },
            _ => {},
        }
    }
}

/// Every direction of every state of an accepted document holds at least one
/// frame: declared delay rows are rejected when empty, and a state without
/// declared timing defaults to a single zero-delay frame per direction.
pub proof fn lemma_open_states_framed(files: Seq<DirEntry>)
    ensures
        spec_open(files) matches Ok(doc) ==> forall|i: int|
            0 <= i < doc.states.len() ==> (#[trigger] doc.states[i]).each_direction_framed(),
{
    if spec_open(files) is Ok {
        let text = crate::rsi::meta::utf8_decode(
            crate::tree::spec_find_file(files, "meta.json"@)->Some_0->Some_0,
        )->Some_0;
        let doc = crate::rsi::meta::json_doc(text)->Some_0;
        match doc {
            MetaValue::Object(fields) => {
                match spec_lookup(fields@, "size"@) {
                    Some(MetaValue::Object(size_fields)) => {
                        match (
                            spec_lookup(size_fields@, "x"@),
                            spec_lookup(size_fields@, "y"@),
                        ) {
                            (Some(MetaValue::UInt(x)), Some(MetaValue::UInt(y))) => {
                                match spec_lookup(fields@, "states"@) {
                                    Some(MetaValue::Array(arr)) => {
                                        lemma_fold_framed(
                                            arr@,
                                            files,
                                            ((x as u32), (y as u32)),
                                            Seq::empty(),
                                        );
                                    },
                                    _ => {},
                                }
                            },
                            _ => {},
                        }
                    },
                    _ => {},
                }
            },
            _ => {},
        }
    }
}

} // verus!
