//! Tests for the RSI parser, the slicer and the document model.

use std::io::Cursor;

use image::GenericImageView;

use yasss13rtwcf_shared::rsi::{
    full_state_name, Rsi, RsiError, RsiFlags, RsiRef, RsiSelectors, State, StateId,
    MAXIMUM_RSI_VERSION, MINIMUM_RSI_VERSION,
};
use yasss13rtwcf_shared::tree::DirEntry;

fn png_bytes(w: u32, h: u32) -> Vec<u8> {
    let img = image::DynamicImage::new_rgba8(w, h);
    let mut buf = Cursor::new(Vec::new());
    img.write_to(&mut buf, image::ImageFormat::Png).unwrap();
    buf.into_inner()
}

/// A 128x32 atlas whose four 32x32 cells are filled with distinct colors.
fn striped_png_bytes() -> Vec<u8> {
    let img = image::RgbaImage::from_fn(128, 32, |x, _y| {
        image::Rgba([(x / 32) as u8 * 60, 0, 0, 255])
    });
    let mut buf = Cursor::new(Vec::new());
    image::DynamicImage::ImageRgba8(img)
        .write_to(&mut buf, image::ImageFormat::Png)
        .unwrap();
    buf.into_inner()
}

fn file(name: &str, bytes: Vec<u8>) -> DirEntry {
    DirEntry::File { name: name.to_string(), content: Some(bytes) }
}

fn meta_file(text: &str) -> DirEntry {
    file("meta.json", text.as_bytes().to_vec())
}

fn test_rsi_listing() -> Vec<DirEntry> {
    let meta = "{\"version\": 1, \"size\": {\"x\": 32, \"y\": 32}, \"states\": [{\"name\": \"ByeThere\", \"directions\": 1, \"delays\": [[1.0, 1.0, 1.0, 1.0]]}, {\"name\": \"HiThere\", \"directions\": 1}]}";
    vec![
        meta_file(meta),
        file("ByeThere.png", striped_png_bytes()),
        file("HiThere.png", png_bytes(32, 32)),
    ]
}

#[test]
fn test_extract() {
    let rsi = Rsi::open(&test_rsi_listing()).unwrap();

    let byethere = rsi.get("ByeThere").unwrap();
    let icon = byethere.get_icon(0, 2).unwrap();

    // The third frame was cut from the third 32x32 cell of the atlas, whose
    // pixels are all (120, 0, 0, 255).
    assert_eq!(icon.dimensions(), (32, 32));
    for x in 0..32 {
        for y in 0..32 {
            let pixel = icon.get_pixel(x, y);
            if pixel != image::Rgba([120, 0, 0, 255]) {
                panic!("Pixel incorrect: {:?}", pixel);
            }
        }
    }
}

#[test]
fn test_delay() {
    let rsi = Rsi::open(&test_rsi_listing()).unwrap();

    let byethere = rsi.get("ByeThere").unwrap();

    for index in 0..4 {
        assert_eq!(f64::from_bits(byethere.get_delay(0, index).unwrap()), 1.0);
    }
}

#[test]
fn slicing_round_trip() {
    // Slicing one direction with four declared delays against a 128x32 atlas
    // of 32x32 cells yields exactly four frames at offsets marching across
    // the first row, each with delay 1.0.
    let rsi = Rsi::open(&test_rsi_listing()).unwrap();
    let state = rsi.get("ByeThere").unwrap();

    assert_eq!(state.get_directions(), 1);
    assert_eq!(state.get_size(), (32, 32));
    let expected = [(0, 0), (32, 0), (64, 0), (96, 0)];
    for (k, offset) in expected.iter().enumerate() {
        assert_eq!(state.get_icon_offset(0, k).unwrap(), *offset);
        assert_eq!(f64::from_bits(state.get_delay(0, k).unwrap()), 1.0);
    }
    assert!(state.get_icon_offset(0, 4).is_none());
    assert!(state.get_delay(0, 4).is_none());
    assert!(state.get_icon(1, 0).is_none());
}

fn version_meta(version: &str) -> Vec<DirEntry> {
    let meta = format!(
        "{{\"version\": {}, \"size\": {{\"x\": 32, \"y\": 32}}, \"states\": []}}",
        version
    );
    vec![meta_file(&meta)]
}

#[test]
fn version_window_bounds() {
    assert_eq!(MINIMUM_RSI_VERSION, 1);
    assert_eq!(MAXIMUM_RSI_VERSION, 1);
    // Both bounds of the closed interval are accepted.
    assert!(Rsi::open(&version_meta("1")).is_ok());
    // One below the minimum and one above the maximum are rejected with the
    // distinct Version error.
    assert!(matches!(Rsi::open(&version_meta("0")), Err(RsiError::Version)));
    assert!(matches!(Rsi::open(&version_meta("2")), Err(RsiError::Version)));
}

#[test]
fn version_must_be_a_number() {
    let err = Rsi::open(&version_meta("\"1\"")).unwrap_err();
    match err {
        RsiError::Metadata(m) => assert_eq!(m, "Version not a number."),
        other => panic!("wrong error: {:?}", other),
    }
    let missing = vec![meta_file("{\"size\": {\"x\": 32, \"y\": 32}, \"states\": []}")];
    assert!(matches!(
        Rsi::open(&missing),
        Err(RsiError::Metadata(_))
    ));
}

#[test]
fn size_fields_required() {
    let missing_x = vec![meta_file("{\"version\": 1, \"size\": {\"y\": 32}, \"states\": []}")];
    match Rsi::open(&missing_x).unwrap_err() {
        RsiError::Metadata(m) => assert_eq!(m, "Size: x not included."),
        other => panic!("wrong error: {:?}", other),
    }
    let missing_y = vec![meta_file("{\"version\": 1, \"size\": {\"x\": 32}, \"states\": []}")];
    match Rsi::open(&missing_y).unwrap_err() {
        RsiError::Metadata(m) => assert_eq!(m, "Size: y not included."),
        other => panic!("wrong error: {:?}", other),
    }
    let not_object = vec![meta_file("{\"version\": 1, \"size\": 32, \"states\": []}")];
    match Rsi::open(&not_object).unwrap_err() {
        RsiError::Metadata(m) => assert_eq!(m, "Size not an object."),
        other => panic!("wrong error: {:?}", other),
    }
    let zero = vec![meta_file("{\"version\": 1, \"size\": {\"x\": 0, \"y\": 32}, \"states\": []}")];
    assert!(matches!(Rsi::open(&zero), Err(RsiError::Metadata(_))));
}

#[test]
fn io_and_json_errors() {
    // No manifest at all.
    assert!(matches!(Rsi::open(&vec![]), Err(RsiError::Io)));
    // Manifest present but unreadable.
    let unreadable = vec![DirEntry::File { name: "meta.json".to_string(), content: None }];
    assert!(matches!(Rsi::open(&unreadable), Err(RsiError::Io)));
    // Manifest is not valid UTF-8.
    let bad_utf8 = vec![file("meta.json", vec![0xff, 0xfe, 0xfd])];
    assert!(matches!(Rsi::open(&bad_utf8), Err(RsiError::Io)));
    // Manifest is not valid JSON.
    let bad_json = vec![meta_file("{\"version\": ")];
    assert!(matches!(Rsi::open(&bad_json), Err(RsiError::Json(_))));
    // Manifest is JSON but not an object.
    let not_object = vec![meta_file("[1, 2]")];
    match Rsi::open(&not_object).unwrap_err() {
        RsiError::Metadata(m) => assert_eq!(m, "Not a root object"),
        other => panic!("wrong error: {:?}", other),
    }
}

#[test]
fn image_errors() {
    // Atlas missing.
    let missing = vec![meta_file(
        "{\"version\": 1, \"size\": {\"x\": 32, \"y\": 32}, \"states\": [{\"name\": \"a\", \"directions\": 1}]}",
    )];
    assert!(matches!(Rsi::open(&missing), Err(RsiError::ImageError(_))));
    // Atlas present but not a decodable image.
    let garbage = vec![
        meta_file(
            "{\"version\": 1, \"size\": {\"x\": 32, \"y\": 32}, \"states\": [{\"name\": \"a\", \"directions\": 1}]}",
        ),
        file("a.png", vec![1, 2, 3, 4]),
    ];
    assert!(matches!(Rsi::open(&garbage), Err(RsiError::ImageError(_))));
}

#[test]
fn state_parse_errors() {
    let not_object = vec![meta_file(
        "{\"version\": 1, \"size\": {\"x\": 32, \"y\": 32}, \"states\": [7]}",
    )];
    match Rsi::open(&not_object).unwrap_err() {
        RsiError::Metadata(m) => assert_eq!(m, "State not an object."),
        other => panic!("wrong error: {:?}", other),
    }
    let no_name = vec![meta_file(
        "{\"version\": 1, \"size\": {\"x\": 32, \"y\": 32}, \"states\": [{\"directions\": 1}]}",
    )];
    match Rsi::open(&no_name).unwrap_err() {
        RsiError::Metadata(m) => assert_eq!(m, "Name not string."),
        other => panic!("wrong error: {:?}", other),
    }
    let no_directions = vec![meta_file(
        "{\"version\": 1, \"size\": {\"x\": 32, \"y\": 32}, \"states\": [{\"name\": \"a\"}]}",
    )];
    match Rsi::open(&no_directions).unwrap_err() {
        RsiError::Metadata(m) => assert_eq!(m, "Directions not integer."),
        other => panic!("wrong error: {:?}", other),
    }
    let states_not_array = vec![meta_file(
        "{\"version\": 1, \"size\": {\"x\": 32, \"y\": 32}, \"states\": 1}",
    )];
    match Rsi::open(&states_not_array).unwrap_err() {
        RsiError::Metadata(m) => assert_eq!(m, "States not an array."),
        other => panic!("wrong error: {:?}", other),
    }
}

fn delays_meta(delays: &str) -> Vec<DirEntry> {
    let meta = format!(
        "{{\"version\": 1, \"size\": {{\"x\": 32, \"y\": 32}}, \"states\": [{{\"name\": \"a\", \"directions\": 1, \"delays\": {}}}]}}",
        delays
    );
    vec![meta_file(&meta), file("a.png", png_bytes(128, 32))]
}

#[test]
fn delays_wrong_outer_length_fails() {
    // The whole open call fails with a Metadata error; no partial document
    // comes back.
    let too_many = Rsi::open(&delays_meta("[[1.0], [1.0]]"));
    match too_many {
        Err(RsiError::Metadata(m)) => assert_eq!(m, "Too many directions"),
        other => panic!("wrong result: {:?}", other.map(|_| ())),
    }
    let too_few = Rsi::open(&delays_meta("[]"));
    match too_few {
        Err(RsiError::Metadata(m)) => assert_eq!(m, "Too little directions"),
        other => panic!("wrong result: {:?}", other.map(|_| ())),
    }
}

#[test]
fn empty_delays_sub_array_fails() {
    // Every direction must hold at least one frame: a declared delays
    // sub-array with no entries is a schema defect, and the whole open call
    // fails with it.
    let empty_row = Rsi::open(&delays_meta("[[]]"));
    match empty_row {
        Err(RsiError::Metadata(m)) => assert_eq!(m, "Sub array of delays is empty."),
        other => panic!("wrong result: {:?}", other.map(|_| ())),
    }
}

#[test]
fn delays_element_errors() {
    match Rsi::open(&delays_meta("[1.0]")).unwrap_err() {
        RsiError::Metadata(m) => assert_eq!(m, "Sub array of delays not an array."),
        other => panic!("wrong error: {:?}", other),
    }
    match Rsi::open(&delays_meta("[[1]]")).unwrap_err() {
        RsiError::Metadata(m) => assert_eq!(m, "Delay not float."),
        other => panic!("wrong error: {:?}", other),
    }
    match Rsi::open(&delays_meta("7")).unwrap_err() {
        RsiError::Metadata(m) => assert_eq!(m, "Invalid states list."),
        other => panic!("wrong error: {:?}", other),
    }
}

#[test]
fn delays_default_to_one_zero_frame() {
    let meta = vec![
        meta_file(
            "{\"version\": 1, \"size\": {\"x\": 32, \"y\": 32}, \"states\": [{\"name\": \"a\", \"directions\": 2}]}",
        ),
        file("a.png", png_bytes(64, 64)),
    ];
    let rsi = Rsi::open(&meta).unwrap();
    let state = rsi.get("a").unwrap();
    for d in 0..2 {
        assert_eq!(f64::from_bits(state.get_delay(d, 0).unwrap()), 0.0);
        assert!(state.get_delay(d, 1).is_none());
    }
    // The linear frame counter spans direction boundaries: the second
    // direction's single frame is cut from the second cell of the first row.
    assert_eq!(state.get_icon_offset(0, 0).unwrap(), (0, 0));
    assert_eq!(state.get_icon_offset(1, 0).unwrap(), (32, 0));
}

#[test]
fn atlas_too_small_is_rejected() {
    let meta = vec![
        meta_file(
            "{\"version\": 1, \"size\": {\"x\": 32, \"y\": 32}, \"states\": [{\"name\": \"a\", \"directions\": 1}]}",
        ),
        file("a.png", png_bytes(16, 16)),
    ];
    match Rsi::open(&meta).unwrap_err() {
        RsiError::Metadata(m) => assert_eq!(m, "Atlas too small for cell size."),
        other => panic!("wrong error: {:?}", other),
    }
}

#[test]
fn metadata_equality_is_reflexive_and_ignores_pixels() {
    let rsi = Rsi::open(&test_rsi_listing()).unwrap();
    assert!(rsi.metadata_equality(&rsi));

    // The same manifest over atlases with different pixel content compares
    // equal: only metadata takes part.
    let mut other_files = test_rsi_listing();
    other_files[1] = file("ByeThere.png", png_bytes(128, 32));
    let other = Rsi::open(&other_files).unwrap();
    assert!(rsi.metadata_equality(&other));
    assert!(other.metadata_equality(&rsi));
}

#[test]
fn metadata_equality_detects_differences() {
    let rsi = Rsi::open(&test_rsi_listing()).unwrap();

    let mut fewer = Rsi::new((32, 32));
    fewer.new_state("ByeThere", &[], 1);
    // A state of the document has no counterpart: not equal.
    assert!(!rsi.metadata_equality(&fewer));

    let mut wrong_directions = Rsi::new((32, 32));
    wrong_directions.new_state("ByeThere", &[], 4);
    wrong_directions.new_state("HiThere", &[], 1);
    assert!(!rsi.metadata_equality(&wrong_directions));

    let mut wrong_size = Rsi::new((16, 16));
    wrong_size.new_state("ByeThere", &[], 1);
    wrong_size.new_state("HiThere", &[], 1);
    assert!(!rsi.metadata_equality(&wrong_size));
}

#[test]
fn later_state_of_same_full_name_wins() {
    let meta = "{\"version\": 1, \"size\": {\"x\": 32, \"y\": 32}, \"states\": [{\"name\": \"a\", \"directions\": 1}, {\"name\": \"a\", \"directions\": 2}]}";
    let files = vec![meta_file(meta), file("a.png", png_bytes(64, 64))];
    let rsi = Rsi::open(&files).unwrap();
    assert_eq!(rsi.get("a").unwrap().get_directions(), 2);
}

#[test]
fn state_lookup_by_name_selectors_and_id() {
    let mut rsi = Rsi::new((32, 32));
    rsi.new_state("wrench", &[RsiSelectors::Male], 1);
    rsi.new_state("plain", &[], 1);

    assert!(rsi.get("plain").is_some());
    assert!(rsi.get("wrench").is_none());
    let state = rsi.get("wrench+m").unwrap();
    assert_eq!(state.get_name(), "wrench");
    assert_eq!(state.get_full_name(), "wrench+m");
    assert_eq!(state.get_selectors(), &[RsiSelectors::Male]);

    assert!(rsi.get_select("wrench", &[RsiSelectors::Male]).is_some());
    assert!(rsi.get_select("wrench", &[RsiSelectors::Female]).is_none());

    let id = StateId::with_select("wrench", &[RsiSelectors::Male]);
    assert!(rsi.get_stateid(&id).is_some());
    assert!(rsi.get_stateid(&StateId::new("wrench")).is_none());
}

#[test]
fn full_names_join_selectors() {
    assert_eq!(full_state_name("wrench", &[]), "wrench");
    assert_eq!(full_state_name("wrench", &[RsiSelectors::Male]), "wrench+m");
    assert_eq!(
        full_state_name("wrench", &[RsiSelectors::Male, RsiSelectors::Female]),
        "wrench+m+f"
    );
    assert_eq!(StateId::with_select("wrench", &[RsiSelectors::Male]).to_full_name(), "wrench+m");
    assert_eq!(StateId::new("wrench").to_full_name(), "wrench");
}

#[test]
fn state_ids_compare_by_name_and_selectors() {
    assert_eq!(StateId::new("a"), StateId::new("a"));
    assert_ne!(StateId::new("a"), StateId::new("b"));
    assert_ne!(StateId::new("a"), StateId::with_select("a", &[RsiSelectors::Male]));
    let id = StateId::with_select("a", &[RsiSelectors::Male]);
    assert_eq!(id.clone(), id);

    let rref = RsiRef::new(&id, 0, 3);
    assert_eq!(rref.state, id);
    assert_eq!(rref.dir, 0);
    assert_eq!(rref.frame, 3);
}

#[test]
fn iter_states_walks_the_document() {
    let rsi = Rsi::open(&test_rsi_listing()).unwrap();
    let mut names = Vec::new();
    let mut iter = rsi.iter_states();
    while let Some(state) = iter.next() {
        names.push(state.get_full_name().to_string());
    }
    assert_eq!(names.len(), 2);
    assert!(names.contains(&"ByeThere".to_string()));
    assert!(names.contains(&"HiThere".to_string()));
}

#[test]
fn flags_take_part_in_metadata_equality() {
    let mut flagged = State::new("a", &[], (32, 32), 1);
    *flagged.get_flags_mut() = vec![RsiFlags::Hidden];
    assert_eq!(flagged.get_flags(), &vec![RsiFlags::Hidden]);
    let plain = State::new("a", &[], (32, 32), 1);

    assert!(!flagged.metadata_equality(&plain));
    assert!(plain.metadata_equality(&State::new("a", &[], (32, 32), 1)));

    let mut with_flags = Rsi::new((32, 32));
    with_flags.add_state(flagged);
    let mut without = Rsi::new((32, 32));
    without.add_state(plain);
    assert!(!with_flags.metadata_equality(&without));
}

#[test]
fn mutable_state_lookup() {
    let mut rsi = Rsi::new((32, 32));
    rsi.new_state("wrench", &[RsiSelectors::Male], 1);

    assert!(rsi.get_mut("missing").is_none());
    {
        let state = rsi.get_mut("wrench+m").unwrap();
        state.get_flags_mut().push(RsiFlags::Hidden);
    }
    assert_eq!(rsi.get("wrench+m").unwrap().get_flags(), &vec![RsiFlags::Hidden]);

    assert!(rsi.get_select_mut("wrench", &[RsiSelectors::Male]).is_some());
    assert!(rsi.get_select_mut("wrench", &[]).is_none());
    let id = StateId::with_select("wrench", &[RsiSelectors::Male]);
    assert!(rsi.get_stateid_mut(&id).is_some());
}

#[test]
fn synthetic_states_carry_their_metadata() {
    let mut rsi = Rsi::new((32, 32));
    rsi.new_state("fresh", &[], 3);
    let state = rsi.get("fresh").unwrap();
    assert_eq!(state.get_directions(), 3);
    assert_eq!(state.get_size(), (32, 32));
    assert!(state.get_flags().is_empty());
    assert!(state.get_icon(0, 0).is_none());
    assert_eq!(state.get_icons_vec().len(), 3);
}
