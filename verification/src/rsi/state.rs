//! One animation state of an RSI: a named unit holding, per direction, an
//! ordered sequence of frames cut from the state's atlas image, each with a
//! delay in seconds.

use vstd::prelude::*;

use image::DynamicImage;

use crate::helpers::string::str_eq;
use crate::rsi::enums::{RsiFlags, RsiSelectors};
use crate::rsi::error::{RsiError, RsiErrorView};
use crate::rsi::helpers::{full_state_name, spec_full_name};
use crate::rsi::images::{decode_image, decoded_dims, image_dims, spec_crop_dims};
use crate::rsi::meta::{meta_lookup, spec_lookup, MetaValue};
use crate::tree::{find_file, spec_find_file, DirEntry};

verus! {

/// The metadata of one frame: the top-left pixel offset of its cell in the
/// atlas, and its delay in seconds as IEEE-754 double bits. The frame's
/// pixels are not part of the view.
pub struct FrameView {
    /// Horizontal offset of the cell's top-left pixel in the atlas.
    pub x: u32,
    /// Vertical offset of the cell's top-left pixel in the atlas.
    pub y: u32,
    /// The frame's delay in seconds, as IEEE-754 double bits.
    pub delay: u64,
}

/// The metadata of one state. Pixel data is deliberately left out: comparing
/// decoded images is expensive and no part of the document model depends on
/// it.
pub struct StateView {
    /// The state's base name.
    pub name: Seq<char>,
    /// The state's full name: base name plus selectors.
    pub full_name: Seq<char>,
    /// The pixel dimensions of one frame cell.
    pub size: (u32, u32),
    /// How many direction rows the state has.
    pub directions: u8,
    /// The state's selector tags, in order.
    pub selectors: Seq<RsiSelectors>,
    /// The state's flags, in order.
    pub flags: Seq<RsiFlags>,
    /// Per direction, the metadata of its frames in order.
    pub frames: Seq<Seq<FrameView>>,
}

/// One sliced frame: the cut-out image, where in the atlas it was cut, and
/// its delay in seconds as IEEE-754 double bits.
#[derive(Debug)]
pub struct Frame {
    image: DynamicImage,
    x: u32,
    y: u32,
    delay: u64,
}

impl Frame {
    /// The frame's cut-out image, as a spec-level value.
    pub closed spec fn spec_image(&self) -> DynamicImage {
        self.image
    }

    /// The frame's cut-out image.
    pub fn image(&self) -> (r: &DynamicImage)
        ensures
            *r == self.spec_image(),
    {
        &self.image
    }

    /// The top-left pixel offset of the frame's cell in the atlas.
    pub fn offset(&self) -> (r: (u32, u32))
        ensures
            r == (self@.x, self@.y),
    {
        (self.x, self.y)
    }

    /// The frame's delay in seconds, as IEEE-754 double bits.
    pub fn delay(&self) -> (r: u64)
        ensures
            r == self@.delay,
    {
        self.delay
    }
}

impl View for Frame {
    type V = FrameView;

    closed spec fn view(&self) -> FrameView {
        FrameView { x: self.x, y: self.y, delay: self.delay }
    }
}

/// An animation state of an RSI.
#[derive(Debug)]
pub struct State {
    name: String,
    full_name: String,
    size: (u32, u32),
    directions: u8,
    selectors: Vec<RsiSelectors>,
    flags: Vec<RsiFlags>,
    icons: Vec<Vec<Frame>>,
}

impl View for State {
    type V = StateView;

    closed spec fn view(&self) -> StateView {
        StateView {
            name: self.name@,
            full_name: self.full_name@,
            size: self.size,
            directions: self.directions,
            selectors: self.selectors@,
            flags: self.flags@,
            frames: self.icons@.map_values(|row: Vec<Frame>| row@.map_values(|f: Frame| f@)),
        }
    }
}

impl State {
    /// The state's frames as spec-level values, one sequence per direction.
    pub closed spec fn spec_icons(&self) -> Seq<Seq<Frame>> {
        self.icons@.map_values(|row: Vec<Frame>| row@)
    }

    /// The image stored for one frame.
    pub open spec fn spec_icon(&self, direction: int, index: int) -> DynamicImage {
        self.spec_icons()[direction][index].spec_image()
    }
}

impl StateView {
    /// A state is well formed when it holds exactly one frame sequence per
    /// direction, its full name is built from its name and selectors, and its
    /// cell size is positive in both dimensions.
    pub open spec fn wf(&self) -> bool {
        &&& self.frames.len() == self.directions
        &&& self.full_name == spec_full_name(self.name, self.selectors)
        &&& self.size.0 > 0 && self.size.1 > 0
    }

    /// Every direction holds at least one frame. States the parser produces
    /// always do; a synthetic state built by [`State::new`] starts with empty
    /// frame sequences for its host to fill.
    pub open spec fn each_direction_framed(&self) -> bool {
        forall|d: int| 0 <= d < self.frames.len() ==> (#[trigger] self.frames[d]).len() >= 1
    }
}

/// Whether two states carry equal metadata: name, full name, cell size,
/// direction count and flags. Frame data and pixel content take no part.
pub open spec fn spec_state_meta_eq(a: StateView, b: StateView) -> bool {
    &&& a.name == b.name
    &&& a.full_name == b.full_name
    &&& a.size == b.size
    &&& a.directions == b.directions
    &&& a.flags == b.flags
}

impl State {
    /// Default constructor for states: no flags and one empty frame sequence
    /// per direction. The cell size must be positive in both dimensions.
    pub fn new(name: &str, select: &[RsiSelectors], size: (u32, u32), directions: u8) -> (r:
        State)
        requires
            size.0 > 0,
            size.1 > 0,
        ensures
            r@ == (StateView {
                name: name@,
                full_name: spec_full_name(name@, select@),
                size,
                directions,
                selectors: select@,
                flags: Seq::empty(),
                frames: Seq::new(directions as nat, |d: int| Seq::<FrameView>::empty()),
            }),
            r@.wf(),
    {
        let full_name = full_state_name(name, select);
        let mut icons: Vec<Vec<Frame>> = Vec::new();
        let mut d: u8 = 0;
        while d < directions
            invariant
                d <= directions,
                icons@.len() == d,
                forall|j: int| 0 <= j < d ==> icons@[j]@.len() == 0,
            decreases directions - d,
        {
            icons.push(Vec::new());
            d += 1;
        }
        let state = State {
            name: name.to_owned(),
            full_name,
            size,
            directions,
            selectors: vstd::slice::slice_to_vec(select),
            flags: Vec::new(),
            icons,
        };
        proof {
            assert(state@.frames =~~= Seq::new(
                directions as nat,
                |j: int| Seq::<FrameView>::empty(),
            ));
        }
        state
    }

    /// The name of the state.
    pub fn get_name(&self) -> (r: &str)
        ensures
            r@ == self@.name,
    {
        self.name.as_str()
    }

    /// The *full* name of the state.
    ///
    /// The full name of a state is the same as the one used on disk as
    /// spritesheet filenames.
    pub fn get_full_name(&self) -> (r: &str)
        ensures
            r@ == self@.full_name,
    {
        self.full_name.as_str()
    }

    /// Returns a tuple representing the dimensions of the individual icons of
    /// this state.
    pub fn get_size(&self) -> (r: (u32, u32))
        ensures
            r == self@.size,
    {
        self.size
    }

    /// Returns the amount of directions in this state.
    pub fn get_directions(&self) -> (r: u8)
        ensures
            r == self@.directions,
    {
        self.directions
    }

    /// Returns the selectors of this state.
    pub fn get_selectors(&self) -> (r: &[RsiSelectors])
        ensures
            r@ == self@.selectors,
    {
        self.selectors.as_slice()
    }

    /// Returns a vector of the flags.
    pub fn get_flags(&self) -> (r: &Vec<RsiFlags>)
        ensures
            r@ == self@.flags,
    {
        &self.flags
    }

    /// Returns a mutable vector of the flags. What the caller makes of it
    /// replaces the state's flags when the borrow ends.
    pub fn get_flags_mut(&mut self) -> (r: &mut Vec<RsiFlags>)
        ensures
            r@ == old(self)@.flags,
            final(self)@ == (StateView { flags: final(r)@, ..old(self)@ }),
    {
        &mut self.flags
    }

    /// Returns an icon's image.
    ///
    /// If the direction or index are too large, returns `None`.
    pub fn get_icon(&self, direction: u8, index: usize) -> (r: Option<&DynamicImage>)
        ensures
            match r {
                Some(img) => {
                    &&& (direction as int) < self@.frames.len()
                    &&& (index as int) < self@.frames[direction as int].len()
                    &&& *img == self.spec_icon(direction as int, index as int)
                },
                None => {
                    (direction as int) >= self@.frames.len() || (index as int)
                        >= self@.frames[direction as int].len()
                },
            },
    {
        if (direction as usize) < self.icons.len() {
            let row = &self.icons[direction as usize];
            if index < row.len() {
                return Some(row[index].image());
            }
        }
        None
    }

    /// Returns where in the atlas an icon's cell begins.
    ///
    /// If the direction or index are too large, returns `None`.
    pub fn get_icon_offset(&self, direction: u8, index: usize) -> (r: Option<(u32, u32)>)
        ensures
            match r {
                Some(off) => {
                    &&& (direction as int) < self@.frames.len()
                    &&& (index as int) < self@.frames[direction as int].len()
                    &&& off == (
                        self@.frames[direction as int][index as int].x,
                        self@.frames[direction as int][index as int].y,
                    )
                },
                None => {
                    (direction as int) >= self@.frames.len() || (index as int)
                        >= self@.frames[direction as int].len()
                },
            },
    {
        if (direction as usize) < self.icons.len() {
            let row = &self.icons[direction as usize];
            if index < row.len() {
                return Some(row[index].offset());
            }
        }
        None
    }

    /// Returns an icon's delay in seconds, as IEEE-754 double bits.
    ///
    /// If the direction or index are too large, returns `None`.
    pub fn get_delay(&self, direction: u8, index: usize) -> (r: Option<u64>)
        ensures
            match r {
                Some(delay) => {
                    &&& (direction as int) < self@.frames.len()
                    &&& (index as int) < self@.frames[direction as int].len()
                    &&& delay == self@.frames[direction as int][index as int].delay
                },
                None => {
                    (direction as int) >= self@.frames.len() || (index as int)
                        >= self@.frames[direction as int].len()
                },
            },
    {
        if (direction as usize) < self.icons.len() {
            let row = &self.icons[direction as usize];
            if index < row.len() {
                return Some(row[index].delay());
            }
        }
        None
    }

    /// Returns the frames of this state, one vector per direction.
    pub fn get_icons_vec(&self) -> (r: &Vec<Vec<Frame>>)
        ensures
            r@.map_values(|row: Vec<Frame>| row@) == self.spec_icons(),
    {
        &self.icons
    }

    /// Checks whether two states have equal metadata: name, full name, cell
    /// size, direction count and flags. This does **not** compare frames or
    /// pixel data.
    pub fn metadata_equality(&self, other: &State) -> (r: bool)
        ensures
            r == spec_state_meta_eq(self@, other@),
    {
        if !str_eq(self.name.as_str(), other.name.as_str()) {
            return false;
        }
        if !str_eq(self.full_name.as_str(), other.full_name.as_str()) {
            return false;
        }
        if self.size.0 != other.size.0 || self.size.1 != other.size.1 {
            return false;
        }
        if self.directions != other.directions {
            return false;
        }
        if self.flags.len() != other.flags.len() {
            return false;
        }
        let mut i: usize = 0;
        while i < self.flags.len()
            invariant
                self.flags@.len() == other.flags@.len(),
                i <= self.flags@.len(),
                forall|j: int| 0 <= j < i ==> self.flags@[j] == other.flags@[j],
            decreases self.flags@.len() - i,
        {
            if self.flags[i] != other.flags[i] {
                return false;
            }
            i += 1;
        }
        proof {
            assert(self.flags@ =~= other.flags@);
            assert(self.size =~= other.size);
        }
        true
    }
}

/// What parsing one direction's delay array yields: the delays as IEEE-754
/// double bits, or the first defect.
pub open spec fn spec_delay_row(items: Seq<MetaValue>) -> Result<Seq<u64>, RsiErrorView>
    decreases items.len(),
{
    if items.len() == 0 {
        Ok(Seq::empty())
    } else {
        match items[0] {
            MetaValue::Float(bits) => match spec_delay_row(items.drop_first()) {
                Ok(rest) => Ok(seq![bits] + rest),
                Err(e) => Err(e),
            },
            _ => Err(RsiErrorView::Metadata("Delay not float."@)),
        }
    }
}

/// What parsing a manifest's `delays` array against a direction count yields:
/// one delay row per direction, in order, or the first defect. The outer
/// array must hold exactly `directions` arrays, and each must hold at least
/// one delay: every direction of a state holds at least one frame.
pub open spec fn spec_delay_rows(arr: Seq<MetaValue>, directions: int) -> Result<
    Seq<Seq<u64>>,
    RsiErrorView,
>
    decreases directions,
{
    if directions <= 0 {
        if arr.len() > 0 {
            Err(RsiErrorView::Metadata("Too many directions"@))
        } else {
            Ok(Seq::empty())
        }
    } else if arr.len() == 0 {
        Err(RsiErrorView::Metadata("Too little directions"@))
    } else {
        match arr[0] {
            MetaValue::Array(items) => if items@.len() == 0 {
                Err(RsiErrorView::Metadata("Sub array of delays is empty."@))
            } else {
                match spec_delay_row(items@) {
                    Ok(row) => match spec_delay_rows(arr.drop_first(), directions - 1) {
                        Ok(rest) => Ok(seq![row] + rest),
                        Err(e) => Err(e),
                    },
                    Err(e) => Err(e),
                }
            },
            _ => Err(RsiErrorView::Metadata("Sub array of delays not an array."@)),
        }
    }
}

/// The delays a state falls back to when its manifest declares none: a single
/// frame with delay `0.0` for every direction.
pub open spec fn spec_default_delays(directions: int) -> Seq<Seq<u64>> {
    Seq::new(directions as nat, |d: int| seq![0u64])
}

/// What the delays stage of a state's parse yields, given the state's object
/// fields and its direction count.
pub open spec fn spec_state_delays(fields: Seq<(String, MetaValue)>, directions: u8) -> Result<
    Seq<Seq<u64>>,
    RsiErrorView,
> {
    match spec_lookup(fields, "delays"@) {
        None => Ok(spec_default_delays(directions as int)),
        Some(MetaValue::Array(arr)) => spec_delay_rows(arr@, directions as int),
        Some(_) => Err(RsiErrorView::Metadata("Invalid states list."@)),
    }
}

/// Parses one direction's delay array into IEEE-754 double bits.
fn parse_delay_row(items: &Vec<MetaValue>) -> (r: Result<Vec<u64>, RsiError>)
    ensures
        match r {
            Ok(v) => spec_delay_row(items@) == Ok::<Seq<u64>, RsiErrorView>(v@),
            Err(e) => spec_delay_row(items@) == Err::<Seq<u64>, RsiErrorView>(e@),
        },
{
    let mut bits: Vec<u64> = Vec::new();
    let mut i: usize = 0;
    proof {
        assert(items@.skip(0) =~= items@);
        assert(bits@ + spec_delay_row(items@)->Ok_0 =~= spec_delay_row(items@)->Ok_0);
    }
    while i < items.len()
        invariant
            i <= items@.len(),
            spec_delay_row(items@) == (match spec_delay_row(items@.skip(i as int)) {
                Ok(rest) => Ok::<Seq<u64>, RsiErrorView>(bits@ + rest),
                Err(e) => Err(e),
            }),
        decreases items@.len() - i,
    {
        proof {
            assert(items@.skip(i as int)[0] == items@[i as int]);
            assert(items@.skip(i as int).drop_first() =~= items@.skip(i + 1));
        }
        match &items[i] {
            MetaValue::Float(b) => {
                let ghost rest_next = spec_delay_row(items@.skip(i + 1));
                proof {
                    if rest_next is Ok {
                        assert(bits@ + (seq![*b] + rest_next->Ok_0) =~= bits@.push(*b)
                            + rest_next->Ok_0);
                    }
                }
                bits.push(*b);
            },
            _ => {
                return Err(RsiError::Metadata(String::from_str("Delay not float.")));
            },
        }
        i += 1;
    }
    proof {
        assert(items@.skip(items@.len() as int) =~= Seq::<MetaValue>::empty());
        assert(bits@ + Seq::<u64>::empty() =~= bits@);
    }
    Ok(bits)
}

/// Parses a manifest's `delays` array against a direction count: exactly one
/// array of delays per direction.
fn parse_delay_rows(arr: &Vec<MetaValue>, directions: u8) -> (r: Result<Vec<Vec<u64>>, RsiError>)
    ensures
        match r {
            Ok(v) => {
                &&& spec_delay_rows(arr@, directions as int) == Ok::<
                    Seq<Seq<u64>>,
                    RsiErrorView,
                >(v@.map_values(|row: Vec<u64>| row@))
                &&& v@.len() == directions
            },
            Err(e) => spec_delay_rows(arr@, directions as int) == Err::<
                Seq<Seq<u64>>,
                RsiErrorView,
            >(e@),
        },
{
    let mut rows: Vec<Vec<u64>> = Vec::new();
    let mut d: usize = 0;
    proof {
        assert(arr@.skip(0) =~= arr@);
        let whole = spec_delay_rows(arr@, directions as int);
        if whole is Ok {
            assert(rows@.map_values(|row: Vec<u64>| row@) + whole->Ok_0 =~= whole->Ok_0);
        }
    }
    while d < directions as usize
        invariant
            d <= directions as usize,
            d <= arr@.len(),
            rows@.len() == d,
            spec_delay_rows(arr@, directions as int) == (match spec_delay_rows(
                arr@.skip(d as int),
                directions as int - d as int,
            ) {
                Ok(rest) => Ok::<Seq<Seq<u64>>, RsiErrorView>(
                    rows@.map_values(|row: Vec<u64>| row@) + rest,
                ),
                Err(e) => Err(e),
            }),
        decreases directions as int - d as int,
    {
        if d >= arr.len() {
            proof {
                assert(arr@.skip(d as int).len() == 0);
            }
            return Err(RsiError::Metadata(String::from_str("Too little directions")));
        }
        proof {
            assert(arr@.skip(d as int)[0] == arr@[d as int]);
            assert(arr@.skip(d as int).drop_first() =~= arr@.skip(d + 1));
        }
        match &arr[d] {
            MetaValue::Array(items) => {
                if items.len() == 0 {
                    return Err(
                        RsiError::Metadata(String::from_str("Sub array of delays is empty.")),
                    );
                }
                match parse_delay_row(items) {
                    Ok(row) => {
                        let ghost rest_next = spec_delay_rows(
                            arr@.skip(d + 1),
                            directions as int - d as int - 1,
                        );
                        proof {
                            if rest_next is Ok {
                                assert(rows@.map_values(|r2: Vec<u64>| r2@) + (seq![row@]
                                    + rest_next->Ok_0) =~= rows@.push(row).map_values(
                                    |r2: Vec<u64>| r2@,
                                ) + rest_next->Ok_0);
                            }
                        }
                        rows.push(row);
                    },
                    Err(e) => {
                        return Err(e);
                    },
                }
            },
            _ => {
                return Err(
                    RsiError::Metadata(String::from_str("Sub array of delays not an array.")),
                );
            },
        }
        d += 1;
    }
    if arr.len() > directions as usize {
        proof {
            assert(arr@.skip(directions as int).len() > 0);
        }
        return Err(RsiError::Metadata(String::from_str("Too many directions")));
    }
    proof {
        assert(arr@.skip(directions as int).len() == 0);
        assert(rows@.map_values(|row: Vec<u64>| row@) + Seq::<Seq<u64>>::empty() =~= rows@.map_values(
            |row: Vec<u64>| row@,
        ));
    }
    Ok(rows)
}

/// How many frames the directions before `d` consume: the sum of the delay
/// row lengths of directions `0 .. d`. Frames are numbered by one linear
/// counter spanning direction boundaries, so direction `d`'s first frame is
/// frame number `spec_prefix_frames(delays, d)`.
pub open spec fn spec_prefix_frames(delays: Seq<Seq<u64>>, d: int) -> int
    decreases d,
{
    if d <= 0 {
        0
    } else {
        spec_prefix_frames(delays, d - 1) + delays[d - 1].len()
    }
}

/// How many frames a state consumes in all.
pub open spec fn spec_total_frames(delays: Seq<Seq<u64>>) -> int {
    spec_prefix_frames(delays, delays.len() as int)
}

proof fn lemma_prefix_frames_monotonic(delays: Seq<Seq<u64>>, d: int, e: int)
    requires
        0 <= d <= e,
    ensures
        spec_prefix_frames(delays, d) <= spec_prefix_frames(delays, e),
        spec_prefix_frames(delays, d) >= 0,
    decreases e,
{
    if e > d {
        lemma_prefix_frames_monotonic(delays, d, e - 1);
    } else if d > 0 {
        lemma_prefix_frames_monotonic(delays, 0, d - 1);
    }
}

/// The metadata of frame `i` of direction `d`: the linear frame counter `k`
/// places its cell at column `k mod cells.0` of row `k div cells.0`, scaled
/// by the cell size. Frames are laid out row-major across the whole atlas,
/// the counter running on across direction boundaries: this is load-bearing
/// for on-disk compatibility with existing atlases.
pub open spec fn spec_frame(
    delays: Seq<Seq<u64>>,
    d: int,
    i: int,
    cells: (u32, u32),
    size: (u32, u32),
) -> FrameView {
    let k = spec_prefix_frames(delays, d) + i;
    FrameView {
        x: ((k % (cells.0 as int)) * (size.0 as int)) as u32,
        y: ((k / (cells.0 as int)) * (size.1 as int)) as u32,
        delay: delays[d][i],
    }
}

/// What slicing an atlas of the given dimensions into cells of the given
/// size against the given delay rows yields: for every direction, one frame
/// per delay entry, placed by the linear frame counter; or an error when the
/// atlas holds no complete cell, or a frame's offset leaves the 32-bit range.
pub open spec fn spec_slice(
    delays: Seq<Seq<u64>>,
    dims: (u32, u32),
    size: (u32, u32),
) -> Result<Seq<Seq<FrameView>>, RsiErrorView> {
    let cells0 = dims.0 as int / size.0 as int;
    let cells1 = dims.1 as int / size.1 as int;
    let total = spec_total_frames(delays);
    if total > 0 && (cells0 == 0 || cells1 == 0) {
        Err(RsiErrorView::Metadata("Atlas too small for cell size."@))
    } else if total > usize::MAX as int || (total > 0 && ((total - 1) / cells0) * (
    size.1 as int) > u32::MAX as int) {
        Err(RsiErrorView::Metadata("Frame offset out of range."@))
    } else {
        Ok(
            Seq::new(
                delays.len(),
                |d: int|
                    Seq::new(
                        delays[d].len(),
                        |i: int|
                            spec_frame(delays, d, i, ((cells0 as u32), (cells1 as u32)), size),
                    ),
            ),
        )
    }
}

/// Every frame of `rows` was cut from an atlas of the given dimensions: its
/// image has the dimensions the image library gives a cut-out of one cell at
/// the frame's offset.
pub open spec fn spec_frames_cut_from(
    rows: Seq<Seq<Frame>>,
    atlas_dims: (u32, u32),
    size: (u32, u32),
) -> bool {
    forall|d: int, i: int|
        0 <= d < rows.len() && 0 <= i < rows[d].len() ==> crate::rsi::images::image_dims(
            #[trigger] rows[d][i].spec_image(),
        ) == crate::rsi::images::spec_crop_dims(
            atlas_dims,
            rows[d][i]@.x,
            rows[d][i]@.y,
            size.0,
            size.1,
        )
}

/// Counts the frames the delay rows call for, guarding against overflow of
/// the machine's word size.
fn count_frames(delays: &Vec<Vec<u64>>) -> (r: Option<usize>)
    ensures
        match r {
            Some(total) => total == spec_total_frames(
                delays@.map_values(|row: Vec<u64>| row@),
            ),
            None => spec_total_frames(delays@.map_values(|row: Vec<u64>| row@)) > usize::MAX,
        },
{
    let ghost dmap = delays@.map_values(|row: Vec<u64>| row@);
    let mut total: usize = 0;
    let mut d: usize = 0;
    while d < delays.len()
        invariant
            d <= delays@.len(),
            dmap == delays@.map_values(|row: Vec<u64>| row@),
            total == spec_prefix_frames(dmap, d as int),
        decreases delays@.len() - d,
    {
        let len = delays[d].len();
        match total.checked_add(len) {
            Some(t) => {
                total = t;
            },
            None => {
                proof {
                    lemma_prefix_frames_monotonic(dmap, d + 1, dmap.len() as int);
                }
                return None;
            },
        }
        d += 1;
    }
    Some(total)
}

/// Slices an atlas into frames: one frame per delay entry, consumed in
/// direction order by a single linear counter, each frame cut from the atlas
/// at the offset the counter gives it.
fn slice_frames(atlas: &DynamicImage, delays: &Vec<Vec<u64>>, size: (u32, u32)) -> (r: Result<
    Vec<Vec<Frame>>,
    RsiError,
>)
    requires
        size.0 > 0,
        size.1 > 0,
    ensures
        match r {
            Ok(v) => {
                &&& spec_slice(
                    delays@.map_values(|row: Vec<u64>| row@),
                    crate::rsi::images::image_dims(*atlas),
                    size,
                ) == Ok::<Seq<Seq<FrameView>>, RsiErrorView>(
                    v@.map_values(|row: Vec<Frame>| row@.map_values(|f: Frame| f@)),
                )
                &&& spec_frames_cut_from(
                    v@.map_values(|row: Vec<Frame>| row@),
                    crate::rsi::images::image_dims(*atlas),
                    size,
                )
            },
            Err(e) => spec_slice(
                delays@.map_values(|row: Vec<u64>| row@),
                crate::rsi::images::image_dims(*atlas),
                size,
            ) == Err::<Seq<Seq<FrameView>>, RsiErrorView>(e@),
        },
{
    let ghost dmap = delays@.map_values(|row: Vec<u64>| row@);
    let dims = crate::rsi::images::image_dimensions(atlas);
    let cells0: u32 = dims.0 / size.0;
    let cells1: u32 = dims.1 / size.1;
    let total: usize = match count_frames(delays) {
        Some(t) => t,
        None => {
            if cells0 == 0 || cells1 == 0 {
                return Err(
                    RsiError::Metadata(String::from_str("Atlas too small for cell size.")),
                );
            }
            return Err(RsiError::Metadata(String::from_str("Frame offset out of range.")));
        },
    };
    if total > 0 && (cells0 == 0 || cells1 == 0) {
        return Err(RsiError::Metadata(String::from_str("Atlas too small for cell size.")));
    }
    if total > 0 {
        let q: usize = (total - 1) / (cells0 as usize);
        if q > (u32::MAX / size.1) as usize {
            proof {
                lemma_offset_threshold(q as int, size.1 as int);
            }
            return Err(RsiError::Metadata(String::from_str("Frame offset out of range.")));
        }
        proof {
            lemma_offset_threshold(q as int, size.1 as int);
        }
    }
    let mut icons: Vec<Vec<Frame>> = Vec::new();
    let mut counter: usize = 0;
    let ghost cells = (cells0, cells1);
    let mut d: usize = 0;
    while d < delays.len()
        invariant
            d <= delays@.len(),
            dmap == delays@.map_values(|row: Vec<u64>| row@),
            size.0 > 0,
            size.1 > 0,
            cells == (cells0, cells1),
            cells0 == dims.0 as int / size.0 as int,
            cells1 == dims.1 as int / size.1 as int,
            dims == crate::rsi::images::image_dims(*atlas),
            total == spec_total_frames(dmap),
            total > 0 ==> cells0 > 0 && cells1 > 0,
            total > 0 ==> ((total - 1) as int / cells0 as int) * (size.1 as int)
                <= u32::MAX as int,
            counter == spec_prefix_frames(dmap, d as int),
            icons@.len() == d,
            forall|j: int|
                0 <= j < d ==> #[trigger] icons@[j]@.len() == dmap[j].len(),
            forall|j: int, i: int|
                0 <= j < d && 0 <= i < icons@[j]@.len() ==> #[trigger] icons@[j]@[i]@
                    == spec_frame(dmap, j, i, cells, size),
            forall|j: int, i: int|
                0 <= j < d && 0 <= i < icons@[j]@.len()
                    ==> crate::rsi::images::image_dims(
                    #[trigger] icons@[j]@[i].spec_image(),
                ) == crate::rsi::images::spec_crop_dims(
                    dims,
                    icons@[j]@[i]@.x,
                    icons@[j]@[i]@.y,
                    size.0,
                    size.1,
                ),
        decreases delays@.len() - d,
    {
        let row = &delays[d];
        let mut frames_row: Vec<Frame> = Vec::new();
        let mut i: usize = 0;
        while i < row.len()
            invariant
                i <= row@.len(),
                row@ == dmap[d as int],
                d < dmap.len(),
                dmap == delays@.map_values(|r2: Vec<u64>| r2@),
                size.0 > 0,
                size.1 > 0,
                cells == (cells0, cells1),
                cells0 == dims.0 as int / size.0 as int,
                cells1 == dims.1 as int / size.1 as int,
                dims == crate::rsi::images::image_dims(*atlas),
                total == spec_total_frames(dmap),
                total > 0 ==> cells0 > 0 && cells1 > 0,
                total > 0 ==> ((total - 1) as int / cells0 as int) * (size.1 as int)
                    <= u32::MAX as int,
                counter == spec_prefix_frames(dmap, d as int) + i,
                frames_row@.len() == i,
                forall|j: int|
                    0 <= j < i ==> #[trigger] frames_row@[j]@ == spec_frame(
                        dmap,
                        d as int,
                        j,
                        cells,
                        size,
                    ),
                forall|j: int|
                    0 <= j < i ==> crate::rsi::images::image_dims(
                        #[trigger] frames_row@[j].spec_image(),
                    ) == crate::rsi::images::spec_crop_dims(
                        dims,
                        frames_row@[j]@.x,
                        frames_row@[j]@.y,
                        size.0,
                        size.1,
                    ),
            decreases row@.len() - i,
        {
            proof {
                lemma_counter_in_total(dmap, d as int, i as int);
            }
            let kmod: u32 = (counter % (cells0 as usize)) as u32;
            proof {
                lemma_frame_x_bounded(counter as int, cells0 as int, size.0 as int, dims.0 as int);
            }
            let x: u32 = kmod * size.0;
            let kdiv: usize = counter / (cells0 as usize);
            proof {
                vstd::arithmetic::div_mod::lemma_div_is_ordered(
                    counter as int,
                    (total - 1) as int,
                    cells0 as int,
                );
                vstd::arithmetic::mul::lemma_mul_inequality(
                    kdiv as int,
                    (total - 1) as int / cells0 as int,
                    size.1 as int,
                );
            }
            let y64: u64 = (kdiv as u64) * (size.1 as u64);
            let y: u32 = y64 as u32;
            let img = crate::rsi::images::crop_image(atlas, x, y, size.0, size.1);
            frames_row.push(Frame { image: img, x, y, delay: row[i] });
            counter += 1;
            i += 1;
        }
        icons.push(frames_row);
        proof {
            assert(spec_prefix_frames(dmap, d + 1) == spec_prefix_frames(dmap, d as int)
                + dmap[d as int].len());
        }
        d += 1;
    }
    proof {
        let frames_view = icons@.map_values(|row: Vec<Frame>| row@.map_values(|f: Frame| f@));
        let spec_view = Seq::new(
            dmap.len(),
            |d2: int| Seq::new(dmap[d2].len(), |i2: int| spec_frame(dmap, d2, i2, cells, size)),
        );
        assert(frames_view =~~= spec_view);
    }
    Ok(icons)
}

/// A frame counter inside direction `d` stays below the state's total frame
/// count.
proof fn lemma_counter_in_total(dmap: Seq<Seq<u64>>, d: int, i: int)
    requires
        0 <= d < dmap.len(),
        0 <= i < dmap[d].len(),
    ensures
        spec_prefix_frames(dmap, d) + i < spec_total_frames(dmap),
        spec_prefix_frames(dmap, d) >= 0,
{
    lemma_prefix_frames_monotonic(dmap, 0, d);
    lemma_prefix_frames_monotonic(dmap, d + 1, dmap.len() as int);
}

/// A cell column times the cell width stays within the atlas width.
proof fn lemma_frame_x_bounded(k: int, cells0: int, sx: int, aw: int)
    requires
        k >= 0,
        sx > 0,
        cells0 == aw / sx,
        cells0 > 0,
        aw >= 0,
    ensures
        0 <= (k % cells0) * sx,
        (k % cells0) * sx + sx <= aw,
{
    vstd::arithmetic::div_mod::lemma_mod_bound(k, cells0);
    vstd::arithmetic::div_mod::lemma_fundamental_div_mod(aw, sx);
    vstd::arithmetic::div_mod::lemma_mod_bound(aw, sx);
    vstd::arithmetic::mul::lemma_mul_inequality(k % cells0, cells0 - 1, sx);
    vstd::arithmetic::mul::lemma_mul_is_distributive_sub_other_way(sx, cells0, 1);
    vstd::arithmetic::mul::lemma_mul_is_commutative(cells0, sx);
    vstd::arithmetic::mul::lemma_mul_nonnegative(k % cells0, sx);
}

/// A row index times the cell height stays within the 32-bit range exactly
/// when the row index stays below the threshold the integer division gives.
proof fn lemma_offset_threshold(q: int, sy: int)
    requires
        q >= 0,
        sy > 0,
    ensures
        q * sy <= u32::MAX as int <==> q <= u32::MAX as int / sy,
{
    let m = u32::MAX as int;
    vstd::arithmetic::div_mod::lemma_fundamental_div_mod(m, sy);
    vstd::arithmetic::div_mod::lemma_mod_bound(m, sy);
    if q <= m / sy {
        vstd::arithmetic::mul::lemma_mul_inequality(q, m / sy, sy);
        vstd::arithmetic::mul::lemma_mul_is_commutative(m / sy, sy);
    } else {
        vstd::arithmetic::mul::lemma_mul_inequality(m / sy + 1, q, sy);
        vstd::arithmetic::mul::lemma_mul_is_distributive_add_other_way(sy, m / sy, 1);
        vstd::arithmetic::mul::lemma_mul_is_commutative(m / sy, sy);
    }
}

/// Parses the delays stage of a state: the declared `delays` array, or the
/// default of one zero-delay frame per direction when none is declared.
fn parse_delays(fields: &Vec<(String, MetaValue)>, directions: u8) -> (r: Result<
    Vec<Vec<u64>>,
    RsiError,
>)
    ensures
        match r {
            Ok(v) => {
                &&& spec_state_delays(fields@, directions) == Ok::<
                    Seq<Seq<u64>>,
                    RsiErrorView,
                >(v@.map_values(|row: Vec<u64>| row@))
                &&& v@.len() == directions
            },
            Err(e) => spec_state_delays(fields@, directions) == Err::<
                Seq<Seq<u64>>,
                RsiErrorView,
            >(e@),
        },
{
    match meta_lookup(fields, "delays") {
        None => {
            let mut rows: Vec<Vec<u64>> = Vec::new();
            let mut d: usize = 0;
            while d < directions as usize
                invariant
                    d <= directions as usize,
                    rows@.len() == d,
                    forall|j: int| 0 <= j < d ==> rows@[j]@ == seq![0u64],
                decreases directions as int - d as int,
            {
                let mut row: Vec<u64> = Vec::new();
                row.push(0);
                proof {
                    assert(row@ =~= seq![0u64]);
                }
                rows.push(row);
                d += 1;
            }
            proof {
                assert(rows@.map_values(|row: Vec<u64>| row@) =~= spec_default_delays(
                    directions as int,
                ));
            }
            Ok(rows)
        },
        Some(MetaValue::Array(arr)) => parse_delay_rows(arr, directions),
        Some(_) => Err(RsiError::Metadata(String::from_str("Invalid states list."))),
    }
}

/// What parsing one element of the manifest's `states` array yields, given
/// the state's object fields, the RSI directory's files and the document's
/// cell size: the state's metadata, or the first defect. Selectors are
/// reserved for future use and always parse as empty, so the full name equals
/// the base name.
pub open spec fn spec_state_from_meta(
    fields: Seq<(String, MetaValue)>,
    files: Seq<DirEntry>,
    size: (u32, u32),
) -> Result<StateView, RsiErrorView> {
    match spec_lookup(fields, "name"@) {
        Some(MetaValue::Text(name)) => match spec_lookup(fields, "directions"@) {
            Some(MetaValue::UInt(dirs)) => {
                let directions = dirs as u8;
                match spec_state_delays(fields, directions) {
                    Ok(delays) => match spec_find_file(files, name@ + ".png"@) {
                        Some(Some(bytes)) => match decoded_dims(bytes) {
                            Some(dims) => match spec_slice(delays, dims, size) {
                                Ok(frames) => Ok(
                                    StateView {
                                        name: name@,
                                        full_name: name@,
                                        size,
                                        directions,
                                        selectors: Seq::empty(),
                                        flags: Seq::empty(),
                                        frames,
                                    },
                                ),
                                Err(e) => Err(e),
                            },
                            None => Err(RsiErrorView::Image),
                        },
                        _ => Err(RsiErrorView::Image),
                    },
                    Err(e) => Err(e),
                }
            },
            _ => Err(RsiErrorView::Metadata("Directions not integer."@)),
        },
        _ => Err(RsiErrorView::Metadata("Name not string."@)),
    }
}

/// A parsed delay row holds one delay per array element.
pub proof fn lemma_delay_row_len(items: Seq<MetaValue>)
    ensures
        spec_delay_row(items) matches Ok(row) ==> row.len() == items.len(),
    decreases items.len(),
{
    if items.len() > 0 {
        lemma_delay_row_len(items.drop_first());
    }
}

/// Parsed delay rows are never empty: an empty declared sub-array is
/// rejected, so every direction keeps at least one frame.
pub proof fn lemma_delay_rows_framed(arr: Seq<MetaValue>, directions: int)
    ensures
        spec_delay_rows(arr, directions) matches Ok(rows) ==> forall|j: int|
            0 <= j < rows.len() ==> (#[trigger] rows[j]).len() >= 1,
    decreases directions,
{
    if directions > 0 && arr.len() > 0 {
        match arr[0] {
            MetaValue::Array(items) => {
                lemma_delay_row_len(items@);
                lemma_delay_rows_framed(arr.drop_first(), directions - 1);
            },
            _ => {},
        }
    }
}

/// Every state the parser accepts holds at least one frame in every
/// direction: declared delay rows are rejected when empty, and the default
/// supplies one zero-delay frame per direction.
pub proof fn lemma_state_framed(
    fields: Seq<(String, MetaValue)>,
    files: Seq<DirEntry>,
    size: (u32, u32),
)
    ensures
        spec_state_from_meta(fields, files, size) matches Ok(st)
            ==> st.each_direction_framed(),
{
    match spec_lookup(fields, "delays"@) {
        Some(MetaValue::Array(arr)) => {
            match spec_lookup(fields, "directions"@) {
                Some(MetaValue::UInt(dirs)) => {
                    lemma_delay_rows_framed(arr@, (dirs as u8) as int);
                },
                _ => {},
            }
        },
        _ => {},
    }
}

/// The dimensions of the atlas image a state's parse decoded; meaningful when
/// the parse succeeded.
pub open spec fn spec_state_atlas_dims(
    fields: Seq<(String, MetaValue)>,
    files: Seq<DirEntry>,
) -> (u32, u32) {
    let name = spec_lookup(fields, "name"@)->Some_0->Text_0;
    decoded_dims(spec_find_file(files, name@ + ".png"@)->Some_0->Some_0)->Some_0
}

impl State {
    /// Parses one element of the manifest's `states` array: reads the state's
    /// name and direction count, parses or defaults its delays, decodes the
    /// atlas image named after the state among the RSI directory's files, and
    /// slices it into frames.
    pub fn from_json(
        fields: &Vec<(String, MetaValue)>,
        files: &Vec<DirEntry>,
        size: (u32, u32),
    ) -> (r: Result<State, RsiError>)
        requires
            size.0 > 0,
            size.1 > 0,
        ensures
            match r {
                Ok(st) => {
                    &&& spec_state_from_meta(fields@, files@, size) == Ok::<
                        StateView,
                        RsiErrorView,
                    >(st@)
                    &&& st@.wf()
                    &&& st@.each_direction_framed()
                    &&& st@.size == size
                    &&& spec_frames_cut_from(
                        st.spec_icons(),
                        spec_state_atlas_dims(fields@, files@),
                        size,
                    )
                },
                Err(e) => spec_state_from_meta(fields@, files@, size) == Err::<
                    StateView,
                    RsiErrorView,
                >(e@),
            },
    {
        let name: &String = match meta_lookup(fields, "name") {
            Some(MetaValue::Text(n)) => n,
            _ => {
                return Err(RsiError::Metadata(String::from_str("Name not string.")));
            },
        };
        let directions: u8 = match meta_lookup(fields, "directions") {
            Some(MetaValue::UInt(d)) => #[verifier::truncate] (*d as u8),
            _ => {
                return Err(RsiError::Metadata(String::from_str("Directions not integer.")));
            },
        };
        let delays = match parse_delays(fields, directions) {
            Ok(v) => v,
            Err(e) => {
                return Err(e);
            },
        };
        let png_name = name.clone().concat(".png");
        let bytes: &Vec<u8> = match find_file(files, png_name.as_str()) {
            Some(content) => match content {
                Some(b) => b,
                None => {
                    return Err(RsiError::ImageError(String::from_str("Atlas image unreadable.")));
                },
            },
            None => {
                return Err(RsiError::ImageError(String::from_str("Atlas image missing.")));
            },
        };
        let atlas = match decode_image(bytes) {
            Ok(img) => img,
            Err(m) => {
                return Err(RsiError::ImageError(m));
            },
        };
        let icons = match slice_frames(&atlas, &delays, size) {
            Ok(v) => v,
            Err(e) => {
                return Err(e);
            },
        };
        let state = State {
            name: name.clone(),
            full_name: name.clone(),
            size,
            directions,
            selectors: Vec::new(),
            flags: Vec::new(),
            icons,
        };
        proof {
            assert(state@.full_name == spec_full_name(state@.name, state@.selectors));
            assert(state@.selectors =~= Seq::<RsiSelectors>::empty());
            assert(state@.flags =~= Seq::<RsiFlags>::empty());
            lemma_state_framed(fields@, files@, size);
        }
        Ok(state)
    }
}

} // verus!
