//! Asset classification and loading: a recursive walker over a directory
//! snapshot, a pluggable recognizer registry keyed by extension, and a
//! shared, atomically swapped asset store.

use vstd::prelude::*;

use std::sync::Arc;

use crate::helpers::string::str_eq;
use crate::rsi::rsi::{spec_open, Rsi, RsiView};
use crate::tree::DirEntry;

verus! {

/// The metadata of an asset: raw bytes, or an RSI document's metadata.
pub enum AssetView {
    /// A plain binary file's bytes.
    Binary(Seq<u8>),
    /// An RSI document.
    Rsi(RsiView),
}

/// An "asset". Assets can be things such as images, sound, binary files,
/// etc...
pub enum Asset {
    /// A simplistic binary file.
    ///
    /// This is basically the category a file falls under if nothing else was
    /// found for it.
    Binary(Vec<u8>),
    /// An RSI.
    Rsi(Rsi),
}

impl View for Asset {
    type V = AssetView;

    open spec fn view(&self) -> AssetView {
        match self {
            Asset::Binary(bytes) => AssetView::Binary(bytes@),
            Asset::Rsi(rsi) => AssetView::Rsi(rsi@),
        }
    }
}

impl Asset {
    /// Returns `true` if this asset is an `Asset::Binary`.
    pub fn is_binary(&self) -> (r: bool)
        ensures
            r == (self@ is Binary),
    {
        match self {
            Asset::Binary(_) => true,
            _ => false,
        }
    }

    /// Reads the "bytes" of this asset.
    /// Some asset types such as RSIs do not have direct byte representations.
    pub fn as_bytes(&self) -> (r: Option<&[u8]>)
        ensures
            match r {
                Some(bytes) => self@ == AssetView::Binary(bytes@),
                None => !(self@ is Binary),
            },
    {
        if let Asset::Binary(vec) = self {
            return Some(vec.as_slice());
        }
        None
    }

    /// Returns `true` if this asset is an RSI.
    pub fn is_rsi(&self) -> (r: bool)
        ensures
            r == (self@ is Rsi),
    {
        match self {
            Asset::Rsi(_) => true,
            _ => false,
        }
    }

    /// Returns an RSI if this asset is indeed an RSI.
    pub fn as_rsi(&self) -> (r: Option<&Rsi>)
        ensures
            match r {
                Some(rsi) => self@ == AssetView::Rsi(rsi@),
                None => !(self@ is Rsi),
            },
    {
        match self {
            Asset::Rsi(rsi) => Some(rsi),
            _ => None,
        }
    }
}

/// The position of the last `.` that can begin an extension: past the first
/// character, so a leading dot (a hidden file) starts no extension.
pub open spec fn spec_last_dot(name: Seq<char>) -> int
    decreases name.len(),
{
    if name.len() <= 1 {
        -1
    } else if name[name.len() - 1] == '.' {
        name.len() - 1
    } else {
        spec_last_dot(name.drop_last())
    }
}

/// A name's extension: what follows the last `.`, if one stands past the
/// first character; `None` otherwise.
pub open spec fn spec_extension(name: Seq<char>) -> Option<Seq<char>> {
    let i = spec_last_dot(name);
    if i < 0 {
        None
    } else {
        Some(name.subrange(i + 1, name.len() as int))
    }
}

proof fn lemma_last_dot_bounds(name: Seq<char>)
    ensures
        spec_last_dot(name) >= 0 ==> 1 <= spec_last_dot(name) < name.len(),
    decreases name.len(),
{
    if name.len() > 1 && name[name.len() - 1] != '.' {
        lemma_last_dot_bounds(name.drop_last());
    }
}

/// The extension of a file or directory name, as `Path::extension` reads it
/// for a single name: the part after the last `.`, unless the only `.` leads
/// the name.
pub fn extension_of(name: &str) -> (r: Option<String>)
    ensures
        match r {
            Some(ext) => spec_extension(name@) == Some(ext@),
            None => spec_extension(name@) is None,
        },
{
    let n = name.unicode_len();
    let mut j: usize = n;
    proof {
        assert(name@.take(n as int) =~= name@);
    }
    while j > 1
        invariant
            j <= n,
            n == name@.len(),
            spec_last_dot(name@) == spec_last_dot(name@.take(j as int)),
        decreases j,
    {
        proof {
            assert(name@.take(j as int).drop_last() =~= name@.take(j - 1));
            assert(name@.take(j as int)[j - 1] == name@[j - 1]);
        }
        if name.get_char(j - 1) == '.' {
            proof {
                lemma_last_dot_bounds(name@);
                assert(name@.take(j as int).len() == j);
            }
            let ext = name.substring_char(j, n);
            return Some(ext.to_owned());
        }
        j -= 1;
    }
    proof {
        assert(name@.take(j as int).len() <= 1);
    }
    None
}

/// The closed set of directory recognizers: each maps a directory of its
/// extension to one composite asset kind. New composite formats add a
/// variant here and an arm to [`spec_dir_recognizer`] and [`Asset::from_dir`]
/// without touching the walker.
pub enum DirRecognizer {
    /// Directories with extension `rsi` hold an RSI bundle.
    Rsi,
}

/// The recognizer registry's rule for directories: which recognizer, if any,
/// claims a directory of the given extension.
pub open spec fn spec_dir_recognizer(ext: Option<Seq<char>>) -> Option<DirRecognizer> {
    match ext {
        Some(e) => if e == "rsi"@ {
            Some(DirRecognizer::Rsi)
        } else {
            None
        },
        None => None,
    }
}

/// Looks a directory's extension up in the recognizer registry.
pub fn dir_recognizer(ext: &Option<String>) -> (r: Option<DirRecognizer>)
    ensures
        match ext {
            Some(e) => r == spec_dir_recognizer(Some(e@)),
            None => r == spec_dir_recognizer(None::<Seq<char>>),
        },
{
    match ext {
        Some(e) => {
            if str_eq(e.as_str(), "rsi") {
                Some(DirRecognizer::Rsi)
            } else {
                None
            }
        },
        None => None,
    }
}

/// What classifying a plain file yields: its bytes as a binary asset, or
/// nothing when the file could not be read (the walker skips it).
pub open spec fn spec_from_file(content: Option<Vec<u8>>) -> Option<AssetView> {
    match content {
        Some(bytes) => Some(AssetView::Binary(bytes@)),
        None => None,
    }
}

/// What classifying a directory yields: the recognized composite asset (or
/// nothing, when recognition or parsing failed), and whether the walker
/// should descend into the directory as plain files.
pub open spec fn spec_from_dir(name: Seq<char>, listing: Option<Vec<DirEntry>>) -> (
    Option<AssetView>,
    bool,
) {
    match spec_dir_recognizer(spec_extension(name)) {
        Some(DirRecognizer::Rsi) => match listing {
            Some(files) => match spec_open(files@) {
                Ok(doc) => (Some(AssetView::Rsi(doc)), false),
                Err(_) => (None, false),
            },
            None => (None, false),
        },
        None => (None, true),
    }
}

impl Asset {
    /// Ran over files by the walker to load assets.
    ///
    /// If this returns `None` on a file (its bytes could not be read), the
    /// file is ignored.
    pub fn from_file(content: &Option<Vec<u8>>) -> (r: Option<Asset>)
        ensures
            match r {
                Some(asset) => spec_from_file(*content) == Some(asset@),
                None => spec_from_file(*content) is None,
            },
    {
        match content {
            Some(bytes) => Some(Asset::Binary(vstd::slice::slice_to_vec(bytes.as_slice()))),
            None => None,
        }
    }

    /// Ran over directories by the walker to load assets.
    ///
    /// This is ran before files; if the second value of the returned tuple is
    /// `false`, the contents of the directory are ignored.
    pub fn from_dir(name: &str, listing: &Option<Vec<DirEntry>>) -> (r: (Option<Asset>, bool))
        ensures
            ({
                let spec = spec_from_dir(name@, *listing);
                &&& match r.0 {
                    Some(asset) => spec.0 == Some(asset@) && (asset@ matches AssetView::Rsi(doc)
                        ==> doc.wf()),
                    None => spec.0 is None,
                }
                &&& r.1 == spec.1
            }),
    {
        let ext = extension_of(name);
        match dir_recognizer(&ext) {
            Some(DirRecognizer::Rsi) => match listing {
                Some(files) => match Rsi::open(files) {
                    Ok(rsi) => (Some(Asset::Rsi(rsi)), false),
                    Err(_) => (None, false),
                },
                None => (None, false),
            },
            None => (None, true),
        }
    }
}

/// The walker's error: the whole walk is aborted and its partial results are
/// discarded.
#[derive(Debug)]
pub enum WalkError {
    /// A directory's entries could not be read.
    Io,
}

/// A relative path under the walk's root: path segments joined with `/`.
pub open spec fn spec_path_join(prefix: Seq<char>, name: Seq<char>) -> Seq<char> {
    if prefix.len() == 0 {
        name
    } else {
        prefix + "/"@ + name
    }
}

/// Joins a relative path and an entry name with `/`; an empty prefix stands
/// for the root itself.
pub fn path_join(prefix: &str, name: &str) -> (r: String)
    ensures
        r@ == spec_path_join(prefix@, name@),
{
    if prefix.is_empty() {
        name.to_owned()
    } else {
        let mut r = prefix.to_owned();
        r.append("/");
        r.append(name);
        r
    }
}

/// The position of the first table entry under a key, or `-1` when the key
/// has none.
pub open spec fn spec_entry_index(table: Seq<(Seq<char>, AssetView)>, key: Seq<char>) -> int
    decreases table.len(),
{
    if table.len() == 0 {
        -1
    } else if table[0].0 == key {
        0
    } else {
        let rest = spec_entry_index(table.drop_first(), key);
        if rest < 0 {
            -1
        } else {
            1 + rest
        }
    }
}

/// What the index of a key means: when non-negative it points at the first
/// entry under the key; when negative the key has no entry.
pub proof fn lemma_entry_index(table: Seq<(Seq<char>, AssetView)>, key: Seq<char>)
    ensures
        spec_entry_index(table, key) >= 0 ==> {
            &&& spec_entry_index(table, key) < table.len()
            &&& table[spec_entry_index(table, key)].0 == key
            &&& forall|j: int| 0 <= j < spec_entry_index(table, key) ==> table[j].0 != key
        },
        spec_entry_index(table, key) < 0 ==> forall|j: int|
            0 <= j < table.len() ==> table[j].0 != key,
    decreases table.len(),
{
    if table.len() > 0 && table[0].0 != key {
        lemma_entry_index(table.drop_first(), key);
        assert forall|j: int| 1 <= j < table.len() implies table.drop_first()[j - 1]
            == table[j] by {}
    }
}

/// The asset a relative path designates in a table.
pub open spec fn spec_get_entry(table: Seq<(Seq<char>, AssetView)>, key: Seq<char>) -> Option<
    AssetView,
> {
    let i = spec_entry_index(table, key);
    if i < 0 {
        None
    } else {
        Some(table[i].1)
    }
}

/// What inserting into the table comes to: an entry already under the key is
/// replaced in place; otherwise the entry is appended.
pub open spec fn spec_put_entry(
    table: Seq<(Seq<char>, AssetView)>,
    key: Seq<char>,
    asset: AssetView,
) -> Seq<(Seq<char>, AssetView)> {
    let i = spec_entry_index(table, key);
    if i < 0 {
        table.push((key, asset))
    } else {
        table.update(i, (key, asset))
    }
}

/// A table is well formed when its keys are distinct.
pub open spec fn spec_table_wf(table: Seq<(Seq<char>, AssetView)>) -> bool {
    forall|i: int, j: int|
        0 <= i < j < table.len() ==> (#[trigger] table[i]).0 != (#[trigger] table[j]).0
}

/// The metadata a table of loaded assets holds.
pub open spec fn spec_table_view(t: Seq<(String, Arc<Asset>)>) -> Seq<(Seq<char>, AssetView)> {
    t.map_values(|p: (String, Arc<Asset>)| (p.0@, p.1@))
}

/// Relies on `Arc`'s `clone`: the clone is a cheap shared handle to the same
/// value.
#[verifier::external_body]
fn arc_clone<T>(a: &Arc<T>) -> (r: Arc<T>)
    ensures
        r == *a,
{
    a.clone()
}

/// Inserts an asset into a table under a relative path, replacing any entry
/// the path already has.
fn put_asset(table: &mut Vec<(String, Arc<Asset>)>, key: String, asset: Arc<Asset>)
    requires
        spec_table_wf(spec_table_view(old(table)@)),
    ensures
        spec_table_view(final(table)@) == spec_put_entry(
            spec_table_view(old(table)@),
            key@,
            asset@,
        ),
        spec_table_wf(spec_table_view(final(table)@)),
{
    let ghost tv = spec_table_view(table@);
    proof {
        lemma_entry_index(tv, key@);
    }
    let mut i: usize = 0;
    while i < table.len()
        invariant
            i <= table@.len(),
            tv == spec_table_view(old(table)@),
            tv == spec_table_view(table@),
            spec_table_wf(tv),
            forall|j: int| 0 <= j < i ==> (#[trigger] tv[j]).0 != key@,
            spec_entry_index(tv, key@) >= 0 ==> {
                &&& spec_entry_index(tv, key@) < tv.len()
                &&& tv[spec_entry_index(tv, key@)].0 == key@
                &&& forall|j: int| 0 <= j < spec_entry_index(tv, key@) ==> tv[j].0 != key@
            },
            spec_entry_index(tv, key@) < 0 ==> forall|j: int|
                0 <= j < tv.len() ==> tv[j].0 != key@,
        decreases table@.len() - i,
    {
        if str_eq(table[i].0.as_str(), key.as_str()) {
            proof {
                let idx = spec_entry_index(tv, key@);
                assert(tv[i as int].0 == key@);
                if idx < 0 {
                    assert(tv[i as int].0 != key@);
                } else if idx < i as int {
                    assert(tv[idx].0 != key@);
                } else if idx > i as int {
                    assert(tv[i as int].0 != key@);
                }
            }
            table.set(i, (key, asset));
            proof {
                assert(spec_table_view(table@) =~= spec_put_entry(tv, key@, asset@));
            }
            return ;
        }
        i += 1;
    }
    table.push((key, asset));
    proof {
        assert(spec_table_view(table@) =~= spec_put_entry(tv, key@, asset@));
    }
}

/// What classifying one directory entry adds to the table: a readable file
/// becomes a binary asset under its relative path; a recognized composite
/// directory becomes one composite asset; per-entry failures are skipped.
/// `None` aborts the whole walk: an unrecognized directory whose listing
/// could not be read.
pub open spec fn spec_walk_entry(
    e: DirEntry,
    prefix: Seq<char>,
    acc: Seq<(Seq<char>, AssetView)>,
) -> Option<Seq<(Seq<char>, AssetView)>>
    decreases e,
{
    match e {
        DirEntry::File { name, content } => match spec_from_file(content) {
            Some(av) => Some(spec_put_entry(acc, spec_path_join(prefix, name@), av)),
            None => Some(acc),
        },
        DirEntry::Dir { name, listing } => {
            let rel = spec_path_join(prefix, name@);
            let fd = spec_from_dir(name@, listing);
            let acc2 = match fd.0 {
                Some(av) => spec_put_entry(acc, rel, av),
                None => acc,
            };
            if fd.1 {
                match listing {
                    Some(l) => spec_walk(l@, rel, acc2),
                    None => None,
                }
            } else {
                Some(acc2)
            }
        },
    }
}

/// What walking a directory listing adds to the table: its entries are
/// classified in order, depth first. `None` aborts the whole walk.
pub open spec fn spec_walk(
    entries: Seq<DirEntry>,
    prefix: Seq<char>,
    acc: Seq<(Seq<char>, AssetView)>,
) -> Option<Seq<(Seq<char>, AssetView)>>
    decreases entries,
{
    if entries.len() == 0 {
        Some(acc)
    } else {
        match spec_walk_entry(entries[0], prefix, acc) {
            Some(acc2) => spec_walk(entries.drop_first(), prefix, acc2),
            None => None,
        }
    }
}

/// Recursively loads all files and subfiles of a directory listing into the
/// table, depth first.
fn walk_into(entries: &Vec<DirEntry>, prefix: &str, table: &mut Vec<(String, Arc<Asset>)>) -> (r:
    Result<(), WalkError>)
    requires
        spec_table_wf(spec_table_view(old(table)@)),
    ensures
        spec_table_wf(spec_table_view(final(table)@)),
        match r {
            Ok(()) => spec_walk(entries@, prefix@, spec_table_view(old(table)@)) == Some(
                spec_table_view(final(table)@),
            ),
            Err(_) => spec_walk(entries@, prefix@, spec_table_view(old(table)@)) is None,
        },
    decreases entries@,
{
    let ghost t0 = spec_table_view(old(table)@);
    let mut i: usize = 0;
    proof {
        assert(entries@.skip(0) =~= entries@);
    }
    while i < entries.len()
        invariant
            i <= entries@.len(),
            t0 == spec_table_view(old(table)@),
            spec_table_wf(spec_table_view(table@)),
            spec_walk(entries@, prefix@, t0) == spec_walk(
                entries@.skip(i as int),
                prefix@,
                spec_table_view(table@),
            ),
        decreases entries@.len() - i,
    {
        proof {
            assert(entries@.skip(i as int)[0] == entries@[i as int]);
            assert(entries@.skip(i as int).drop_first() =~= entries@.skip(i + 1));
        }
        let ghost cur0 = spec_table_view(table@);
        match &entries[i] {
            DirEntry::File { name, content } => {
                if let Some(asset) = Asset::from_file(content) {
                    let rel = path_join(prefix, name.as_str());
                    put_asset(table, rel, Arc::new(asset));
                }
            },
            DirEntry::Dir { name, listing } => {
                let rel = path_join(prefix, name.as_str());
                let (asset, cont) = Asset::from_dir(name.as_str(), listing);
                if let Some(asset) = asset {
                    put_asset(table, rel.clone(), Arc::new(asset));
                }
                if cont {
                    let ghost cur = spec_table_view(table@);
                    match listing {
                        Some(inner) => {
                            proof {
                                assert(decreases_to!(entries@ => entries@[i as int]));
                                assert(decreases_to!(entries@[i as int] => inner@));
                            }
                            match walk_into(inner, rel.as_str(), table) {
                                Ok(()) => {},
                                Err(e) => {
                                    proof {
                                        assert(spec_walk(inner@, rel@, cur) is None);
                                        assert(spec_walk_entry(
                                            entries@[i as int],
                                            prefix@,
                                            cur,
                                        ) is None);
                                        assert(spec_walk(
                                            entries@.skip(i as int),
                                            prefix@,
                                            cur,
                                        ) is None);
                                    }
                                    return Err(e);
                                },
                            }
                        },
                        None => {
                            proof {
                                assert(spec_walk_entry(entries@[i as int], prefix@, cur)
                                    is None);
                                assert(spec_walk(entries@.skip(i as int), prefix@, cur)
                                    is None);
                            }
                            return Err(WalkError::Io);
                        },
                    }
                }
            },
        }
        proof {
            assert(spec_walk_entry(entries@[i as int], prefix@, cur0) == Some(
                spec_table_view(table@),
            ));
        }
        i += 1;
    }
    proof {
        assert(entries@.skip(entries@.len() as int) =~= Seq::<DirEntry>::empty());
    }
    Ok(())
}

/// Whether a path string is absolute: it begins with the path separator.
pub open spec fn spec_absolute_path(path: Seq<char>) -> bool {
    path.len() > 0 && path[0] == '/'
}

/// The metadata of a loaded asset table: the assets by relative path, and the
/// absolute root they were loaded from.
pub struct AssetManagerView {
    /// The assets, keyed by path relative to the root.
    pub assets: Seq<(Seq<char>, AssetView)>,
    /// The absolute path to which the assets are relative.
    pub root: Seq<char>,
}

impl AssetManagerView {
    /// A table is well formed when its keys are distinct and its root is
    /// absolute; a fresh table that was never loaded has an empty root.
    pub open spec fn wf(&self) -> bool {
        &&& spec_table_wf(self.assets)
        &&& (self.root.len() == 0 || spec_absolute_path(self.root))
    }
}

/// Manages all assets: the table a successful load produced, keyed by path
/// relative to the root it was loaded from.
pub struct AssetManager {
    assets: Vec<(String, Arc<Asset>)>,
    /// The absolute path to which the assets are relative.
    root: String,
}

impl View for AssetManager {
    type V = AssetManagerView;

    closed spec fn view(&self) -> AssetManagerView {
        AssetManagerView { assets: spec_table_view(self.assets@), root: self.root@ }
    }
}

impl AssetManager {
    /// An empty manager: no assets, loaded from nowhere.
    pub fn new() -> (r: AssetManager)
        ensures
            r@ == (AssetManagerView { assets: Seq::empty(), root: Seq::<char>::empty() }),
            r@.wf(),
    {
        let r = AssetManager { assets: Vec::new(), root: String::new() };
        proof {
            assert(r@.assets =~= Seq::<(Seq<char>, AssetView)>::empty());
        }
        r
    }

    /// How many assets are loaded.
    pub fn len(&self) -> (r: usize)
        ensures
            r == self@.assets.len(),
    {
        self.assets.len()
    }

    /// The absolute root path the assets were loaded from.
    pub fn get_root(&self) -> (r: &str)
        ensures
            r@ == self@.root,
    {
        self.root.as_str()
    }

    /// Returns an iterator over all loaded assets.
    pub fn iter<'a>(&'a self) -> (r: AssetIter<'a>)
        ensures
            r.spec_entries() == self@.assets,
            r.spec_pos() == 0,
    {
        AssetIter { entries: &self.assets, pos: 0 }
    }
}

/// An iterator over all the loaded assets, in table order.
pub struct AssetIter<'a> {
    entries: &'a Vec<(String, Arc<Asset>)>,
    pos: usize,
}

impl<'a> AssetIter<'a> {
    /// The table the iterator walks.
    pub closed spec fn spec_entries(&self) -> Seq<(Seq<char>, AssetView)> {
        spec_table_view(self.entries@)
    }

    /// How many entries the iterator has handed out.
    pub closed spec fn spec_pos(&self) -> int {
        self.pos as int
    }

    /// The next relative path and asset, or `None` once all have been handed
    /// out.
    pub fn next(&mut self) -> (r: Option<(&'a String, &'a Arc<Asset>)>)
        ensures
            final(self).spec_entries() == old(self).spec_entries(),
            match r {
                Some(pair) => {
                    &&& old(self).spec_pos() < old(self).spec_entries().len()
                    &&& (pair.0@, pair.1@) == old(self).spec_entries()[old(self).spec_pos()]
                    &&& final(self).spec_pos() == old(self).spec_pos() + 1
                },
                None => {
                    &&& old(self).spec_pos() >= old(self).spec_entries().len()
                    &&& final(self).spec_pos() == old(self).spec_pos()
                },
            },
    {
        if self.pos < self.entries.len() {
            let pair = &self.entries[self.pos];
            self.pos += 1;
            Some((&pair.0, &pair.1))
        } else {
            None
        }
    }
}

/// Get an asset by path relative from the directory assets were loaded from.
///
/// This means that if assets were loaded from directory `/a`, `b/c` would
/// point to `/a/b/c`. The returned handle shares ownership of the asset.
pub fn get_asset(manager: &AssetManager, path: &str) -> (r: Option<Arc<Asset>>)
    ensures
        match r {
            Some(asset) => spec_get_entry(manager@.assets, path@) == Some(asset@),
            None => spec_get_entry(manager@.assets, path@) is None,
        },
{
    let ghost tv = manager@.assets;
    proof {
        lemma_entry_index(tv, path@);
    }
    let mut i: usize = 0;
    while i < manager.assets.len()
        invariant
            i <= manager.assets@.len(),
            tv == manager@.assets,
            forall|j: int| 0 <= j < i ==> (#[trigger] tv[j]).0 != path@,
            spec_entry_index(tv, path@) >= 0 ==> {
                &&& spec_entry_index(tv, path@) < tv.len()
                &&& tv[spec_entry_index(tv, path@)].0 == path@
                &&& forall|j: int| 0 <= j < spec_entry_index(tv, path@) ==> tv[j].0 != path@
            },
            spec_entry_index(tv, path@) < 0 ==> forall|j: int|
                0 <= j < tv.len() ==> tv[j].0 != path@,
        decreases manager.assets@.len() - i,
    {
        if str_eq(manager.assets[i].0.as_str(), path) {
            proof {
                let idx = spec_entry_index(tv, path@);
                assert(tv[i as int].0 == path@);
                if idx < 0 {
                    assert(tv[i as int].0 != path@);
                } else if idx < i as int {
                    assert(tv[idx].0 != path@);
                } else if idx > i as int {
                    assert(tv[i as int].0 != path@);
                }
            }
            return Some(arc_clone(&manager.assets[i].1));
        }
        i += 1;
    }
    None
}

/// Loads a directory snapshot into the manager, wholesale.
///
/// `root` must be the absolute path the snapshot was taken from and becomes
/// the "root" the loaded paths are relative to; recording an unreadable root
/// as `None` is the caller's duty. The new table is built off to the side:
/// when any traversal step failed, the manager is left entirely unchanged.
pub fn load_from_dir(manager: &mut AssetManager, root: &str, listing: Option<&Vec<DirEntry>>) -> (r:
    Result<(), WalkError>)
    requires
        old(manager)@.wf(),
        spec_absolute_path(root@),
    ensures
        final(manager)@.wf(),
        match r {
            Ok(()) => {
                &&& listing matches Some(l) && spec_walk(l@, Seq::<char>::empty(), Seq::empty())
                    == Some(final(manager)@.assets)
                &&& final(manager)@.root == root@
            },
            Err(_) => {
                &&& final(manager)@ == old(manager)@
                &&& match listing {
                    Some(l) => spec_walk(l@, Seq::<char>::empty(), Seq::empty()) is None,
                    None => true,
                }
            },
        },
{
    proof {
        lemma_table_wf_empty();
    }
    match listing {
        Some(entries) => {
            let mut new_assets: Vec<(String, Arc<Asset>)> = Vec::new();
            proof {
                assert(spec_table_view(new_assets@) =~= Seq::<(Seq<char>, AssetView)>::empty());
            }
            match walk_into(entries, "", &mut new_assets) {
                Ok(()) => {
                    proof {
                        reveal_strlit("");
                        assert(""@ =~= Seq::<char>::empty());
                    }
                    manager.assets = new_assets;
                    manager.root = root.to_owned();
                    Ok(())
                },
                Err(e) => {
                    proof {
                        reveal_strlit("");
                        assert(""@ =~= Seq::<char>::empty());
                    }
                    Err(e)
                },
            }
        },
        None => Err(WalkError::Io),
    }
}

/// An empty table is well formed.
proof fn lemma_table_wf_empty()
    ensures
        spec_table_wf(Seq::<(Seq<char>, AssetView)>::empty()),
{
}

/// Clones a table: the clone holds the same paths and cheap shared handles to
/// the same assets.
fn clone_table(t: &Vec<(String, Arc<Asset>)>) -> (r: Vec<(String, Arc<Asset>)>)
    ensures
        spec_table_view(r@) == spec_table_view(t@),
{
    let mut r: Vec<(String, Arc<Asset>)> = Vec::new();
    let mut i: usize = 0;
    while i < t.len()
        invariant
            i <= t@.len(),
            r@.len() == i,
            forall|j: int|
                0 <= j < i ==> (#[trigger] r@[j]).0@ == t@[j].0@ && r@[j].1@ == t@[j].1@,
        decreases t@.len() - i,
    {
        let pair = &t[i];
        r.push((pair.0.clone(), arc_clone(&pair.1)));
        i += 1;
    }
    proof {
        assert(spec_table_view(r@) =~= spec_table_view(t@));
    }
    r
}

/// A shared, swappable asset store: a readers-writer lock guards the manager.
/// A load builds its table off to the side and takes the lock exclusively
/// only for the final swap; lookups and snapshots take it briefly in shared
/// mode, so readers never observe a partially built table. Two concurrent
/// loads are not mutually excluded from walking in parallel: only their final
/// swaps are serialized, last writer wins.
pub struct AssetStore {
    lock: vstd::rwlock::RwLock<AssetManager, spec_fn(AssetManager) -> bool>,
}

impl AssetStore {
    /// The invariant every manager in the store satisfies.
    pub open spec fn store_inv() -> spec_fn(AssetManager) -> bool {
        |m: AssetManager| m@.wf()
    }

    /// The store's lock is configured with the store invariant.
    pub closed spec fn wf(&self) -> bool {
        self.lock.pred() == Self::store_inv()
    }

    /// A fresh store holding an empty manager.
    pub fn new() -> (r: AssetStore)
        ensures
            r.wf(),
    {
        AssetStore {
            lock: vstd::rwlock::RwLock::new(AssetManager::new(), Ghost(Self::store_inv())),
        }
    }

    /// Get an asset by path relative to the directory assets were loaded
    /// from, under a brief shared lock. The returned handle shares ownership
    /// of the asset, so later loads do not affect it.
    ///
    /// No contract relates the result to any one table: which table the lock
    /// holds at the moment of the lookup depends on the interleaving with
    /// concurrent loads. The lookup itself is [`get_asset`], whose contract is
    /// exact for the table it is given.
    pub fn get(&self, path: &str) -> (r: Option<Arc<Asset>>)
        requires
            self.wf(),
    {
        let handle = self.lock.acquire_read();
        let manager = handle.borrow();
        let r = get_asset(manager, path);
        handle.release_read();
        r
    }

    /// A snapshot of the current table: the relative paths and cheap shared
    /// handles to the assets, as they stand at call time. Later loads do not
    /// affect a snapshot already taken.
    ///
    /// Which table is snapshotted depends on the interleaving with concurrent
    /// loads; what is stated is that the snapshot is a table of distinct
    /// relative paths, as every table behind the lock is.
    pub fn iterate(&self) -> (r: Vec<(String, Arc<Asset>)>)
        requires
            self.wf(),
        ensures
            spec_table_wf(spec_table_view(r@)),
    {
        let handle = self.lock.acquire_read();
        let manager = handle.borrow();
        let snapshot = clone_table(&manager.assets);
        proof {
            assert(Self::store_inv()(*manager));
            assert(spec_table_view(snapshot@) =~= manager@.assets);
        }
        handle.release_read();
        snapshot
    }

    /// Loads a directory snapshot into the store. `root` must be the absolute
    /// path the snapshot was taken from.
    ///
    /// The walk runs without the lock; only on success is the lock taken
    /// exclusively and the whole table swapped at once. A failed walk leaves
    /// the previous table and root entirely intact: no swap occurs. The swap
    /// itself cannot be stated here (the lock's contents vary with concurrent
    /// loads, last writer wins); the table that is swapped in is exactly what
    /// [`load_from_dir`]'s contract gives for this snapshot.
    pub fn load(&self, root: &str, listing: Option<&Vec<DirEntry>>) -> (r: Result<(), WalkError>)
        requires
            self.wf(),
            spec_absolute_path(root@),
        ensures
            r is Ok <==> (listing matches Some(l) && spec_walk(
                l@,
                Seq::<char>::empty(),
                Seq::empty(),
            ) is Some),
    {
        let mut manager = AssetManager::new();
        match load_from_dir(&mut manager, root, listing) {
            Ok(()) => {
                let (_old_manager, write_handle) = self.lock.acquire_write();
                write_handle.release_write(manager);
                Ok(())
            },
            Err(e) => Err(e),
        }
    }
}

} // verus!
