//! An in-memory snapshot of a directory tree, as plain values.
//!
//! The host process walks the real filesystem and records what it saw here;
//! the library's walker and the RSI parser then work on the snapshot alone.
//! A `None` where content or a listing would stand records that the host
//! could not read that file or directory.

use vstd::prelude::*;

use crate::helpers::string::str_eq;

verus! {

/// One entry of a directory, by name.
pub enum DirEntry {
    /// A plain file and its bytes; `None` when the file could not be read.
    File { name: String, content: Option<Vec<u8>> },
    /// A subdirectory and its entries; `None` when its listing could not be
    /// read.
    Dir { name: String, listing: Option<Vec<DirEntry>> },
}

impl DirEntry {
    /// The entry's file or directory name.
    pub open spec fn spec_name(&self) -> Seq<char> {
        match self {
            DirEntry::File { name, .. } => name@,
            DirEntry::Dir { name, .. } => name@,
        }
    }

    /// The entry's file or directory name.
    pub fn name(&self) -> (r: &str)
        ensures
            r@ == self.spec_name(),
    {
        match self {
            DirEntry::File { name, .. } => name.as_str(),
            DirEntry::Dir { name, .. } => name.as_str(),
        }
    }
}

/// The bytes of the first plain file of a given name in a listing: `None`
/// when no file of that name is there, `Some(None)` when the file is there
/// but its bytes could not be read.
pub open spec fn spec_find_file(entries: Seq<DirEntry>, name: Seq<char>) -> Option<
    Option<Seq<u8>>,
>
    decreases entries.len(),
{
    if entries.len() == 0 {
        None
    } else {
        match entries[0] {
            DirEntry::File { name: n, content } => {
                if n@ == name {
                    Some(
                        match content {
                            Some(b) => Some(b@),
                            None => None,
                        },
                    )
                } else {
                    spec_find_file(entries.drop_first(), name)
                }
            },
            DirEntry::Dir { .. } => spec_find_file(entries.drop_first(), name),
        }
    }
}

/// Finds the first plain file of a given name in a listing.
pub fn find_file<'a>(entries: &'a Vec<DirEntry>, name: &str) -> (r: Option<&'a Option<Vec<u8>>>)
    ensures
        match r {
            Some(content) => spec_find_file(entries@, name@) == Some(
                match content {
                    Some(b) => Some(b@),
                    None => None::<Seq<u8>>,
                },
            ),
            None => spec_find_file(entries@, name@) is None,
        },
{
    let mut i: usize = 0;
    proof {
        assert(entries@.skip(0) =~= entries@);
    }
    while i < entries.len()
        invariant
            i <= entries@.len(),
            spec_find_file(entries@, name@) == spec_find_file(entries@.skip(i as int), name@),
        decreases entries@.len() - i,
    {
        proof {
            assert(entries@.skip(i as int)[0] == entries@[i as int]);
            assert(entries@.skip(i as int).drop_first() =~= entries@.skip(i + 1));
        }
        match &entries[i] {
            DirEntry::File { name: n, content } => {
                if str_eq(n.as_str(), name) {
                    return Some(content);
                }
            },
            DirEntry::Dir { .. } => {},
        }
        i += 1;
    }
    None
}

} // verus!
