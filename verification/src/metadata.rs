//! What a directory entry carries, and the ten-character mode string.

use vstd::prelude::*;
use crate::text::string_of;

verus! {

/// The metadata of one filesystem entry, as plain values.
#[derive(Clone, Copy, Debug, PartialEq, Eq)]
pub struct FileMeta {
    /// Whether the entry is a directory.
    pub is_dir: bool,
    /// The permission bits, in the POSIX layout.
    pub mode: u32,
    /// The number of hard links.
    pub nlink: u64,
    /// The owner's numeric id.
    pub uid: u32,
    /// The group's numeric id.
    pub gid: u32,
    /// The size in bytes.
    pub size: u64,
    /// The time of the last modification, in seconds since the Unix epoch.
    pub modified: i64,
}

/// A directory entry: its name and its metadata.
#[derive(Debug, PartialEq, Eq)]
pub struct FileInfo {
    pub name: String,
    pub metadata: FileMeta,
}

/// The mathematical value of a `FileInfo`.
pub struct Entry {
    pub name: Seq<char>,
    pub meta: FileMeta,
}

impl View for FileInfo {
    type V = Entry;

    open spec fn view(&self) -> Entry {
        Entry { name: self.name@, meta: self.metadata }
    }
}

/// The values of a sequence of entries.
pub open spec fn entries(s: Seq<FileInfo>) -> Seq<Entry> {
    s.map_values(|e: FileInfo| e@)
}

impl FileInfo {
    pub fn new(name: String, metadata: FileMeta) -> (out: FileInfo)
        ensures
            out@ == (Entry { name: name@, meta: metadata }),
    {
        FileInfo { name, metadata }
    }

    /// A copy of this entry.
    pub fn duplicate(&self) -> (out: FileInfo)
        ensures
            out@ == self@,
    {
        FileInfo { name: self.name.clone(), metadata: self.metadata }
    }
}

/// `letter` where `bit` is set in `mode`, a dash where it is not.
pub open spec fn permission_char(mode: u32, bit: u32, letter: char) -> char {
    if mode & bit != 0 {
        letter
    } else {
        '-'
    }
}

/// The mode string: `d` or a dash for the type, then read, write and execute
/// for the owner, the group and the others.
pub open spec fn mode_text(meta: FileMeta) -> Seq<char> {
    seq![
        if meta.is_dir { 'd' } else { '-' },
        permission_char(meta.mode, 0o400, 'r'),
        permission_char(meta.mode, 0o200, 'w'),
        permission_char(meta.mode, 0o100, 'x'),
        permission_char(meta.mode, 0o40, 'r'),
        permission_char(meta.mode, 0o20, 'w'),
        permission_char(meta.mode, 0o10, 'x'),
        permission_char(meta.mode, 0o4, 'r'),
        permission_char(meta.mode, 0o2, 'w'),
        permission_char(meta.mode, 0o1, 'x'),
    ]
}

fn permission(mode: u32, bit: u32, letter: char) -> (c: char)
    ensures
        c == permission_char(mode, bit, letter),
{
    if mode & bit != 0 {
        letter
    } else {
        '-'
    }
}

/// The characters of the mode string.
pub fn mode_chars(metadata: &FileMeta) -> (out: Vec<char>)
    ensures
        out@ == mode_text(*metadata),
        out@.len() == 10,
{
    let mode: u32 = metadata.mode;
    let mut out: Vec<char> = Vec::new();
    out.push(if metadata.is_dir { 'd' } else { '-' });
    out.push(permission(mode, 0o400, 'r'));
    out.push(permission(mode, 0o200, 'w'));
    out.push(permission(mode, 0o100, 'x'));
    out.push(permission(mode, 0o40, 'r'));
    out.push(permission(mode, 0o20, 'w'));
    out.push(permission(mode, 0o10, 'x'));
    out.push(permission(mode, 0o4, 'r'));
    out.push(permission(mode, 0o2, 'w'));
    out.push(permission(mode, 0o1, 'x'));
    assert(out@ =~= mode_text(*metadata));
    out
}

/// Renders type and permission bits as the ten-character mode string.
pub fn mode_string(metadata: &FileMeta) -> (out: String)
    ensures
        out@ == mode_text(*metadata),
        out@.len() == 10,
{
    string_of(&mode_chars(metadata))
}

} // verus!
