//! The directories that a session works on, and which files in them can be
//! edited.

use vstd::prelude::*;
use vstd::string::StringSliceAdditionalSpecFns;
use vstd::utf8::{encode_utf8, encode_utf8_decode_utf8};
use std::path::{Path, PathBuf};

verus! {

/// `std::path::PathBuf`, carried through as it is.
#[verifier::external_type_specification]
#[verifier::external_body]
pub struct ExPathBuf(PathBuf);

/// `std::path::Path`, carried through as it is.
#[verifier::external_type_specification]
#[verifier::external_body]
pub struct ExPath(Path);

/// The bytes that make up a borrowed path.
pub uninterp spec fn path_text(path: &Path) -> Seq<u8>;

/// The bytes that make up an owned path.
pub uninterp spec fn path_buf_text(path: PathBuf) -> Seq<u8>;

/// `Path::to_path_buf`: an owned copy of the path.
#[verifier::external_body]
pub(crate) fn to_path_buf(path: &Path) -> (owned: PathBuf)
    ensures
        path_buf_text(owned) == path_text(path),
{
    path.to_path_buf()
}

/// `PathBuf::from` on a string slice: the path that the string spells.
#[verifier::external_body]
pub(crate) fn path_from(text: &str) -> (path: PathBuf)
    ensures
        path_buf_text(path) == encode_utf8(text@),
{
    PathBuf::from(text)
}

/// `PathBuf::new`: the empty path.
#[verifier::external_body]
pub(crate) fn empty_path() -> (path: PathBuf)
    ensures
        path_buf_text(path) == Seq::<u8>::empty(),
{
    PathBuf::new()
}

/// `PathBuf::as_path`: the owned path, borrowed.
#[verifier::external_body]
pub(crate) fn as_path(path: &PathBuf) -> (borrowed: &Path)
    ensures
        path_text(borrowed) == path_buf_text(*path),
{
    path.as_path()
}

/// Whether two strings hold the same text.
fn same_text(a: &str, b: &str) -> (same: bool)
    ensures
        same == (a@ == b@),
{
    let left = a.as_bytes();
    let right = b.as_bytes();
    proof {
        encode_utf8_decode_utf8(a@);
        encode_utf8_decode_utf8(b@);
    }
    if left.len() != right.len() {
        return false;
    }
    let mut i: usize = 0;
    while i < left.len()
        invariant
            i <= left.len(),
            left.len() == right.len(),
            left@ == encode_utf8(a@),
            right@ == encode_utf8(b@),
            forall|j: int| 0 <= j < i ==> left[j] == right[j],
        decreases left.len() - i,
    {
        if left[i] != right[i] {
            return false;
        }
        i = i + 1;
    }
    assert(left@ =~= right@);
    true
}

/// Whether a file with this extension holds game data that can be edited:
/// the extension is `xml`, `xnb` or `chr`.
pub open spec fn modifiable(extension: Seq<char>) -> bool {
    extension == seq!['x', 'm', 'l'] || extension == seq!['x', 'n', 'b'] || extension == seq![
        'c',
        'h',
        'r',
    ]
}

/// The bytes of the path of the directory that backups go to: `backups`.
pub open spec fn backups_dir() -> Seq<u8> {
    encode_utf8(seq!['b', 'a', 'c', 'k', 'u', 'p', 's'])
}

/// The two directories of a session: the game's data, and the backups.
pub struct FileManager {
    game_path: PathBuf,
    backup_path: PathBuf,
}

impl FileManager {
    /// The bytes of the path of the game's data directory.
    pub closed spec fn game_dir(&self) -> Seq<u8> {
        path_buf_text(self.game_path)
    }

    /// The bytes of the path of the backup directory.
    pub closed spec fn backup_dir(&self) -> Seq<u8> {
        path_buf_text(self.backup_path)
    }

    /// A session on the game data under `game_path`, with its backups in the
    /// directory `backups`.
    pub fn new(game_path: &Path) -> (manager: Self)
        ensures
            manager.game_dir() == path_text(game_path),
            manager.backup_dir() == backups_dir(),
    {
        proof {
            reveal_strlit("backups");
            assert("backups"@ =~= seq!['b', 'a', 'c', 'k', 'u', 'p', 's']);
        }
        let backup_path = path_from("backups");
        FileManager { game_path: to_path_buf(game_path), backup_path }
    }

    pub fn get_backup_path(&self) -> (path: &PathBuf)
        ensures
            path_buf_text(*path) == self.backup_dir(),
    {
        &self.backup_path
    }

    pub fn get_game_path(&self) -> (path: &PathBuf)
        ensures
            path_buf_text(*path) == self.game_dir(),
    {
        &self.game_path
    }

    /// Whether a file with this extension belongs to the files that a
    /// session lists, backs up and restores.
    pub fn is_modifiable(extension: &str) -> (yes: bool)
        ensures
            yes == modifiable(extension@),
    {
        proof {
            reveal_strlit("xml");
            reveal_strlit("xnb");
            reveal_strlit("chr");
            assert("xml"@ =~= seq!['x', 'm', 'l']);
            assert("xnb"@ =~= seq!['x', 'n', 'b']);
            assert("chr"@ =~= seq!['c', 'h', 'r']);
        }
        same_text(extension, "xml") || same_text(extension, "xnb") || same_text(extension, "chr")
    }
}

} // verus!
