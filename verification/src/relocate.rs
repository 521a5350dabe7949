//! The transactional file-relocation engine.  Every operation validates its
//! paths before touching anything, never overwrites silently (except the
//! explicit replace), and either completes fully or leaves the tree exactly as
//! it was.  The operations run on the in-memory [`FsState`] model; the
//! unverified shell mirrors each completed operation onto the real file
//! system.

use vstd::prelude::*;

use crate::errors::CommandError;
use crate::fsys::{
    FsState,
    file_name_spec,
    file_name_of,
    joined_path,
    path_join,
    parent_spec,
    parent_of,
    stem_spec,
    ext_dot_spec,
    split_stem_ext,
    candidate_name,
    candidate_of,
};
use crate::text::{contains_sub, contains, trimmed, trim_str};

verus! {

/// What a relocation request comes to once the tree has been examined: the
/// first failed validation, or clearance to act.
pub enum RelocCheck {
    /// The source path holds a traversal sequence.
    TraversalSource,
    /// The destination path holds a traversal sequence.
    TraversalDest,
    /// The new name holds a traversal sequence.
    TraversalName,
    /// Nothing lives at the source path.
    SourceMissing,
    /// The source path names a directory, not a file.
    SourceNotFile,
    /// The new name holds a path separator.
    NameHasSep,
    /// The new name holds a reserved character.
    NameBadChar,
    /// The new name is empty or all whitespace.
    NameEmpty,
    /// The source path ends in a separator and has no file name.
    BadSourceName,
    /// A file sits where the destination folder should be.
    DestIsFile,
    /// The destination folder does not exist.
    DestMissing,
    /// Source and destination are the same path.
    SamePath,
    /// The destination already holds an entry of that name.
    Duplicate,
    /// The destination folder already holds an entry of the new name.
    DuplicateAtDest,
    /// A directory sits at the destination entry's path.
    DestEntryIsDir,
    /// Every auto-rename candidate up to the bound is taken.
    TooManyDuplicates,
    /// The operation may proceed.
    Clear,
}

/// Reject paths that carry traversal sequences.  Canonicalisation against the
/// real tree is the shell's concern; the model works on the literal path.
pub fn validate_path(path: &str) -> (r: Result<(), CommandError>)
    ensures
        r is Ok <==> !contains_sub(path@, ".."@),
        r matches Err(e) ==> e == CommandError::PathTraversal,
{
    if contains(path, "..") {
        Err(CommandError::PathTraversal)
    } else {
        Ok(())
    }
}

/// The outcome [`move_file`] owes for this request.
pub open spec fn move_file_check(
    files: Map<Seq<char>, Seq<u8>>,
    dirs: Set<Seq<char>>,
    src: Seq<char>,
    dstf: Seq<char>,
) -> RelocCheck {
    let dest = joined_path(dstf, file_name_spec(src));
    if contains_sub(src, ".."@) {
        RelocCheck::TraversalSource
    } else if !files.contains_key(src) && !dirs.contains(src) {
        RelocCheck::SourceMissing
    } else if !files.contains_key(src) {
        RelocCheck::SourceNotFile
    } else if contains_sub(dstf, ".."@) {
        RelocCheck::TraversalDest
    } else if file_name_spec(src).len() == 0 {
        RelocCheck::BadSourceName
    } else if files.contains_key(dstf) {
        RelocCheck::DestIsFile
    } else if files.contains_key(dest) || dirs.contains(dest) {
        RelocCheck::Duplicate
    } else {
        RelocCheck::Clear
    }
}

/// Move the file at `source_path` into `dest_folder`, keeping its name.  The
/// destination folder is created if absent; a same-named entry there fails the
/// move with `DuplicateExists` and no change at all.
pub fn move_file(fs: &mut FsState, source_path: &str, dest_folder: &str) -> (r: Result<
    String,
    CommandError,
>)
    ensures
        r is Err ==> final(fs).files() == old(fs).files() && final(fs).dirs() == old(fs).dirs(),
        ({
            let src = source_path@;
            let dstf = dest_folder@;
            let dest = joined_path(dstf, file_name_spec(src));
            match move_file_check(old(fs).files(), old(fs).dirs(), src, dstf) {
                RelocCheck::TraversalSource => r matches Err(e) && e == CommandError::PathTraversal,
                RelocCheck::TraversalDest => r matches Err(e) && e == CommandError::PathTraversal,
                RelocCheck::SourceMissing => r matches Err(e) && e matches CommandError::FileNotFound(p)
                    && p@ == src,
                RelocCheck::SourceNotFile => r matches Err(e) && e matches CommandError::InvalidPath(m)
                    && m@ == "Source is not a file: "@ + src,
                RelocCheck::BadSourceName => r matches Err(e) && e matches CommandError::InvalidPath(m)
                    && m@ == "Invalid source file path"@,
                RelocCheck::DestIsFile => r matches Err(e) && e matches CommandError::IoError(m)
                    && m@ == "Not a directory: "@ + dstf,
                RelocCheck::Duplicate => r matches Err(e) && e matches CommandError::DuplicateExists(p)
                    && p@ == dest,
                RelocCheck::Clear => {
                    &&& r matches Ok(m) && m@ == "Moved to "@ + dest
                    &&& final(fs).files() == old(fs).files().remove(src).insert(
                        dest,
                        old(fs).files()[src],
                    )
                    &&& final(fs).dirs() == old(fs).dirs().insert(dstf)
                },
                _ => false,
            }
        }),
{
    if let Err(e) = validate_path(source_path) {
        return Err(e);
    }
    if !fs.is_file(source_path) {
        if fs.is_dir(source_path) {
            let mut m = String::new();
            m.append("Source is not a file: ");
            m.append(source_path);
            return Err(CommandError::InvalidPath(m));
        }
        return Err(CommandError::FileNotFound(source_path.to_owned()));
    }
    if let Err(e) = validate_path(dest_folder) {
        return Err(e);
    }
    let name = file_name_of(source_path);
    if name.as_str().is_empty() {
        let mut m = String::new();
        m.append("Invalid source file path");
        return Err(CommandError::InvalidPath(m));
    }
    if fs.is_file(dest_folder) {
        let mut m = String::new();
        m.append("Not a directory: ");
        m.append(dest_folder);
        return Err(CommandError::IoError(m));
    }
    let dest_path = path_join(dest_folder, name.as_str());
    if fs.is_occupied(dest_path.as_str()) {
        return Err(CommandError::DuplicateExists(dest_path));
    }
    fs.mkdir(dest_folder);
    let bytes = match fs.read_file(source_path) {
        Some(b) => b,
        None => {
            proof {
                assert(false);
            }
            return Err(CommandError::FileNotFound(source_path.to_owned()));
        },
    };
    fs.remove_file(source_path);
    fs.write_file(dest_path.as_str(), bytes);
    let mut m = String::new();
    m.append("Moved to ");
    m.append(dest_path.as_str());
    Ok(m)
}

/// The outcome [`undo_move`] owes for this request.
pub open spec fn undo_move_check(
    files: Map<Seq<char>, Seq<u8>>,
    dirs: Set<Seq<char>>,
    src: Seq<char>,
    origf: Seq<char>,
) -> RelocCheck {
    let dest = joined_path(origf, file_name_spec(src));
    if contains_sub(src, ".."@) {
        RelocCheck::TraversalSource
    } else if contains_sub(origf, ".."@) {
        RelocCheck::TraversalDest
    } else if !files.contains_key(src) && !dirs.contains(src) {
        RelocCheck::SourceMissing
    } else if !files.contains_key(src) {
        RelocCheck::SourceNotFile
    } else if file_name_spec(src).len() == 0 {
        RelocCheck::BadSourceName
    } else if files.contains_key(origf) {
        RelocCheck::DestIsFile
    } else if files.contains_key(dest) || dirs.contains(dest) {
        RelocCheck::Duplicate
    } else {
        RelocCheck::Clear
    }
}

/// Move a previously relocated file back into its recorded original folder.
/// Fails with `DuplicateExists` if something now occupies that original
/// location, and with `FileNotFound` if the moved file no longer exists.
pub fn undo_move(fs: &mut FsState, file_path: &str, original_folder: &str) -> (r: Result<
    String,
    CommandError,
>)
    ensures
        r is Err ==> final(fs).files() == old(fs).files() && final(fs).dirs() == old(fs).dirs(),
        ({
            let src = file_path@;
            let origf = original_folder@;
            let dest = joined_path(origf, file_name_spec(src));
            match undo_move_check(old(fs).files(), old(fs).dirs(), src, origf) {
                RelocCheck::TraversalSource => r matches Err(e) && e == CommandError::PathTraversal,
                RelocCheck::TraversalDest => r matches Err(e) && e == CommandError::PathTraversal,
                RelocCheck::SourceMissing => r matches Err(e) && e matches CommandError::FileNotFound(p)
                    && p@ == src,
                RelocCheck::SourceNotFile => r matches Err(e) && e matches CommandError::InvalidPath(m)
                    && m@ == "Path is not a file: "@ + src,
                RelocCheck::BadSourceName => r matches Err(e) && e matches CommandError::InvalidPath(m)
                    && m@ == "Invalid file path"@,
                RelocCheck::DestIsFile => r matches Err(e) && e matches CommandError::IoError(m)
                    && m@ == "Not a directory: "@ + origf,
                RelocCheck::Duplicate => r matches Err(e) && e matches CommandError::DuplicateExists(p)
                    && p@ == dest,
                RelocCheck::Clear => {
                    &&& r matches Ok(m) && m@ == "Restored to "@ + dest
                    &&& final(fs).files() == old(fs).files().remove(src).insert(
                        dest,
                        old(fs).files()[src],
                    )
                    &&& final(fs).dirs() == old(fs).dirs().insert(origf)
                },
                _ => false,
            }
        }),
{
    if let Err(e) = validate_path(file_path) {
        return Err(e);
    }
    if let Err(e) = validate_path(original_folder) {
        return Err(e);
    }
    if !fs.is_file(file_path) {
        if fs.is_dir(file_path) {
            let mut m = String::new();
            m.append("Path is not a file: ");
            m.append(file_path);
            return Err(CommandError::InvalidPath(m));
        }
        return Err(CommandError::FileNotFound(file_path.to_owned()));
    }
    let name = file_name_of(file_path);
    if name.as_str().is_empty() {
        let mut m = String::new();
        m.append("Invalid file path");
        return Err(CommandError::InvalidPath(m));
    }
    if fs.is_file(original_folder) {
        let mut m = String::new();
        m.append("Not a directory: ");
        m.append(original_folder);
        return Err(CommandError::IoError(m));
    }
    let dest_path = path_join(original_folder, name.as_str());
    if fs.is_occupied(dest_path.as_str()) {
        return Err(CommandError::DuplicateExists(dest_path));
    }
    fs.mkdir(original_folder);
    let bytes = match fs.read_file(file_path) {
        Some(b) => b,
        None => {
            proof {
                assert(false);
            }
            return Err(CommandError::FileNotFound(file_path.to_owned()));
        },
    };
    fs.remove_file(file_path);
    fs.write_file(dest_path.as_str(), bytes);
    let mut m = String::new();
    m.append("Restored to ");
    m.append(dest_path.as_str());
    Ok(m)
}

/// The outcome [`trash_file`] owes for this request.
pub open spec fn trash_check(
    files: Map<Seq<char>, Seq<u8>>,
    dirs: Set<Seq<char>>,
    p: Seq<char>,
) -> RelocCheck {
    if contains_sub(p, ".."@) {
        RelocCheck::TraversalSource
    } else if !files.contains_key(p) && !dirs.contains(p) {
        RelocCheck::SourceMissing
    } else if !files.contains_key(p) {
        RelocCheck::SourceNotFile
    } else {
        RelocCheck::Clear
    }
}

/// Drop the file at `file_path` from the tree; the shell performs the actual
/// soft-delete to the platform's recoverable bin.
pub fn trash_file(fs: &mut FsState, file_path: &str) -> (r: Result<String, CommandError>)
    ensures
        r is Err ==> final(fs).files() == old(fs).files() && final(fs).dirs() == old(fs).dirs(),
        final(fs).dirs() == old(fs).dirs(),
        ({
            let p = file_path@;
            match trash_check(old(fs).files(), old(fs).dirs(), p) {
                RelocCheck::TraversalSource => r matches Err(e) && e == CommandError::PathTraversal,
                RelocCheck::SourceMissing => r matches Err(e) && e matches CommandError::FileNotFound(q)
                    && q@ == p,
                RelocCheck::SourceNotFile => r matches Err(e) && e matches CommandError::InvalidPath(m)
                    && m@ == "Path is not a file: "@ + p,
                RelocCheck::Clear => {
                    &&& r matches Ok(m) && m@ == "Sent to recycle bin"@
                    &&& final(fs).files() == old(fs).files().remove(p)
                },
                _ => false,
            }
        }),
{
    if let Err(e) = validate_path(file_path) {
        return Err(e);
    }
    if !fs.is_file(file_path) {
        if fs.is_dir(file_path) {
            let mut m = String::new();
            m.append("Path is not a file: ");
            m.append(file_path);
            return Err(CommandError::InvalidPath(m));
        }
        return Err(CommandError::FileNotFound(file_path.to_owned()));
    }
    fs.remove_file(file_path);
    let mut m = String::new();
    m.append("Sent to recycle bin");
    Ok(m)
}

/// Create a folder (and, on the real tree, its missing parents).  Succeeds
/// whether or not the folder already exists.
pub fn create_folder(fs: &mut FsState, path: &str) -> (r: Result<String, CommandError>)
    ensures
        final(fs).files() == old(fs).files(),
        ({
            if contains_sub(path@, ".."@) {
                r matches Err(e) && e == CommandError::PathTraversal && final(fs).dirs() == old(
                    fs,
                ).dirs()
            } else {
                r matches Ok(m) && m@ == "Folder created: "@ + path@ && final(fs).dirs() == old(
                    fs,
                ).dirs().insert(path@)
            }
        }),
{
    if let Err(e) = validate_path(path) {
        return Err(e);
    }
    fs.mkdir(path);
    let mut m = String::new();
    m.append("Folder created: ");
    m.append(path);
    Ok(m)
}

/// A path names a file or a directory in the given tree.
pub open spec fn occupied_in(
    files: Map<Seq<char>, Seq<u8>>,
    dirs: Set<Seq<char>>,
    p: Seq<char>,
) -> bool {
    files.contains_key(p) || dirs.contains(p)
}

/// Move the file at `src` to `dest` inside the tree, carrying its bytes.
fn relocate_entry(fs: &mut FsState, src: &str, dest: &str)
    requires
        old(fs).files().contains_key(src@),
    ensures
        final(fs).files() == old(fs).files().remove(src@).insert(dest@, old(fs).files()[src@]),
        final(fs).dirs() == old(fs).dirs(),
{
    let bytes = match fs.read_file(src) {
        Some(b) => b,
        None => unreached(),
    };
    fs.remove_file(src);
    fs.write_file(dest, bytes);
}

/// The least `j >= k` up to the auto-rename bound whose candidate name is
/// free in the destination folder.
pub open spec fn first_free(
    files: Map<Seq<char>, Seq<u8>>,
    dirs: Set<Seq<char>>,
    dstf: Seq<char>,
    stem: Seq<char>,
    ext_dot: Seq<char>,
    k: nat,
) -> Option<nat>
    decreases 10000 - k,
{
    if k > 9999 {
        None
    } else if !occupied_in(files, dirs, joined_path(dstf, candidate_name(stem, ext_dot, k))) {
        Some(k)
    } else {
        first_free(files, dirs, dstf, stem, ext_dot, (k + 1) as nat)
    }
}

/// The name the auto-renaming move gives the file in the destination folder:
/// its own name if free, else the first free suffix-counter candidate, or
/// nothing if every candidate up to the bound is taken.
pub open spec fn auto_dest_name(
    files: Map<Seq<char>, Seq<u8>>,
    dirs: Set<Seq<char>>,
    dstf: Seq<char>,
    name: Seq<char>,
) -> Option<Seq<char>> {
    if !occupied_in(files, dirs, joined_path(dstf, name)) {
        Some(name)
    } else {
        match first_free(files, dirs, dstf, stem_spec(name), ext_dot_spec(name), 1) {
            Some(k) => Some(candidate_name(stem_spec(name), ext_dot_spec(name), k)),
            None => None,
        }
    }
}

/// The outcome [`move_file_with_rename`] owes for this request.
pub open spec fn move_rename_check(
    files: Map<Seq<char>, Seq<u8>>,
    dirs: Set<Seq<char>>,
    src: Seq<char>,
    dstf: Seq<char>,
) -> RelocCheck {
    if contains_sub(src, ".."@) {
        RelocCheck::TraversalSource
    } else if !files.contains_key(src) && !dirs.contains(src) {
        RelocCheck::SourceMissing
    } else if !files.contains_key(src) {
        RelocCheck::SourceNotFile
    } else if contains_sub(dstf, ".."@) {
        RelocCheck::TraversalDest
    } else if file_name_spec(src).len() == 0 {
        RelocCheck::BadSourceName
    } else if files.contains_key(dstf) {
        RelocCheck::DestIsFile
    } else if auto_dest_name(files, dirs, dstf, file_name_spec(src)) is None {
        RelocCheck::TooManyDuplicates
    } else {
        RelocCheck::Clear
    }
}

/// Move the file at `source_path` into `dest_folder`; on a name collision,
/// append `_1`, `_2`, ... before the extension until a free name is found,
/// up to the bound.  The colliding files are never touched.
pub fn move_file_with_rename(fs: &mut FsState, source_path: &str, dest_folder: &str) -> (r: Result<
    String,
    CommandError,
>)
    ensures
        r is Err ==> final(fs).files() == old(fs).files() && final(fs).dirs() == old(fs).dirs(),
        ({
            let src = source_path@;
            let dstf = dest_folder@;
            match move_rename_check(old(fs).files(), old(fs).dirs(), src, dstf) {
                RelocCheck::TraversalSource => r matches Err(e) && e == CommandError::PathTraversal,
                RelocCheck::TraversalDest => r matches Err(e) && e == CommandError::PathTraversal,
                RelocCheck::SourceMissing => r matches Err(e) && e matches CommandError::FileNotFound(p)
                    && p@ == src,
                RelocCheck::SourceNotFile => r matches Err(e) && e matches CommandError::InvalidPath(m)
                    && m@ == "Source is not a file: "@ + src,
                RelocCheck::BadSourceName => r matches Err(e) && e matches CommandError::InvalidPath(m)
                    && m@ == "Invalid source file path"@,
                RelocCheck::DestIsFile => r matches Err(e) && e matches CommandError::IoError(m)
                    && m@ == "Not a directory: "@ + dstf,
                RelocCheck::TooManyDuplicates => r matches Err(e) && e matches CommandError::IoError(m)
                    && m@ == "Too many duplicate files at destination"@,
                RelocCheck::Clear => {
                    let chosen = auto_dest_name(
                        old(fs).files(),
                        old(fs).dirs(),
                        dstf,
                        file_name_spec(src),
                    )->Some_0;
                    let dest = joined_path(dstf, chosen);
                    &&& r matches Ok(m) && m@ == "Moved to "@ + dest
                    &&& final(fs).files() == old(fs).files().remove(src).insert(
                        dest,
                        old(fs).files()[src],
                    )
                    &&& final(fs).dirs() == old(fs).dirs().insert(dstf)
                },
                _ => false,
            }
        }),
{
    if let Err(e) = validate_path(source_path) {
        return Err(e);
    }
    if !fs.is_file(source_path) {
        if fs.is_dir(source_path) {
            let mut m = String::new();
            m.append("Source is not a file: ");
            m.append(source_path);
            return Err(CommandError::InvalidPath(m));
        }
        return Err(CommandError::FileNotFound(source_path.to_owned()));
    }
    if let Err(e) = validate_path(dest_folder) {
        return Err(e);
    }
    let name = file_name_of(source_path);
    if name.as_str().is_empty() {
        let mut m = String::new();
        m.append("Invalid source file path");
        return Err(CommandError::InvalidPath(m));
    }
    if fs.is_file(dest_folder) {
        let mut m = String::new();
        m.append("Not a directory: ");
        m.append(dest_folder);
        return Err(CommandError::IoError(m));
    }
    let direct = path_join(dest_folder, name.as_str());
    if !fs.is_occupied(direct.as_str()) {
        fs.mkdir(dest_folder);
        relocate_entry(fs, source_path, direct.as_str());
        let mut m = String::new();
        m.append("Moved to ");
        m.append(direct.as_str());
        return Ok(m);
    }
    let (stem, ext_dot) = split_stem_ext(name.as_str());
    let mut k: u64 = 1;
    while k <= 9999
        invariant
            1 <= k <= 10000,
            fs.files() == old(fs).files(),
            fs.dirs() == old(fs).dirs(),
            name@ == file_name_spec(source_path@),
            name@.len() > 0,
            stem@ == stem_spec(name@),
            ext_dot@ == ext_dot_spec(name@),
            !contains_sub(source_path@, ".."@),
            !contains_sub(dest_folder@, ".."@),
            old(fs).files().contains_key(source_path@),
            !old(fs).files().contains_key(dest_folder@),
            occupied_in(old(fs).files(), old(fs).dirs(), joined_path(dest_folder@, name@)),
            first_free(old(fs).files(), old(fs).dirs(), dest_folder@, stem@, ext_dot@, 1)
                == first_free(old(fs).files(), old(fs).dirs(), dest_folder@, stem@, ext_dot@, k as nat),
        decreases 10000 - k,
    {
        let cand = candidate_of(stem.as_str(), ext_dot.as_str(), k);
        let p = path_join(dest_folder, cand.as_str());
        if !fs.is_occupied(p.as_str()) {
            proof {
                assert(first_free(
                    old(fs).files(),
                    old(fs).dirs(),
                    dest_folder@,
                    stem@,
                    ext_dot@,
                    k as nat,
                ) == Some(k as nat));
                assert(auto_dest_name(old(fs).files(), old(fs).dirs(), dest_folder@, name@)
                    == Some(cand@));
            }
            fs.mkdir(dest_folder);
            relocate_entry(fs, source_path, p.as_str());
            let mut m = String::new();
            m.append("Moved to ");
            m.append(p.as_str());
            return Ok(m);
        }
        k += 1;
    }
    let mut m = String::new();
    m.append("Too many duplicate files at destination");
    Err(CommandError::IoError(m))
}

/// The destination path [`move_file_with_rename`] would give the file on
/// this tree, or nothing when every candidate up to the bound is taken.  The
/// shell asks this before mirroring a completed auto-renaming move, instead
/// of parsing the engine's message.
pub fn auto_destination(fs: &FsState, source_path: &str, dest_folder: &str) -> (r: Option<String>)
    ensures
        (match auto_dest_name(fs.files(), fs.dirs(), dest_folder@, file_name_spec(source_path@)) {
            Some(n) => r matches Some(p) && p@ == joined_path(dest_folder@, n),
            None => r is None,
        }),
{
    let name = file_name_of(source_path);
    let direct = path_join(dest_folder, name.as_str());
    if !fs.is_occupied(direct.as_str()) {
        return Some(direct);
    }
    let (stem, ext_dot) = split_stem_ext(name.as_str());
    let mut k: u64 = 1;
    while k <= 9999
        invariant
            1 <= k <= 10000,
            name@ == file_name_spec(source_path@),
            stem@ == stem_spec(name@),
            ext_dot@ == ext_dot_spec(name@),
            occupied_in(fs.files(), fs.dirs(), joined_path(dest_folder@, name@)),
            first_free(fs.files(), fs.dirs(), dest_folder@, stem@, ext_dot@, 1) == first_free(
                fs.files(),
                fs.dirs(),
                dest_folder@,
                stem@,
                ext_dot@,
                k as nat,
            ),
        decreases 10000 - k,
    {
        let cand = candidate_of(stem.as_str(), ext_dot.as_str(), k);
        let p = path_join(dest_folder, cand.as_str());
        if !fs.is_occupied(p.as_str()) {
            proof {
                assert(first_free(
                    fs.files(),
                    fs.dirs(),
                    dest_folder@,
                    stem@,
                    ext_dot@,
                    k as nat,
                ) == Some(k as nat));
            }
            return Some(p);
        }
        k += 1;
    }
    None
}

/// The outcome [`replace_file`] owes for this request.
pub open spec fn replace_check(
    files: Map<Seq<char>, Seq<u8>>,
    dirs: Set<Seq<char>>,
    src: Seq<char>,
    dstf: Seq<char>,
) -> RelocCheck {
    let dest = joined_path(dstf, file_name_spec(src));
    if contains_sub(src, ".."@) {
        RelocCheck::TraversalSource
    } else if !files.contains_key(src) && !dirs.contains(src) {
        RelocCheck::SourceMissing
    } else if !files.contains_key(src) {
        RelocCheck::SourceNotFile
    } else if contains_sub(dstf, ".."@) {
        RelocCheck::TraversalDest
    } else if file_name_spec(src).len() == 0 {
        RelocCheck::BadSourceName
    } else if !dirs.contains(dstf) {
        RelocCheck::DestMissing
    } else if dest == src {
        RelocCheck::SamePath
    } else if dirs.contains(dest) {
        RelocCheck::DestEntryIsDir
    } else {
        RelocCheck::Clear
    }
}

/// Move the file at `source_path` into `dest_folder`, removing any file
/// already sitting at the destination name first: the one operation allowed
/// to overwrite, for explicit user-confirmed replacements.
pub fn replace_file(fs: &mut FsState, source_path: &str, dest_folder: &str) -> (r: Result<
    String,
    CommandError,
>)
    ensures
        r is Err ==> final(fs).files() == old(fs).files() && final(fs).dirs() == old(fs).dirs(),
        final(fs).dirs() == old(fs).dirs(),
        ({
            let src = source_path@;
            let dstf = dest_folder@;
            let dest = joined_path(dstf, file_name_spec(src));
            match replace_check(old(fs).files(), old(fs).dirs(), src, dstf) {
                RelocCheck::TraversalSource => r matches Err(e) && e == CommandError::PathTraversal,
                RelocCheck::TraversalDest => r matches Err(e) && e == CommandError::PathTraversal,
                RelocCheck::SourceMissing => r matches Err(e) && e matches CommandError::FileNotFound(p)
                    && p@ == src,
                RelocCheck::SourceNotFile => r matches Err(e) && e matches CommandError::InvalidPath(m)
                    && m@ == "Source is not a file: "@ + src,
                RelocCheck::BadSourceName => r matches Err(e) && e matches CommandError::InvalidPath(m)
                    && m@ == "Invalid source file path"@,
                RelocCheck::DestMissing => r matches Err(e) && e matches CommandError::FileNotFound(p)
                    && p@ == dstf,
                RelocCheck::SamePath => r matches Err(e) && e matches CommandError::InvalidPath(m)
                    && m@ == "Source and destination are the same file"@,
                RelocCheck::DestEntryIsDir => r matches Err(e) && e matches CommandError::IoError(m)
                    && m@ == "Is a directory: "@ + dest,
                RelocCheck::Clear => {
                    &&& r matches Ok(m) && m@ == "Replaced "@ + dest
                    &&& final(fs).files() == old(fs).files().remove(src).insert(
                        dest,
                        old(fs).files()[src],
                    )
                },
                _ => false,
            }
        }),
{
    if let Err(e) = validate_path(source_path) {
        return Err(e);
    }
    if !fs.is_file(source_path) {
        if fs.is_dir(source_path) {
            let mut m = String::new();
            m.append("Source is not a file: ");
            m.append(source_path);
            return Err(CommandError::InvalidPath(m));
        }
        return Err(CommandError::FileNotFound(source_path.to_owned()));
    }
    if let Err(e) = validate_path(dest_folder) {
        return Err(e);
    }
    let name = file_name_of(source_path);
    if name.as_str().is_empty() {
        let mut m = String::new();
        m.append("Invalid source file path");
        return Err(CommandError::InvalidPath(m));
    }
    if !fs.is_dir(dest_folder) {
        return Err(CommandError::FileNotFound(dest_folder.to_owned()));
    }
    let dest_path = path_join(dest_folder, name.as_str());
    let source_owned = source_path.to_owned();
    if dest_path == source_owned {
        let mut m = String::new();
        m.append("Source and destination are the same file");
        return Err(CommandError::InvalidPath(m));
    }
    if fs.is_dir(dest_path.as_str()) {
        let mut m = String::new();
        m.append("Is a directory: ");
        m.append(dest_path.as_str());
        return Err(CommandError::IoError(m));
    }
    if fs.is_file(dest_path.as_str()) {
        fs.remove_file(dest_path.as_str());
    }
    relocate_entry(fs, source_path, dest_path.as_str());
    proof {
        assert(fs.files() =~= old(fs).files().remove(source_path@).insert(
            dest_path@,
            old(fs).files()[source_path@],
        ));
    }
    let mut m = String::new();
    m.append("Replaced ");
    m.append(dest_path.as_str());
    Ok(m)
}

/// A character the engine refuses in a new file name.
pub open spec fn is_reserved_name_char(c: char) -> bool {
    c == '<' || c == '>' || c == ':' || c == '"' || c == '|' || c == '?' || c == '*'
}

/// The name holds a path separator.
pub open spec fn name_has_sep(name: Seq<char>) -> bool {
    exists|i: int| 0 <= i < name.len() && crate::fsys::is_sep(#[trigger] name[i])
}

/// The name holds a reserved character.
pub open spec fn name_has_reserved(name: Seq<char>) -> bool {
    exists|i: int| 0 <= i < name.len() && is_reserved_name_char(#[trigger] name[i])
}

fn scan_name_has_sep(name: &str) -> (r: bool)
    ensures
        r == name_has_sep(name@),
{
    let n = name.unicode_len();
    let mut i: usize = 0;
    while i < n
        invariant
            n == name@.len(),
            i <= n,
            forall|j: int| 0 <= j < i ==> !crate::fsys::is_sep(#[trigger] name@[j]),
        decreases n - i,
    {
        let c = name.get_char(i);
        if c == '/' || c == '\\' {
            return true;
        }
        i += 1;
    }
    false
}

fn scan_name_has_reserved(name: &str) -> (r: bool)
    ensures
        r == name_has_reserved(name@),
{
    let n = name.unicode_len();
    let mut i: usize = 0;
    while i < n
        invariant
            n == name@.len(),
            i <= n,
            forall|j: int| 0 <= j < i ==> !is_reserved_name_char(#[trigger] name@[j]),
        decreases n - i,
    {
        let c = name.get_char(i);
        if c == '<' || c == '>' || c == ':' || c == '"' || c == '|' || c == '?' || c == '*' {
            return true;
        }
        i += 1;
    }
    false
}

/// The outcome [`rename_file`] owes for this request.
pub open spec fn rename_check(
    files: Map<Seq<char>, Seq<u8>>,
    dirs: Set<Seq<char>>,
    path: Seq<char>,
    new_name: Seq<char>,
) -> RelocCheck {
    let new_path = joined_path(parent_spec(path), new_name);
    if contains_sub(path, ".."@) {
        RelocCheck::TraversalSource
    } else if contains_sub(new_name, ".."@) {
        RelocCheck::TraversalName
    } else if name_has_sep(new_name) {
        RelocCheck::NameHasSep
    } else if name_has_reserved(new_name) {
        RelocCheck::NameBadChar
    } else if trimmed(new_name).len() == 0 {
        RelocCheck::NameEmpty
    } else if !files.contains_key(path) && !dirs.contains(path) {
        RelocCheck::SourceMissing
    } else if !files.contains_key(path) {
        RelocCheck::SourceNotFile
    } else if occupied_in(files, dirs, new_path) {
        RelocCheck::Duplicate
    } else {
        RelocCheck::Clear
    }
}

/// Rename the file at `file_path` in place.  The new name must be plain: no
/// separators, no traversal, no reserved characters, not empty.
pub fn rename_file(fs: &mut FsState, file_path: &str, new_name: &str) -> (r: Result<
    String,
    CommandError,
>)
    ensures
        r is Err ==> final(fs).files() == old(fs).files() && final(fs).dirs() == old(fs).dirs(),
        final(fs).dirs() == old(fs).dirs(),
        ({
            let path = file_path@;
            let name = new_name@;
            let new_path = joined_path(parent_spec(path), name);
            match rename_check(old(fs).files(), old(fs).dirs(), path, name) {
                RelocCheck::TraversalSource => r matches Err(e) && e == CommandError::PathTraversal,
                RelocCheck::TraversalName => r matches Err(e) && e == CommandError::PathTraversal,
                RelocCheck::NameHasSep => r matches Err(e) && e matches CommandError::InvalidPath(m)
                    && m@ == "New name cannot contain path separators"@,
                RelocCheck::NameBadChar => r matches Err(e) && e matches CommandError::InvalidPath(m)
                    && m@ == "New name contains invalid characters"@,
                RelocCheck::NameEmpty => r matches Err(e) && e matches CommandError::InvalidPath(m)
                    && m@ == "New name cannot be empty"@,
                RelocCheck::SourceMissing => r matches Err(e) && e matches CommandError::FileNotFound(p)
                    && p@ == path,
                RelocCheck::SourceNotFile => r matches Err(e) && e matches CommandError::InvalidPath(m)
                    && m@ == "Path is not a file: "@ + path,
                RelocCheck::Duplicate => r matches Err(e) && e matches CommandError::DuplicateExists(p)
                    && p@ == name,
                RelocCheck::Clear => {
                    &&& r matches Ok(m) && m@ == new_path
                    &&& final(fs).files() == old(fs).files().remove(path).insert(
                        new_path,
                        old(fs).files()[path],
                    )
                },
                _ => false,
            }
        }),
{
    if let Err(e) = validate_path(file_path) {
        return Err(e);
    }
    if contains(new_name, "..") {
        return Err(CommandError::PathTraversal);
    }
    if scan_name_has_sep(new_name) {
        let mut m = String::new();
        m.append("New name cannot contain path separators");
        return Err(CommandError::InvalidPath(m));
    }
    if scan_name_has_reserved(new_name) {
        let mut m = String::new();
        m.append("New name contains invalid characters");
        return Err(CommandError::InvalidPath(m));
    }
    let t = trim_str(new_name);
    if t.as_str().is_empty() {
        let mut m = String::new();
        m.append("New name cannot be empty");
        return Err(CommandError::InvalidPath(m));
    }
    if !fs.is_file(file_path) {
        if fs.is_dir(file_path) {
            let mut m = String::new();
            m.append("Path is not a file: ");
            m.append(file_path);
            return Err(CommandError::InvalidPath(m));
        }
        return Err(CommandError::FileNotFound(file_path.to_owned()));
    }
    let parent = parent_of(file_path);
    let new_path = path_join(parent.as_str(), new_name);
    if fs.is_occupied(new_path.as_str()) {
        return Err(CommandError::DuplicateExists(new_name.to_owned()));
    }
    relocate_entry(fs, file_path, new_path.as_str());
    Ok(new_path)
}

/// The outcome [`rename_and_move_file`] owes for this request.
pub open spec fn rename_and_move_check(
    files: Map<Seq<char>, Seq<u8>>,
    dirs: Set<Seq<char>>,
    path: Seq<char>,
    new_name: Seq<char>,
    dstf: Seq<char>,
) -> RelocCheck {
    let renamed = joined_path(parent_spec(path), new_name);
    let dest = joined_path(dstf, new_name);
    if contains_sub(path, ".."@) {
        RelocCheck::TraversalSource
    } else if contains_sub(new_name, ".."@) {
        RelocCheck::TraversalName
    } else if name_has_sep(new_name) {
        RelocCheck::NameHasSep
    } else if name_has_reserved(new_name) {
        RelocCheck::NameBadChar
    } else if trimmed(new_name).len() == 0 {
        RelocCheck::NameEmpty
    } else if !files.contains_key(path) && !dirs.contains(path) {
        RelocCheck::SourceMissing
    } else if !files.contains_key(path) {
        RelocCheck::SourceNotFile
    } else if occupied_in(files, dirs, renamed) {
        RelocCheck::Duplicate
    } else if !(dstf == renamed || (dstf != path && files.contains_key(dstf)) || dirs.contains(
        dstf,
    )) {
        RelocCheck::DestMissing
    } else if dest == renamed || (dest != path && files.contains_key(dest)) || dirs.contains(dest) {
        RelocCheck::DuplicateAtDest
    } else if dstf == renamed || (dstf != path && files.contains_key(dstf)) {
        RelocCheck::DestIsFile
    } else {
        RelocCheck::Clear
    }
}

/// Rename the file at `file_path` to `new_name`, then move it into
/// `dest_folder`.  If the move phase fails for any reason, the rename is
/// rolled back before the error is surfaced: the caller observes either full
/// success or the file exactly as it was.
pub fn rename_and_move_file(
    fs: &mut FsState,
    file_path: &str,
    new_name: &str,
    dest_folder: &str,
) -> (r: Result<String, CommandError>)
    ensures
        r is Err ==> final(fs).files() == old(fs).files() && final(fs).dirs() == old(fs).dirs(),
        final(fs).dirs() == old(fs).dirs(),
        ({
            let path = file_path@;
            let name = new_name@;
            let dstf = dest_folder@;
            let dest = joined_path(dstf, name);
            match rename_and_move_check(old(fs).files(), old(fs).dirs(), path, name, dstf) {
                RelocCheck::TraversalSource => r matches Err(e) && e == CommandError::PathTraversal,
                RelocCheck::TraversalName => r matches Err(e) && e == CommandError::PathTraversal,
                RelocCheck::NameHasSep => r matches Err(e) && e matches CommandError::InvalidPath(m)
                    && m@ == "New name cannot contain path separators"@,
                RelocCheck::NameBadChar => r matches Err(e) && e matches CommandError::InvalidPath(m)
                    && m@ == "New name contains invalid characters"@,
                RelocCheck::NameEmpty => r matches Err(e) && e matches CommandError::InvalidPath(m)
                    && m@ == "New name cannot be empty"@,
                RelocCheck::SourceMissing => r matches Err(e) && e matches CommandError::FileNotFound(p)
                    && p@ == path,
                RelocCheck::SourceNotFile => r matches Err(e) && e matches CommandError::InvalidPath(m)
                    && m@ == "Path is not a file: "@ + path,
                RelocCheck::Duplicate => r matches Err(e) && e matches CommandError::DuplicateExists(p)
                    && p@ == name,
                RelocCheck::DestMissing => r matches Err(e) && e matches CommandError::FileNotFound(p)
                    && p@ == dstf,
                RelocCheck::DuplicateAtDest => r matches Err(e) && e matches CommandError::DuplicateExists(p)
                    && p@ == name,
                RelocCheck::DestIsFile => r matches Err(e) && e matches CommandError::IoError(m)
                    && m@ == "Not a directory: "@ + dstf,
                RelocCheck::Clear => {
                    &&& r matches Ok(m) && m@ == dest
                    &&& final(fs).files() == old(fs).files().remove(path).insert(
                        dest,
                        old(fs).files()[path],
                    )
                },
                _ => false,
            }
        }),
{
    if let Err(e) = validate_path(file_path) {
        return Err(e);
    }
    if contains(new_name, "..") {
        return Err(CommandError::PathTraversal);
    }
    if scan_name_has_sep(new_name) {
        let mut m = String::new();
        m.append("New name cannot contain path separators");
        return Err(CommandError::InvalidPath(m));
    }
    if scan_name_has_reserved(new_name) {
        let mut m = String::new();
        m.append("New name contains invalid characters");
        return Err(CommandError::InvalidPath(m));
    }
    let t = trim_str(new_name);
    if t.as_str().is_empty() {
        let mut m = String::new();
        m.append("New name cannot be empty");
        return Err(CommandError::InvalidPath(m));
    }
    if !fs.is_file(file_path) {
        if fs.is_dir(file_path) {
            let mut m = String::new();
            m.append("Path is not a file: ");
            m.append(file_path);
            return Err(CommandError::InvalidPath(m));
        }
        return Err(CommandError::FileNotFound(file_path.to_owned()));
    }
    let parent = parent_of(file_path);
    let renamed_path = path_join(parent.as_str(), new_name);
    if fs.is_occupied(renamed_path.as_str()) {
        return Err(CommandError::DuplicateExists(new_name.to_owned()));
    }
    // Phase one: rename in place.
    relocate_entry(fs, file_path, renamed_path.as_str());
    // Phase two: move into the destination folder, rolling back on failure.
    if !fs.is_occupied(dest_folder) {
        relocate_entry(fs, renamed_path.as_str(), file_path);
        proof {
            assert(fs.files() =~= old(fs).files());
        }
        return Err(CommandError::FileNotFound(dest_folder.to_owned()));
    }
    let final_path = path_join(dest_folder, new_name);
    if fs.is_occupied(final_path.as_str()) {
        relocate_entry(fs, renamed_path.as_str(), file_path);
        proof {
            assert(fs.files() =~= old(fs).files());
        }
        return Err(CommandError::DuplicateExists(new_name.to_owned()));
    }
    if fs.is_file(dest_folder) {
        relocate_entry(fs, renamed_path.as_str(), file_path);
        proof {
            assert(fs.files() =~= old(fs).files());
        }
        let mut m = String::new();
        m.append("Not a directory: ");
        m.append(dest_folder);
        return Err(CommandError::IoError(m));
    }
    relocate_entry(fs, renamed_path.as_str(), final_path.as_str());
    proof {
        assert(fs.files() =~= old(fs).files().remove(file_path@).insert(
            final_path@,
            old(fs).files()[file_path@],
        ));
    }
    Ok(final_path)
}

/// A completed move followed by its undo restores the tree's files exactly:
/// the file sits at its original path again, byte for byte, the destination
/// copy no longer exists, and no other file changed.  The hypotheses say that
/// the move was cleared to act, that `origf` is the folder the source path
/// was recorded in, and that the tree is sane there: the original folder is a
/// real directory, not also a file, and the source entry is a plain file.
pub proof fn lemma_undo_restores_move(
    files0: Map<Seq<char>, Seq<u8>>,
    dirs0: Set<Seq<char>>,
    src: Seq<char>,
    dstf: Seq<char>,
    origf: Seq<char>,
)
    requires
        move_file_check(files0, dirs0, src, dstf) is Clear,
        joined_path(origf, file_name_spec(src)) == src,
        !contains_sub(origf, ".."@),
        dirs0.contains(origf),
        !files0.contains_key(origf),
        !dirs0.contains(src),
    ensures
        ({
            let dest = joined_path(dstf, file_name_spec(src));
            let files1 = files0.remove(src).insert(dest, files0[src]);
            let dirs1 = dirs0.insert(dstf);
            &&& undo_move_check(files1, dirs1, dest, origf) is Clear
            &&& files1.remove(dest).insert(
                joined_path(origf, file_name_spec(dest)),
                files1[dest],
            ) == files0
        }),
{
    let name = file_name_spec(src);
    let dest = joined_path(dstf, name);
    let files1 = files0.remove(src).insert(dest, files0[src]);
    let dirs1 = dirs0.insert(dstf);

    // The moved file's name is the source file's name.
    crate::fsys::lemma_file_name_no_sep(src);
    crate::fsys::lemma_join_file_name(dstf, name);
    assert(file_name_spec(dest) == name);

    // The destination path carries no traversal sequence.
    match crate::fsys::last_sep(src) {
        None => {
            assert(name == src);
        },
        Some(i) => {
            crate::fsys::lemma_last_sep_props(src);
            crate::text::lemma_no_sub_in_subrange(src, ".."@, i + 1, src.len() as int);
        },
    }
    crate::fsys::lemma_join_no_dotdot(dstf, name);

    // The move could not have landed on its own source or inside a file.
    assert(dest != src);
    assert(src != dstf);
    assert(origf != dest);

    assert(undo_move_check(files1, dirs1, dest, origf) is Clear);
    assert(files1.remove(dest).insert(joined_path(origf, file_name_spec(dest)), files1[dest])
        =~= files0);
}

} // verus!
