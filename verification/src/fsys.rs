//! An in-memory model of the watched file tree: files as path-to-bytes
//! entries, directories as a set of paths.  The relocation engine works on
//! this model; the unverified shell mirrors each completed operation onto the
//! real file system.

use vstd::prelude::*;
use vstd::hash_map::StringHashMap;

use crate::text::dec_str;
use crate::text::u64_to_string;

verus! {

/// A path separator.
pub open spec fn is_sep(c: char) -> bool {
    c == '/' || c == '\\'
}

/// Index of the last separator in `s`, if any.
pub open spec fn last_sep(s: Seq<char>) -> Option<int>
    decreases s.len(),
{
    if s.len() == 0 {
        None
    } else if is_sep(s.last()) {
        Some(s.len() - 1)
    } else {
        last_sep(s.drop_last())
    }
}

/// The final component of a path: everything after the last separator.
pub open spec fn file_name_spec(s: Seq<char>) -> Seq<char> {
    match last_sep(s) {
        None => s,
        Some(i) => s.subrange(i + 1, s.len() as int),
    }
}

/// The parent of a path: everything before the last separator, or the
/// separator itself at the root.
pub open spec fn parent_spec(s: Seq<char>) -> Seq<char> {
    match last_sep(s) {
        None => Seq::empty(),
        Some(i) => if i == 0 {
            s.subrange(0, 1)
        } else {
            s.subrange(0, i)
        },
    }
}

/// `folder` and `name` joined with a single separator.
pub open spec fn joined_path(folder: Seq<char>, name: Seq<char>) -> Seq<char> {
    if folder.len() == 0 {
        name
    } else if is_sep(folder.last()) {
        folder + name
    } else {
        folder + seq!['/'] + name
    }
}

/// Index of the last `.` in `s`, if any.
pub open spec fn last_dot(s: Seq<char>) -> Option<int>
    decreases s.len(),
{
    if s.len() == 0 {
        None
    } else if s.last() == '.' {
        Some(s.len() - 1)
    } else {
        last_dot(s.drop_last())
    }
}

/// The stem of a file name: everything before the last embedded dot, or the
/// whole name when there is none (a leading dot does not open an extension).
pub open spec fn stem_spec(name: Seq<char>) -> Seq<char> {
    match last_dot(name) {
        Some(d) => if d > 0 {
            name.subrange(0, d)
        } else {
            name
        },
        None => name,
    }
}

/// The extension of a file name including its dot, or nothing.
pub open spec fn ext_dot_spec(name: Seq<char>) -> Seq<char> {
    match last_dot(name) {
        Some(d) => if d > 0 {
            name.subrange(d, name.len() as int)
        } else {
            Seq::empty()
        },
        None => Seq::empty(),
    }
}

/// The `k`-th auto-rename candidate for a colliding name: `stem_k.ext`.
pub open spec fn candidate_name(stem: Seq<char>, ext_dot: Seq<char>, k: nat) -> Seq<char> {
    stem + seq!['_'] + dec_str(k) + ext_dot
}

/// Scan a string for its last separator and return what follows it.
pub fn file_name_of(path: &str) -> (r: String)
    ensures
        r@ == file_name_spec(path@),
{
    let n = path.unicode_len();
    proof {
        assert(path@.take(n as int) =~= path@);
    }
    let mut j: usize = n;
    while j > 0
        invariant
            n == path@.len(),
            j <= n,
            last_sep(path@) == last_sep(path@.take(j as int)),
        decreases j,
    {
        let c = path.get_char(j - 1);
        if c == '/' || c == '\\' {
            proof {
                assert(path@.take(j as int).last() == path@[j - 1]);
                assert(last_sep(path@) == Some(j - 1));
            }
            return path.substring_char(j, n).to_owned();
        }
        proof {
            assert(path@.take(j as int).drop_last() =~= path@.take(j - 1));
        }
        j -= 1;
    }
    proof {
        assert(path@.take(0) =~= Seq::<char>::empty());
        assert(last_sep(path@) is None);
        assert(file_name_spec(path@) =~= path@);
    }
    path.to_owned()
}

/// Scan a string for its last separator and return what precedes it.
pub fn parent_of(path: &str) -> (r: String)
    ensures
        r@ == parent_spec(path@),
{
    let n = path.unicode_len();
    proof {
        assert(path@.take(n as int) =~= path@);
    }
    let mut j: usize = n;
    while j > 0
        invariant
            n == path@.len(),
            j <= n,
            last_sep(path@) == last_sep(path@.take(j as int)),
        decreases j,
    {
        let c = path.get_char(j - 1);
        if c == '/' || c == '\\' {
            proof {
                assert(path@.take(j as int).last() == path@[j - 1]);
                assert(last_sep(path@) == Some(j - 1));
            }
            if j - 1 == 0 {
                return path.substring_char(0, 1).to_owned();
            }
            return path.substring_char(0, j - 1).to_owned();
        }
        proof {
            assert(path@.take(j as int).drop_last() =~= path@.take(j - 1));
        }
        j -= 1;
    }
    proof {
        assert(path@.take(0) =~= Seq::<char>::empty());
        assert(last_sep(path@) is None);
    }
    String::new()
}

/// Join a folder path and a file name with a single separator.
pub fn path_join(folder: &str, name: &str) -> (r: String)
    ensures
        r@ == joined_path(folder@, name@),
{
    let n = folder.unicode_len();
    if n == 0 {
        return name.to_owned();
    }
    let last = folder.get_char(n - 1);
    let mut r = folder.to_owned();
    if !(last == '/' || last == '\\') {
        r.push('/');
    }
    r.append(name);
    r
}

/// Split a file name into its stem and its dotted extension (or nothing).
pub fn split_stem_ext(name: &str) -> (r: (String, String))
    ensures
        r.0@ == stem_spec(name@),
        r.1@ == ext_dot_spec(name@),
{
    let n = name.unicode_len();
    proof {
        assert(name@.take(n as int) =~= name@);
    }
    let mut j: usize = n;
    while j > 0
        invariant
            n == name@.len(),
            j <= n,
            last_dot(name@) == last_dot(name@.take(j as int)),
        decreases j,
    {
        let c = name.get_char(j - 1);
        if c == '.' {
            proof {
                assert(name@.take(j as int).last() == name@[j - 1]);
                assert(last_dot(name@) == Some(j - 1));
            }
            if j - 1 > 0 {
                return (
                    name.substring_char(0, j - 1).to_owned(),
                    name.substring_char(j - 1, n).to_owned(),
                );
            }
            return (name.to_owned(), String::new());
        }
        proof {
            assert(name@.take(j as int).drop_last() =~= name@.take(j - 1));
        }
        j -= 1;
    }
    proof {
        assert(name@.take(0) =~= Seq::<char>::empty());
        assert(last_dot(name@) is None);
    }
    (name.to_owned(), String::new())
}

/// Render the `k`-th auto-rename candidate `stem_k.ext`.
pub fn candidate_of(stem: &str, ext_dot: &str, k: u64) -> (r: String)
    ensures
        r@ == candidate_name(stem@, ext_dot@, k as nat),
{
    let mut r = stem.to_owned();
    r.push('_');
    let ks = u64_to_string(k);
    r.append(ks.as_str());
    r.append(ext_dot);
    proof {
        assert(r@ =~= candidate_name(stem@, ext_dot@, k as nat));
    }
    r
}

/// Where `last_sep` points: at a separator with none after it, or nowhere in
/// a string free of separators.
pub proof fn lemma_last_sep_props(s: Seq<char>)
    ensures
        match last_sep(s) {
            None => forall|j: int| 0 <= j < s.len() ==> !is_sep(#[trigger] s[j]),
            Some(i) => 0 <= i < s.len() && is_sep(s[i]) && forall|j: int|
                i < j < s.len() ==> !is_sep(#[trigger] s[j]),
        },
    decreases s.len(),
{
    if s.len() > 0 && !is_sep(s.last()) {
        lemma_last_sep_props(s.drop_last());
        assert(forall|j: int| 0 <= j < s.len() - 1 ==> #[trigger] s[j] == s.drop_last()[j]);
    }
}

/// The file-name part of a path never holds a separator.
pub proof fn lemma_file_name_no_sep(s: Seq<char>)
    ensures
        forall|j: int|
            0 <= j < file_name_spec(s).len() ==> !is_sep(#[trigger] file_name_spec(s)[j]),
{
    lemma_last_sep_props(s);
}

/// Joining a folder with a non-empty, separator-free name gives a path whose
/// file name is exactly that name.
pub proof fn lemma_join_file_name(folder: Seq<char>, name: Seq<char>)
    requires
        name.len() > 0,
        forall|j: int| 0 <= j < name.len() ==> !is_sep(#[trigger] name[j]),
    ensures
        file_name_spec(joined_path(folder, name)) == name,
{
    let s = joined_path(folder, name);
    lemma_last_sep_props(s);
    if folder.len() == 0 {
        match last_sep(s) {
            None => {},
            Some(i) => {
                assert(!is_sep(name[i]));
            },
        }
    } else if is_sep(folder.last()) {
        let li = folder.len() - 1;
        match last_sep(s) {
            None => {
                assert(is_sep(s[li]));
            },
            Some(i) => {
                if i < li {
                    assert(is_sep(s[li]));
                } else if i > li {
                    assert(s[i] == name[i - folder.len()]);
                }
                assert(i == li);
                assert(file_name_spec(s) =~= name);
            },
        }
    } else {
        let li = folder.len() as int;
        match last_sep(s) {
            None => {
                assert(is_sep(s[li]));
            },
            Some(i) => {
                if i < li {
                    assert(is_sep(s[li]));
                } else if i > li {
                    assert(s[i] == name[i - folder.len() - 1]);
                }
                assert(i == li);
                assert(file_name_spec(s) =~= name);
            },
        }
    }
}

/// Joining two texts free of traversal sequences cannot create one: the
/// separator at the seam breaks any straddling match.
pub proof fn lemma_join_no_dotdot(folder: Seq<char>, name: Seq<char>)
    requires
        !crate::text::contains_sub(folder, ".."@),
        !crate::text::contains_sub(name, ".."@),
    ensures
        !crate::text::contains_sub(joined_path(folder, name), ".."@),
{
    let pat = ".."@;
    let s = joined_path(folder, name);
    reveal_strlit("..");
    crate::text::lemma_contains_iff(folder, pat);
    crate::text::lemma_contains_iff(name, pat);
    crate::text::lemma_contains_iff(s, pat);
    if crate::text::contains_sub(s, pat) {
        let i = choose|i: int| crate::text::match_at(s, pat, i);
        assert(s[i] == '.' && s[i + 1] == '.') by {
            assert(s.subrange(i, i + 2)[0] == pat[0]);
            assert(s.subrange(i, i + 2)[1] == pat[1]);
        }
        if folder.len() == 0 {
            assert(crate::text::match_at(name, pat, i)) by {
                assert(name.subrange(i, i + 2) =~= pat);
            }
        } else if is_sep(folder.last()) {
            let fl = folder.len() as int;
            if i + 2 <= fl {
                assert(crate::text::match_at(folder, pat, i)) by {
                    assert(folder.subrange(i, i + 2) =~= pat);
                }
            } else if i >= fl {
                assert(crate::text::match_at(name, pat, i - fl)) by {
                    assert(name.subrange(i - fl, i - fl + 2) =~= pat);
                }
            } else {
                assert(i == fl - 1);
                assert(is_sep(s[fl - 1]));
            }
        } else {
            let fl = folder.len() as int;
            if i + 2 <= fl {
                assert(crate::text::match_at(folder, pat, i)) by {
                    assert(folder.subrange(i, i + 2) =~= pat);
                }
            } else if i >= fl + 1 {
                assert(crate::text::match_at(name, pat, i - fl - 1)) by {
                    assert(name.subrange(i - fl - 1, i - fl + 1) =~= pat);
                }
            } else {
                assert(s[fl] == '/');
                assert(i == fl || i + 1 == fl);
            }
        }
    }
}

/// The byte-sequence model of a map of owned byte vectors.
pub open spec fn bytes_view(m: Map<Seq<char>, Vec<u8>>) -> Map<Seq<char>, Seq<u8>> {
    Map::new(|k: Seq<char>| m.contains_key(k), |k: Seq<char>| m[k]@)
}

/// The in-memory file tree.
pub struct FsState {
    files: StringHashMap<Vec<u8>>,
    dirs: StringHashMap<bool>,
}

impl FsState {
    /// The files: each path mapped to its contents.
    pub closed spec fn files(&self) -> Map<Seq<char>, Seq<u8>> {
        bytes_view(self.files@)
    }

    /// The directories.
    pub closed spec fn dirs(&self) -> Set<Seq<char>> {
        self.dirs@.dom()
    }

    /// A path names a file or a directory.
    pub open spec fn occupied(&self, p: Seq<char>) -> bool {
        self.files().contains_key(p) || self.dirs().contains(p)
    }

    /// An empty tree.
    pub fn new() -> (r: FsState)
        ensures
            r.files() == Map::<Seq<char>, Seq<u8>>::empty(),
            r.dirs() == Set::<Seq<char>>::empty(),
    {
        let r = FsState { files: StringHashMap::new(), dirs: StringHashMap::new() };
        proof {
            assert(r.files() =~= Map::<Seq<char>, Seq<u8>>::empty());
            assert(r.dirs() =~= Set::<Seq<char>>::empty());
        }
        r
    }

    /// Is there a file at `p`?
    pub fn is_file(&self, p: &str) -> (r: bool)
        ensures
            r == self.files().contains_key(p@),
    {
        self.files.contains_key(p)
    }

    /// Is there a directory at `p`?
    pub fn is_dir(&self, p: &str) -> (r: bool)
        ensures
            r == self.dirs().contains(p@),
    {
        self.dirs.contains_key(p)
    }

    /// Is there anything at `p`?
    pub fn is_occupied(&self, p: &str) -> (r: bool)
        ensures
            r == self.occupied(p@),
    {
        self.is_file(p) || self.is_dir(p)
    }

    /// Record a directory at `p`.
    pub fn mkdir(&mut self, p: &str)
        ensures
            final(self).files() == old(self).files(),
            final(self).dirs() == old(self).dirs().insert(p@),
    {
        self.dirs.insert(p.to_owned(), true);
        proof {
            assert(self.files() =~= old(self).files());
            assert(self.dirs() =~= old(self).dirs().insert(p@));
        }
    }

    /// Write a file at `p`, creating or overwriting it.
    pub fn write_file(&mut self, p: &str, bytes: Vec<u8>)
        ensures
            final(self).files() == old(self).files().insert(p@, bytes@),
            final(self).dirs() == old(self).dirs(),
    {
        self.files.insert(p.to_owned(), bytes);
        proof {
            assert(self.files() =~= old(self).files().insert(p@, bytes@));
        }
    }

    /// Remove the file at `p`.
    pub fn remove_file(&mut self, p: &str)
        ensures
            final(self).files() == old(self).files().remove(p@),
            final(self).dirs() == old(self).dirs(),
    {
        self.files.remove(p);
        proof {
            assert(self.files() =~= old(self).files().remove(p@));
        }
    }

    /// The contents of the file at `p`, copied out.
    pub fn read_file(&self, p: &str) -> (r: Option<Vec<u8>>)
        ensures
            match r {
                Some(b) => self.files().contains_key(p@) && b@ == self.files()[p@],
                None => !self.files().contains_key(p@),
            },
    {
        match self.files.get(p) {
            Some(b) => {
                let c = b.clone();
                proof {
                    assert(c@ =~= b@);
                }
                Some(c)
            },
            None => None,
        }
    }
}

} // verus!
