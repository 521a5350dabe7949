//! Ordering the results of a directory scan: files by modification time,
//! most recent first, with hidden files left out.  The shell walks the real
//! directories; the order is decided here.

use vstd::prelude::*;
use vstd::seq_lib::group_to_multiset_ensures;
use vstd::multiset::Multiset;
use vstd::seq_lib::lemma_multiset_commutative;

verus! {

/// A file found by a scan: its name, full path, size and modification time
/// (seconds since the epoch).
#[derive(Debug)]
pub struct FileEntry {
    pub name: String,
    pub path: String,
    pub size: u64,
    pub modified: u64,
}

impl Clone for FileEntry {
    /// A clone carries every field unchanged.
    fn clone(&self) -> (r: Self)
        ensures
            r == *self,
    {
        FileEntry {
            name: self.name.clone(),
            path: self.path.clone(),
            size: self.size,
            modified: self.modified,
        }
    }
}

/// Hidden files are skipped by scans: those whose name begins with a dot.
pub fn is_hidden_name(name: &str) -> (r: bool)
    ensures
        r == (name@.len() > 0 && name@[0] == '.'),
{
    name.unicode_len() > 0 && name.get_char(0) == '.'
}

/// The list runs from the most recently modified file down.
pub open spec fn sorted_by_modified_desc(s: Seq<FileEntry>) -> bool {
    forall|i: int, j: int|
        0 <= i < j < s.len() ==> (#[trigger] s[i]).modified >= (#[trigger] s[j]).modified
}

/// `e` placed into the most-recent-first list: after every at-least-as-recent
/// entry, so entries of equal age keep their arrival order.
pub open spec fn insert_by_modified(s: Seq<FileEntry>, e: FileEntry) -> Seq<FileEntry>
    decreases s.len(),
{
    if s.len() == 0 {
        seq![e]
    } else if e.modified > s[0].modified {
        seq![e] + s
    } else {
        seq![s[0]] + insert_by_modified(s.drop_first(), e)
    }
}

proof fn lemma_insert_by_modified_at(s: Seq<FileEntry>, e: FileEntry, i: int)
    requires
        0 <= i <= s.len(),
        forall|k: int| 0 <= k < i ==> !(e.modified > (#[trigger] s[k]).modified),
        i < s.len() ==> e.modified > s[i].modified,
    ensures
        insert_by_modified(s, e) == s.take(i) + seq![e] + s.skip(i),
    decreases i,
{
    if i == 0 {
        assert(insert_by_modified(s, e) =~= s.take(0) + seq![e] + s.skip(0));
    } else {
        lemma_insert_by_modified_at(s.drop_first(), e, i - 1);
        assert(s.take(i) + seq![e] + s.skip(i) =~= seq![s[0]] + (s.drop_first().take(i - 1)
            + seq![e] + s.drop_first().skip(i - 1)));
    }
}

proof fn lemma_insert_by_modified_sorted(s: Seq<FileEntry>, e: FileEntry)
    requires
        sorted_by_modified_desc(s),
    ensures
        sorted_by_modified_desc(insert_by_modified(s, e)),
        insert_by_modified(s, e).len() == s.len() + 1,
        insert_by_modified(s, e).to_multiset() == s.push(e).to_multiset(),
    decreases s.len(),
{
    broadcast use group_to_multiset_ensures;

    if s.len() == 0 {
        assert(insert_by_modified(s, e) =~= s.push(e));
    } else if e.modified > s[0].modified {
        let r = seq![e] + s;
        assert(forall|j: int| 1 <= j < r.len() ==> r[j] == s[j - 1]);
        assert forall|i: int, j: int|
            0 <= i < j < r.len() implies (#[trigger] r[i]).modified >= (
        #[trigger] r[j]).modified by {
            if i > 0 {
                assert(s[i - 1].modified >= s[j - 1].modified);
            } else if j > 1 {
                assert(s[0].modified >= s[j - 1].modified);
            }
        }
        lemma_multiset_commutative(seq![e], s);
        assert(seq![e] =~= Seq::<FileEntry>::empty().push(e));
        assert(Seq::<FileEntry>::empty().to_multiset() =~= Multiset::<FileEntry>::empty());
        assert(r.to_multiset() =~= s.push(e).to_multiset());
    } else {
        let s1 = s.drop_first();
        assert(forall|k: int| 0 <= k < s1.len() ==> s1[k] == s[k + 1]);
        lemma_insert_by_modified_sorted(s1, e);
        let r1 = insert_by_modified(s1, e);
        let r = seq![s[0]] + r1;
        assert forall|i: int, j: int|
            0 <= i < j < r.len() implies (#[trigger] r[i]).modified >= (
        #[trigger] r[j]).modified by {
            if i == 0 {
                let x = r1[j - 1];
                assert(r1.to_multiset().contains(x));
                assert(s1.push(e).to_multiset().count(x) > 0);
                assert(s1.push(e).contains(x));
                let w = choose|w: int| 0 <= w < s1.push(e).len() && s1.push(e)[w] == x;
                if w < s1.len() {
                    assert(s[0].modified >= s[w + 1].modified);
                } else {
                    assert(x == e);
                }
            } else {
                assert(r1[i - 1].modified >= r1[j - 1].modified);
            }
        }
        lemma_multiset_commutative(seq![s[0]], r1);
        lemma_multiset_commutative(seq![s[0]], s1);
        assert(seq![s[0]] =~= Seq::<FileEntry>::empty().push(s[0]));
        assert(Seq::<FileEntry>::empty().to_multiset() =~= Multiset::<FileEntry>::empty());
        assert(s =~= seq![s[0]] + s1);
        assert(r.to_multiset() =~= s.push(e).to_multiset());
    }
}

/// Find the position a file of this age takes in the most-recent-first list.
fn modified_insert_pos(v: &Vec<FileEntry>, m: u64) -> (i: usize)
    ensures
        i <= v@.len(),
        forall|k: int| 0 <= k < i ==> !(m > (#[trigger] v@[k]).modified),
        i < v@.len() ==> m > v@[i as int].modified,
{
    let mut i: usize = 0;
    while i < v.len()
        invariant
            i <= v@.len(),
            forall|k: int| 0 <= k < i ==> !(m > (#[trigger] v@[k]).modified),
        decreases v@.len() - i,
    {
        if m > v[i].modified {
            return i;
        }
        i += 1;
    }
    i
}

/// Sort scanned files by modification time, most recent first; files of
/// equal age keep their order.
pub fn sort_files_by_modified(files: Vec<FileEntry>) -> (r: Vec<FileEntry>)
    ensures
        sorted_by_modified_desc(r@),
        r@.to_multiset() == files@.to_multiset(),
{
    let mut out: Vec<FileEntry> = Vec::new();
    let mut idx: usize = 0;
    proof {
        broadcast use group_to_multiset_ensures;

        assert(files@.take(0) =~= Seq::<FileEntry>::empty());
        assert(out@.to_multiset() =~= files@.take(0).to_multiset());
    }
    while idx < files.len()
        invariant
            idx <= files@.len(),
            sorted_by_modified_desc(out@),
            out@.to_multiset() == files@.take(idx as int).to_multiset(),
        decreases files@.len() - idx,
    {
        let e = files[idx].clone();
        let ghost v0 = out@;
        let i = modified_insert_pos(&out, e.modified);
        proof {
            lemma_insert_by_modified_at(v0, e, i as int);
            lemma_insert_by_modified_sorted(v0, e);
        }
        out.insert(i, e);
        proof {
            broadcast use group_to_multiset_ensures;

            assert(out@ =~= v0.take(i as int) + seq![e] + v0.skip(i as int));
            assert(out@ == insert_by_modified(v0, e));
            assert(out@.to_multiset() == v0.push(e).to_multiset());
            assert(files@.take(idx + 1) =~= files@.take(idx as int).push(files@[idx as int]));
            assert(v0.push(e).to_multiset() =~= files@.take(idx as int).to_multiset().insert(e));
            assert(files@.take(idx + 1).to_multiset() =~= files@.take(
                idx as int,
            ).to_multiset().insert(e));
        }
        idx += 1;
    }
    proof {
        assert(files@.take(files@.len() as int) =~= files@);
    }
    out
}

/// Is `a` strictly before `b` at or after position `i`, comparing character
/// by character, a prefix before its extensions?
pub open spec fn lex_lt_from(a: Seq<char>, b: Seq<char>, i: int) -> bool
    decreases b.len() + 1 - i,
{
    if i < 0 || i >= b.len() {
        false
    } else if i >= a.len() {
        true
    } else if a[i] != b[i] {
        a[i] < b[i]
    } else {
        lex_lt_from(a, b, i + 1)
    }
}

/// Is `a` strictly before `b` in character order?
pub open spec fn lex_lt(a: Seq<char>, b: Seq<char>) -> bool {
    lex_lt_from(a, b, 0)
}

/// Compare two texts in character order.
pub fn str_lt(a: &str, b: &str) -> (r: bool)
    ensures
        r == lex_lt(a@, b@),
{
    let n = a.unicode_len();
    let m = b.unicode_len();
    let mut i: usize = 0;
    while i < n && i < m
        invariant
            n == a@.len(),
            m == b@.len(),
            i <= n,
            i <= m,
            lex_lt_from(a@, b@, 0) == lex_lt_from(a@, b@, i as int),
        decreases n - i,
    {
        let ca = a.get_char(i);
        let cb = b.get_char(i);
        if ca != cb {
            return ca < cb;
        }
        i += 1;
    }
    i < m
}

/// No later name comes before an earlier one: the list runs in ascending
/// character order.
pub open spec fn sorted_names(s: Seq<Seq<char>>) -> bool {
    forall|i: int, j: int| 0 <= i < j < s.len() ==> !lex_lt(#[trigger] s[j], #[trigger] s[i])
}

/// `x` placed into the ascending list: after every name it does not precede.
pub open spec fn insert_name(s: Seq<Seq<char>>, x: Seq<char>) -> Seq<Seq<char>>
    decreases s.len(),
{
    if s.len() == 0 {
        seq![x]
    } else if lex_lt(x, s[0]) {
        seq![x] + s
    } else {
        seq![s[0]] + insert_name(s.drop_first(), x)
    }
}

proof fn lemma_insert_name_at(s: Seq<Seq<char>>, x: Seq<char>, i: int)
    requires
        0 <= i <= s.len(),
        forall|k: int| 0 <= k < i ==> !lex_lt(x, #[trigger] s[k]),
        i < s.len() ==> lex_lt(x, s[i]),
    ensures
        insert_name(s, x) == s.take(i) + seq![x] + s.skip(i),
    decreases i,
{
    if i == 0 {
        assert(insert_name(s, x) =~= s.take(0) + seq![x] + s.skip(0));
    } else {
        lemma_insert_name_at(s.drop_first(), x, i - 1);
        assert(s.take(i) + seq![x] + s.skip(i) =~= seq![s[0]] + (s.drop_first().take(i - 1)
            + seq![x] + s.drop_first().skip(i - 1)));
    }
}

proof fn lemma_insert_name_sorted(s: Seq<Seq<char>>, x: Seq<char>)
    requires
        sorted_names(s),
    ensures
        sorted_names(insert_name(s, x)),
        insert_name(s, x).len() == s.len() + 1,
        insert_name(s, x).to_multiset() == s.push(x).to_multiset(),
    decreases s.len(),
{
    broadcast use group_to_multiset_ensures;

    if s.len() == 0 {
        assert(insert_name(s, x) =~= s.push(x));
    } else if lex_lt(x, s[0]) {
        let r = seq![x] + s;
        assert(forall|j: int| 1 <= j < r.len() ==> r[j] == s[j - 1]);
        assert forall|i: int, j: int| 0 <= i < j < r.len() implies !lex_lt(
            #[trigger] r[j],
            #[trigger] r[i],
        ) by {
            if i > 0 {
                assert(!lex_lt(s[j - 1], s[i - 1]));
            } else {
                if j == 1 {
                    lemma_lex_asym_from(x, s[0], 0);
                } else {
                    assert(!lex_lt(s[j - 1], s[0]));
                    if lex_lt(r[j], x) {
                        lemma_lex_trans_from(s[j - 1], x, s[0], 0);
                    }
                }
            }
        }
        lemma_multiset_commutative(seq![x], s);
        assert(seq![x] =~= Seq::<Seq<char>>::empty().push(x));
        assert(Seq::<Seq<char>>::empty().to_multiset() =~= Multiset::<Seq<char>>::empty());
        assert(r.to_multiset() =~= s.push(x).to_multiset());
    } else {
        let s1 = s.drop_first();
        assert(forall|k: int| 0 <= k < s1.len() ==> s1[k] == s[k + 1]);
        lemma_insert_name_sorted(s1, x);
        let r1 = insert_name(s1, x);
        let r = seq![s[0]] + r1;
        assert forall|i: int, j: int| 0 <= i < j < r.len() implies !lex_lt(
            #[trigger] r[j],
            #[trigger] r[i],
        ) by {
            if i == 0 {
                let y = r1[j - 1];
                assert(r1.to_multiset().contains(y));
                assert(s1.push(x).to_multiset().count(y) > 0);
                assert(s1.push(x).contains(y));
                let w = choose|w: int| 0 <= w < s1.push(x).len() && s1.push(x)[w] == y;
                if w < s1.len() {
                    assert(!lex_lt(s[w + 1], s[0]));
                } else {
                    assert(y == x);
                }
            } else {
                assert(!lex_lt(r1[j - 1], r1[i - 1]));
            }
        }
        lemma_multiset_commutative(seq![s[0]], r1);
        lemma_multiset_commutative(seq![s[0]], s1);
        assert(seq![s[0]] =~= Seq::<Seq<char>>::empty().push(s[0]));
        assert(Seq::<Seq<char>>::empty().to_multiset() =~= Multiset::<Seq<char>>::empty());
        assert(s =~= seq![s[0]] + s1);
        assert(r.to_multiset() =~= s.push(x).to_multiset());
    }
}

/// Character order is asymmetric: a name strictly before another is not also
/// strictly after it.
proof fn lemma_lex_asym_from(a: Seq<char>, b: Seq<char>, i: int)
    requires
        0 <= i,
        lex_lt_from(a, b, i),
    ensures
        !lex_lt_from(b, a, i),
    decreases b.len() + 1 - i,
{
    if i < b.len() && i < a.len() && a[i] == b[i] {
        lemma_lex_asym_from(a, b, i + 1);
    }
}

/// Character order is transitive.
proof fn lemma_lex_trans_from(a: Seq<char>, b: Seq<char>, c: Seq<char>, i: int)
    requires
        0 <= i,
        lex_lt_from(a, b, i),
        lex_lt_from(b, c, i),
    ensures
        lex_lt_from(a, c, i),
    decreases c.len() + 1 - i,
{
    if i < a.len() && i < b.len() && i < c.len() && a[i] == b[i] && b[i] == c[i] {
        lemma_lex_trans_from(a, b, c, i + 1);
    }
}

/// Find the position a name takes in the ascending list.
fn name_insert_pos(v: &Vec<String>, x: &str) -> (i: usize)
    ensures
        i <= v@.len(),
        forall|k: int| 0 <= k < i ==> !lex_lt(x@, (#[trigger] v@[k])@),
        i < v@.len() ==> lex_lt(x@, v@[i as int]@),
{
    let mut i: usize = 0;
    while i < v.len()
        invariant
            i <= v@.len(),
            forall|k: int| 0 <= k < i ==> !lex_lt(x@, (#[trigger] v@[k])@),
        decreases v@.len() - i,
    {
        if str_lt(x, v[i].as_str()) {
            return i;
        }
        i += 1;
    }
    i
}

/// Sort scanned folder names in ascending character order; equal names keep
/// their order.
pub fn sort_folder_names(names: Vec<String>) -> (r: Vec<String>)
    ensures
        sorted_names(r.deep_view()),
        r.deep_view().to_multiset() == names.deep_view().to_multiset(),
{
    let mut out: Vec<String> = Vec::new();
    let mut idx: usize = 0;
    proof {
        broadcast use group_to_multiset_ensures;

        assert(out.deep_view() =~= Seq::<Seq<char>>::empty());
        assert(names.deep_view().take(0) =~= Seq::<Seq<char>>::empty());
        assert(out.deep_view().to_multiset() =~= names.deep_view().take(0).to_multiset());
    }
    while idx < names.len()
        invariant
            idx <= names@.len(),
            names.deep_view().len() == names@.len(),
            sorted_names(out.deep_view()),
            out.deep_view().to_multiset() == names.deep_view().take(idx as int).to_multiset(),
        decreases names@.len() - idx,
    {
        let x = names[idx].clone();
        let ghost v0 = out.deep_view();
        let i = name_insert_pos(&out, x.as_str());
        proof {
            assert(forall|k: int| 0 <= k < v0.len() ==> v0[k] == (#[trigger] out@[k])@);
            lemma_insert_name_at(v0, x@, i as int);
            lemma_insert_name_sorted(v0, x@);
        }
        out.insert(i, x);
        proof {
            broadcast use group_to_multiset_ensures;

            let dv = names.deep_view();
            assert(out.deep_view() =~= v0.take(i as int) + seq![dv[idx as int]] + v0.skip(
                i as int,
            ));
            assert(out.deep_view() == insert_name(v0, dv[idx as int]));
            assert(out.deep_view().to_multiset() == v0.push(dv[idx as int]).to_multiset());
            assert(dv.take(idx + 1) =~= dv.take(idx as int).push(dv[idx as int]));
            assert(v0.push(dv[idx as int]).to_multiset() =~= dv.take(
                idx as int,
            ).to_multiset().insert(dv[idx as int]));
            assert(dv.take(idx + 1).to_multiset() =~= dv.take(idx as int).to_multiset().insert(
                dv[idx as int],
            ));
        }
        idx += 1;
    }
    proof {
        assert(names.deep_view().take(names.deep_view().len() as int) =~= names.deep_view());
    }
    out
}

} // verus!
