//! The display side of a single-level directory listing: building entries
//! from plain metadata values and sorting them directories-first, then
//! case-insensitively by name. Reading the directory itself is the
//! driver's work.

use vstd::prelude::*;

use crate::strutil::{lemma_lex_le_total, lemma_lex_le_trans, lex_le, lex_le_exec};
use crate::types::FileEntry;

verus! {

/// The character sequence `str::to_lowercase` maps a name to. The mapping
/// is involved (full Unicode case folding), so it is named rather than
/// spelled out; it depends on the characters alone.
pub uninterp spec fn lower_of(s: Seq<char>) -> Seq<char>;

/// Relies on str::to_lowercase: the result is a function of the characters
/// alone, and an empty string stays empty.
#[verifier::external_body]
fn lowercase(s: &str) -> (r: String)
    ensures
        r@ == lower_of(s@),
        s@.len() == 0 ==> r@.len() == 0,
{
    s.to_lowercase()
}

/// Relies on chrono's DateTime formatting: turns a Unix timestamp (seconds)
/// into a human-readable date and time in the machine's local time zone.
/// The result depends on that time zone, so nothing is claimed of it.
#[verifier::external_body]
fn format_local_timestamp(secs: i64) -> String {
    match chrono::DateTime::<chrono::Utc>::from_timestamp(secs, 0) {
        Some(t) => t.with_timezone(&chrono::Local).format("%Y-%m-%d %H:%M").to_string(),
        None => String::new(),
    }
}

/// Display order: directories before files, and within one kind the
/// case-folded names lexicographically.
pub open spec fn entry_le(a: FileEntry, b: FileEntry) -> bool {
    if a.is_dir != b.is_dir {
        a.is_dir
    } else {
        lex_le(lower_of(a.name@), lower_of(b.name@))
    }
}

/// Every pair of entries is ordered one way or the other.
pub proof fn lemma_entry_le_total(a: FileEntry, b: FileEntry)
    ensures
        entry_le(a, b) || entry_le(b, a),
{
    lemma_lex_le_total(lower_of(a.name@), lower_of(b.name@));
}

/// The display order is transitive.
pub proof fn lemma_entry_le_trans(a: FileEntry, b: FileEntry, c: FileEntry)
    requires
        entry_le(a, b),
        entry_le(b, c),
    ensures
        entry_le(a, c),
{
    if a.is_dir == b.is_dir && b.is_dir == c.is_dir {
        lemma_lex_le_trans(lower_of(a.name@), lower_of(b.name@), lower_of(c.name@));
    }
}

/// `s` is sorted by the display order.
pub open spec fn entries_sorted(s: Seq<FileEntry>) -> bool {
    forall|i: int, j: int| 0 <= i <= j < s.len() ==> entry_le(s[i], s[j])
}

/// Insert `x` in front of the first entry it is ordered at-or-before.
pub open spec fn insert_entry_sorted(x: FileEntry, s: Seq<FileEntry>) -> Seq<FileEntry>
    decreases s.len(),
{
    if s.len() == 0 {
        seq![x]
    } else if entry_le(x, s[0]) {
        seq![x] + s
    } else {
        seq![s[0]] + insert_entry_sorted(x, s.drop_first())
    }
}

/// Insertion sort by the display order, inserting left to right.
pub open spec fn sort_entries_spec(s: Seq<FileEntry>) -> Seq<FileEntry>
    decreases s.len(),
{
    if s.len() == 0 {
        Seq::empty()
    } else {
        insert_entry_sorted(s.last(), sort_entries_spec(s.drop_last()))
    }
}

/// Inserting into a sorted sequence keeps it sorted, adds exactly the new
/// entry, and keeps every old one.
pub proof fn lemma_insert_entry_sorted_props(x: FileEntry, s: Seq<FileEntry>)
    requires
        entries_sorted(s),
    ensures
        entries_sorted(insert_entry_sorted(x, s)),
        insert_entry_sorted(x, s).len() == s.len() + 1,
        forall|j: int|
            0 <= j < insert_entry_sorted(x, s).len() ==> insert_entry_sorted(x, s)[j] == x
                || exists|i: int| 0 <= i < s.len() && insert_entry_sorted(x, s)[j] == s[i],
    decreases s.len(),
{
    let r = insert_entry_sorted(x, s);
    lemma_entry_le_total(x, x);
    if s.len() == 0 {
        assert(r =~= seq![x]);
    } else if entry_le(x, s[0]) {
        assert(r =~= seq![x] + s);
        assert forall|i: int, j: int| 0 <= i <= j < r.len() implies entry_le(r[i], r[j]) by {
            if i == 0 && j > 0 {
                lemma_entry_le_trans(x, s[0], s[j - 1]);
            }
        }
        assert forall|j: int| 0 <= j < r.len() implies r[j] == x || exists|i: int|
            0 <= i < s.len() && r[j] == s[i] by {
            if j > 0 {
                assert(r[j] == s[j - 1]);
            }
        }
    } else {
        lemma_entry_le_total(x, s[0]);
        assert(entry_le(s[0], x));
        let rest = s.drop_first();
        assert(entries_sorted(rest)) by {
            assert(forall|i: int| 0 <= i < rest.len() ==> rest[i] == s[i + 1]);
        }
        lemma_insert_entry_sorted_props(x, rest);
        let ri = insert_entry_sorted(x, rest);
        assert(r =~= seq![s[0]] + ri);
        assert forall|j: int| 0 <= j < r.len() implies r[j] == x || exists|i: int|
            0 <= i < s.len() && r[j] == s[i] by {
            if j > 0 {
                assert(r[j] == ri[j - 1]);
                if ri[j - 1] == x {
                } else {
                    let i = choose|i: int| 0 <= i < rest.len() && ri[j - 1] == rest[i];
                    assert(r[j] == s[i + 1]);
                }
            }
        }
        assert forall|i: int, j: int| 0 <= i <= j < r.len() implies entry_le(r[i], r[j]) by {
            if i == 0 && j > 0 {
                // the head is at-or-before x and every element of the tail
                if r[j] == x {
                } else {
                    let k = choose|k: int| 0 <= k < rest.len() && r[j] == rest[k];
                    assert(entry_le(s[0], s[k + 1]));
                }
            } else if i > 0 {
                assert(entry_le(ri[i - 1], ri[j - 1]));
            }
        }
    }
}

/// The insertion sort sorts.
pub proof fn lemma_sort_entries_spec_sorted(s: Seq<FileEntry>)
    ensures
        entries_sorted(sort_entries_spec(s)),
    decreases s.len(),
{
    if s.len() > 0 {
        lemma_sort_entries_spec_sorted(s.drop_last());
        lemma_insert_entry_sorted_props(s.last(), sort_entries_spec(s.drop_last()));
    }
}

impl FileEntry {
    /// An owned copy that provably keeps every field.
    pub fn duplicate(&self) -> (r: FileEntry)
        ensures
            r == *self,
    {
        let modified = match &self.modified {
            Some(m) => Some(m.clone()),
            None => None,
        };
        FileEntry { name: self.name.clone(), is_dir: self.is_dir, size: self.size, modified }
    }
}

/// Compares two entries in display order.
fn entry_le_exec(a: &FileEntry, b: &FileEntry) -> (r: bool)
    ensures
        r == entry_le(*a, *b),
{
    if a.is_dir != b.is_dir {
        a.is_dir
    } else {
        let la = lowercase(a.name.as_str());
        let lb = lowercase(b.name.as_str());
        lex_le_exec(la.as_str(), lb.as_str())
    }
}

/// The position `insert_entry_sorted` inserts at.
fn find_entry_pos(v: &Vec<FileEntry>, x: &FileEntry) -> (idx: usize)
    ensures
        idx <= v@.len(),
        forall|j: int| 0 <= j < idx ==> !entry_le(*x, v@[j]),
        idx < v@.len() ==> entry_le(*x, v@[idx as int]),
{
    let mut idx: usize = 0;
    while idx < v.len()
        invariant
            idx <= v@.len(),
            forall|j: int| 0 <= j < idx ==> !entry_le(*x, v@[j]),
        decreases v@.len() - idx,
    {
        if entry_le_exec(x, &v[idx]) {
            return idx;
        }
        idx += 1;
    }
    idx
}

/// Inserting at that position is what the recursive insertion does.
proof fn lemma_insert_entry_sorted_at(x: FileEntry, s: Seq<FileEntry>, idx: int)
    requires
        0 <= idx <= s.len(),
        forall|j: int| 0 <= j < idx ==> !entry_le(x, s[j]),
        idx < s.len() ==> entry_le(x, s[idx]),
    ensures
        insert_entry_sorted(x, s) == s.subrange(0, idx) + seq![x] + s.subrange(
            idx,
            s.len() as int,
        ),
    decreases s.len(),
{
    if s.len() == 0 {
        assert(s.subrange(0, 0) + seq![x] + s.subrange(0, 0) =~= seq![x]);
    } else if idx == 0 {
        assert(s.subrange(0, s.len() as int) =~= s);
        assert(s.subrange(0, 0) + seq![x] + s.subrange(0, s.len() as int) =~= seq![x] + s);
    } else {
        assert(!entry_le(x, s[0]));
        assert(forall|j: int|
            0 <= j < idx - 1 ==> !entry_le(x, #[trigger] s.drop_first()[j]));
        lemma_insert_entry_sorted_at(x, s.drop_first(), idx - 1);
        assert(insert_entry_sorted(x, s) =~= s.subrange(0, idx) + seq![x] + s.subrange(
            idx,
            s.len() as int,
        )) by {
            assert(forall|j: int|
                0 <= j < s.len() - 1 ==> #[trigger] s.drop_first()[j] == s[j + 1]);
        }
    }
}

/// Sorts a listing for display: directories first, then names compared
/// case-insensitively. The result is exactly the insertion sort of the
/// input, and is sorted.
pub fn sort_entries(entries: &Vec<FileEntry>) -> (r: Vec<FileEntry>)
    ensures
        r@ == sort_entries_spec(entries@),
        entries_sorted(r@),
{
    let mut out: Vec<FileEntry> = Vec::new();
    let mut i: usize = 0;
    proof {
        assert(entries@.subrange(0, 0) =~= Seq::<FileEntry>::empty());
    }
    while i < entries.len()
        invariant
            i <= entries@.len(),
            out@ == sort_entries_spec(entries@.subrange(0, i as int)),
        decreases entries@.len() - i,
    {
        let x = entries[i].duplicate();
        let idx = find_entry_pos(&out, &x);
        proof {
            lemma_insert_entry_sorted_at(x, out@, idx as int);
        }
        out.insert(idx, x);
        proof {
            let prefix = entries@.subrange(0, i as int);
            assert(entries@.subrange(0, i + 1).drop_last() =~= prefix);
            assert(entries@.subrange(0, i + 1).last() == entries@[i as int]);
            assert(out@ =~= sort_entries_spec(prefix).subrange(0, idx as int) + seq![x]
                + sort_entries_spec(prefix).subrange(
                idx as int,
                sort_entries_spec(prefix).len() as int,
            ));
        }
        i += 1;
    }
    proof {
        assert(entries@.subrange(0, entries@.len() as int) =~= entries@);
        lemma_sort_entries_spec_sorted(entries@);
    }
    out
}

/// Builds one listing entry from plain metadata values: directories show
/// size zero, and the modified column is present exactly when a timestamp
/// was available.
pub fn build_file_entry(name: String, is_dir: bool, size: u64, modified_secs: Option<i64>) -> (r:
    FileEntry)
    ensures
        r.name == name,
        r.is_dir == is_dir,
        r.size == if is_dir {
            0u64
        } else {
            size
        },
        r.modified is Some <==> modified_secs is Some,
{
    let modified = match modified_secs {
        Some(secs) => Some(format_local_timestamp(secs)),
        None => None,
    };
    FileEntry { name, is_dir, size: if is_dir { 0 } else { size }, modified }
}

} // verus!
