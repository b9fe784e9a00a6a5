//! The file explorer's model: entries with their sizes rendered, listed
//! directories first and then files, each group by name without regard to
//! case. Reading the directory is the binary's part; it hands the entries in
//! as plain values.

use vstd::prelude::*;

use std::path::PathBuf;

use crate::util::{human_size_narrow, spec_human_size_narrow};

verus! {

#[verifier::external_type_specification]
#[verifier::external_body]
pub struct ExPathBuf(PathBuf);

/// A single row in the explorer.
#[derive(Debug, Clone, PartialEq, Eq)]
pub struct FileEntry {
    pub name: String,
    pub is_dir: bool,
    pub size_bytes: u64,
    /// The narrow size (`12K`), or `dir` for a directory.
    pub size_display: String,
}

impl FileEntry {
    /// The row for a directory entry as read from disk.
    pub fn from_metadata(name: String, is_dir: bool, size_bytes: u64) -> (e: Self)
        ensures
            e.name == name,
            e.is_dir == is_dir,
            e.size_bytes == size_bytes,
            e.size_display@ == if is_dir {
                "dir"@
            } else {
                spec_human_size_narrow(size_bytes as nat)
            },
    {
        let size_display = if is_dir {
            String::from_str("dir")
        } else {
            human_size_narrow(size_bytes)
        };
        FileEntry { name, is_dir, size_bytes, size_display }
    }
}

/// A directory's contents, ready to render.
#[derive(Debug)]
pub struct FileListing {
    pub base_path: PathBuf,
    pub entries: Vec<FileEntry>,
    /// Set when the directory could not be fully read (shown as a hint).
    pub error: Option<String>,
}

/// What `str::to_lowercase` makes of a string: Unicode's lowercase mapping.
pub uninterp spec fn lowercase(s: Seq<char>) -> Seq<char>;

/// `c` with an ASCII capital turned into its small letter.
pub open spec fn ascii_lower(c: char) -> char {
    if 'A' <= c && c <= 'Z' {
        ((c as u32) + 32) as char
    } else {
        c
    }
}

/// Whether every character of `s` is ASCII.
pub open spec fn all_ascii(s: Seq<char>) -> bool {
    forall|i: int| 0 <= i < s.len() ==> (#[trigger] s[i] as u32) < 128
}

/// std's `str::to_lowercase`; claimed: the result is `lowercase` of the
/// argument, a function of the argument alone, and on ASCII text Unicode's
/// lowercase mapping turns each capital `A`..`Z` into its small letter and
/// keeps every other character. Nothing is claimed of other characters.
#[verifier::external_body]
fn to_lowercase(s: &str) -> (r: String)
    ensures
        r@ == lowercase(s@),
        all_ascii(s@) ==> r@ == s@.map_values(|c: char| ascii_lower(c)),
{
    s.to_lowercase()
}

/// Lexicographic order on characters (by code point).
pub open spec fn lex_le(a: Seq<char>, b: Seq<char>) -> bool
    decreases a.len(),
{
    if a.len() == 0 {
        true
    } else if b.len() == 0 {
        false
    } else if a[0] != b[0] {
        a[0] < b[0]
    } else {
        lex_le(a.drop_first(), b.drop_first())
    }
}

/// The explorer's order: directories before files, then by lowercased name.
pub open spec fn entry_le(a: FileEntry, b: FileEntry) -> bool {
    if a.is_dir != b.is_dir {
        a.is_dir
    } else {
        lex_le(lowercase(a.name@), lowercase(b.name@))
    }
}

/// Entries in the explorer's order.
pub open spec fn entries_sorted(s: Seq<FileEntry>) -> bool {
    forall|i: int, j: int| 0 <= i < j < s.len() ==> entry_le(#[trigger] s[i], #[trigger] s[j])
}

/// Two entries that the explorer's order cannot tell apart.
pub open spec fn same_place(a: FileEntry, b: FileEntry) -> bool {
    entry_le(a, b) && entry_le(b, a)
}

/// The entries that sort to the same place as `k`.
pub open spec fn placed_with(k: FileEntry) -> spec_fn(FileEntry) -> bool {
    |x: FileEntry| same_place(x, k)
}

proof fn lemma_filter_none(t: Seq<FileEntry>, pred: spec_fn(FileEntry) -> bool)
    requires
        forall|j: int| 0 <= j < t.len() ==> !pred(#[trigger] t[j]),
    ensures
        t.filter(pred) == Seq::<FileEntry>::empty(),
    decreases t.len(),
{
    reveal(Seq::filter);
    if t.len() > 0 {
        assert forall|j: int| 0 <= j < t.drop_last().len() implies !pred(#[trigger] t.drop_last()[j]) by {
            assert(t.drop_last()[j] == t[j]);
        }
        lemma_filter_none(t.drop_last(), pred);
        assert(!pred(t[t.len() - 1]));
    }
}

proof fn lemma_filter_single(e: FileEntry, pred: spec_fn(FileEntry) -> bool)
    ensures
        seq![e].filter(pred) == (if pred(e) { seq![e] } else { Seq::<FileEntry>::empty() }),
{
    reveal_with_fuel(Seq::filter, 2);
    assert(seq![e].drop_last() =~= Seq::<FileEntry>::empty());
}

proof fn lemma_lex_total(a: Seq<char>, b: Seq<char>)
    ensures
        lex_le(a, b) || lex_le(b, a),
    decreases a.len(),
{
    if a.len() > 0 && b.len() > 0 && a[0] == b[0] {
        lemma_lex_total(a.drop_first(), b.drop_first());
    }
}

proof fn lemma_lex_trans(a: Seq<char>, b: Seq<char>, c: Seq<char>)
    requires
        lex_le(a, b),
        lex_le(b, c),
    ensures
        lex_le(a, c),
    decreases a.len(),
{
    if a.len() > 0 && b.len() > 0 && c.len() > 0 && a[0] == b[0] && b[0] == c[0] {
        lemma_lex_trans(a.drop_first(), b.drop_first(), c.drop_first());
    }
}

proof fn lemma_entry_total(a: FileEntry, b: FileEntry)
    ensures
        entry_le(a, b) || entry_le(b, a),
{
    lemma_lex_total(lowercase(a.name@), lowercase(b.name@));
}

proof fn lemma_entry_trans(a: FileEntry, b: FileEntry, c: FileEntry)
    requires
        entry_le(a, b),
        entry_le(b, c),
    ensures
        entry_le(a, c),
{
    if a.is_dir == b.is_dir && b.is_dir == c.is_dir {
        lemma_lex_trans(lowercase(a.name@), lowercase(b.name@), lowercase(c.name@));
    }
}

fn lex_le_exec(a: &Vec<char>, b: &Vec<char>) -> (r: bool)
    ensures
        r == lex_le(a@, b@),
{
    let mut i: usize = 0;
    assert(a@.skip(0) =~= a@ && b@.skip(0) =~= b@);
    while i < a.len()
        invariant
            i <= a.len(),
            i <= b.len(),
            a@.take(i as int) == b@.take(i as int),
            lex_le(a@, b@) == lex_le(a@.skip(i as int), b@.skip(i as int)),
        decreases a.len() - i,
    {
        let ghost sa = a@.skip(i as int);
        let ghost sb = b@.skip(i as int);
        if i >= b.len() {
            return false;
        }
        assert(sa[0] == a@[i as int] && sb[0] == b@[i as int]);
        if a[i] != b[i] {
            return a[i] < b[i];
        }
        assert(sa.drop_first() =~= a@.skip(i + 1));
        assert(sb.drop_first() =~= b@.skip(i + 1));
        assert(a@.take(i + 1) =~= a@.take(i as int).push(a@[i as int]));
        assert(b@.take(i + 1) =~= b@.take(i as int).push(b@[i as int]));
        i = i + 1;
    }
    true
}

fn goes_before(other: &FileEntry, other_key: &Vec<char>, e: &FileEntry, key: &Vec<char>) -> (b: bool)
    requires
        other_key@ == lowercase(other.name@),
        key@ == lowercase(e.name@),
    ensures
        b == entry_le(*other, *e),
{
    if other.is_dir != e.is_dir {
        other.is_dir
    } else {
        lex_le_exec(other_key, key)
    }
}

/// Puts `entries` in the explorer's order: directories first, then files,
/// each group by name without regard to case.
pub fn sort_entries(entries: &mut Vec<FileEntry>)
    ensures
        final(entries)@.to_multiset() == old(entries)@.to_multiset(),
        entries_sorted(final(entries)@),
        forall|k: FileEntry|
            #[trigger] final(entries)@.filter(placed_with(k)) == old(entries)@.filter(placed_with(k)),
{
    let ghost orig = entries@;
    let mut out: Vec<FileEntry> = Vec::new();
    let mut keys: Vec<Vec<char>> = Vec::new();
    let mut i: usize = 0;
    assert(orig.len() == entries.len());
    assert(out@ =~= orig.subrange(0, 0));
    while entries.len() > 0
        invariant
            orig.len() <= usize::MAX,
            i + entries@.len() == orig.len(),
            entries@ == orig.subrange(i as int, orig.len() as int),
            out@.to_multiset() == orig.subrange(0, i as int).to_multiset(),
            entries_sorted(out@),
            forall|k: FileEntry|
                #[trigger] out@.filter(placed_with(k)) == orig.subrange(0, i as int).filter(placed_with(k)),
            keys@.len() == out@.len(),
            forall|j: int| 0 <= j < keys@.len() ==> #[trigger] keys@[j]@ == lowercase(out@[j].name@),
        decreases entries@.len(),
    {
        let e = entries.remove(0);
        assert(e == orig[i as int]);
        let key = crate::text::chars_of(to_lowercase(e.name.as_str()).as_str());
        let mut pos: usize = 0;
        while pos < out.len() && goes_before(&out[pos], &keys[pos], &e, &key)
            invariant
                pos <= out@.len(),
                keys@.len() == out@.len(),
                forall|j: int| 0 <= j < keys@.len() ==> #[trigger] keys@[j]@ == lowercase(out@[j].name@),
                forall|j: int| 0 <= j < pos ==> entry_le(#[trigger] out@[j], e),
                key@ == lowercase(e.name@),
            decreases out@.len() - pos,
        {
            pos = pos + 1;
        }
        proof {
            if pos < out@.len() {
                assert(!entry_le(out@[pos as int], e));
                lemma_entry_total(out@[pos as int], e);
            }
            assert forall|a: int, b: int| 0 <= a < b < out@.len() + 1 implies entry_le(
                #[trigger] out@.insert(pos as int, e)[a],
                #[trigger] out@.insert(pos as int, e)[b],
            ) by {
                let s = out@.insert(pos as int, e);
                if b == pos {
                    assert(s[a] == out@[a]);
                } else if a == pos {
                    assert(s[b] == out@[b - 1]);
                    assert(entry_le(e, out@[pos as int]));
                    if b - 1 > pos {
                        lemma_entry_trans(e, out@[pos as int], out@[b - 1]);
                    }
                } else if a < pos && b < pos {
                } else if a < pos {
                    assert(s[a] == out@[a] && s[b] == out@[b - 1]);
                } else {
                    assert(s[a] == out@[a - 1] && s[b] == out@[b - 1]);
                }
            }
            assert forall|k: FileEntry| #[trigger] out@.insert(pos as int, e).filter(placed_with(k))
                == orig.subrange(0, i + 1).filter(placed_with(k)) by {
                let pred = placed_with(k);
                let front = out@.subrange(0, pos as int);
                let back = out@.subrange(pos as int, out@.len() as int);
                assert(out@.insert(pos as int, e) =~= front + seq![e] + back);
                assert(out@ =~= front + back);
                Seq::filter_distributes_over_add(front + seq![e], back, pred);
                Seq::filter_distributes_over_add(front, seq![e], pred);
                Seq::filter_distributes_over_add(front, back, pred);
                Seq::filter_distributes_over_add(orig.subrange(0, i as int), seq![e], pred);
                assert(orig.subrange(0, i + 1) =~= orig.subrange(0, i as int) + seq![e]);
                lemma_filter_single(e, pred);
                if pred(e) {
                    assert forall|j: int| 0 <= j < back.len() implies !pred(#[trigger] back[j]) by {
                        let x = back[j];
                        assert(x == out@[pos + j]);
                        if pred(x) {
                            lemma_entry_trans(x, k, e);
                            if j > 0 {
                                assert(entry_le(out@[pos as int], out@[pos + j]));
                                lemma_entry_trans(out@[pos as int], x, e);
                            }
                        }
                    }
                    lemma_filter_none(back, pred);
                    assert(back.filter(pred) =~= Seq::<FileEntry>::empty());
                }
            }
            vstd::seq_lib::to_multiset_insert(out@, pos as int, e);
            assert(orig.subrange(0, i + 1) =~= orig.subrange(0, i as int).push(e));
            vstd::seq_lib::to_multiset_build(orig.subrange(0, i as int), e);
        }
        let ghost keys_before = keys@;
        let ghost out_before = out@;
        out.insert(pos, e);
        keys.insert(pos, key);
        proof {
            assert forall|j: int| 0 <= j < keys@.len() implies #[trigger] keys@[j]@ == lowercase(out@[j].name@) by {
                if j > pos {
                    assert(keys@[j] == keys_before[j - 1]);
                    assert(out@[j] == out_before[j - 1]);
                } else if j < pos {
                    assert(keys@[j] == keys_before[j]);
                    assert(out@[j] == out_before[j]);
                }
            }
        }
        i = i + 1;
    }
    assert(orig.subrange(0, orig.len() as int) =~= orig);
    *entries = out;
}

impl FileListing {
    /// A listing of the entries read from `base_path`, in the explorer's
    /// order; `error` notes a directory that could not be fully read.
    pub fn from_entries(base_path: PathBuf, entries: Vec<FileEntry>, error: Option<String>) -> (l: Self)
        ensures
            l.base_path == base_path,
            l.entries@.to_multiset() == entries@.to_multiset(),
            entries_sorted(l.entries@),
            forall|k: FileEntry|
                #[trigger] l.entries@.filter(placed_with(k)) == entries@.filter(placed_with(k)),
            l.error == error,
    {
        let mut entries = entries;
        sort_entries(&mut entries);
        FileListing { base_path, entries, error }
    }
}

} // verus!
