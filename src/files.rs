use vstd::prelude::*;
use vstd::string::StringExecFns;

verus! {

/// One node of a directory listing: a plain file, or a directory with its children.
#[derive(Debug)]
pub struct FileEntry {
    pub path: String,
    pub name: String,
    pub is_file: bool,
    pub size: u64,
    pub children: Option<Vec<FileEntry>>,
}

/// What reading a directory reported about one of its entries.
#[derive(Debug)]
pub struct ScannedEntry {
    pub path: String,
    pub name: String,
    pub node: ScannedNode,
}

/// The metadata of a scanned entry, as far as it could be read.
#[derive(Debug)]
pub enum ScannedNode {
    /// The entry's metadata could not be read.
    MetadataUnreadable,
    /// Anything that is not a directory, with its reported byte length.
    NotDirectory { len: u64 },
    /// A directory with its reported length and what reading it gave
    /// (`None` when its contents could not be read).
    Directory { len: u64, contents: Option<Vec<ScannedEntry>> },
}

/// The case-folded form of a name, as `str::to_lowercase` gives it.
pub uninterp spec fn lower_of(s: Seq<char>) -> Seq<char>;

/// Relies on `str::to_lowercase`: its result depends on the characters alone.
#[verifier::external_body]
fn lowercase(s: &str) -> (r: String)
    ensures
        r@ == lower_of(s@),
{
    s.to_lowercase()
}

/// Lexicographic order on character sequences, by code point
/// (the order of `Ord` on `String`).
pub open spec fn lex_le(a: Seq<char>, b: Seq<char>) -> bool
    decreases a.len(),
{
    if a.len() == 0 {
        true
    } else if b.len() == 0 {
        false
    } else if a[0] != b[0] {
        a[0] < b[0]
    } else {
        lex_le(a.drop_first(), b.drop_first())
    }
}

pub proof fn lemma_lex_le_total(a: Seq<char>, b: Seq<char>)
    ensures
        lex_le(a, b) || lex_le(b, a),
    decreases a.len(),
{
    if a.len() > 0 && b.len() > 0 && a[0] == b[0] {
        lemma_lex_le_total(a.drop_first(), b.drop_first());
    }
}

pub proof fn lemma_lex_le_transitive(a: Seq<char>, b: Seq<char>, c: Seq<char>)
    requires
        lex_le(a, b),
        lex_le(b, c),
    ensures
        lex_le(a, c),
    decreases a.len(),
{
    if a.len() > 0 && b.len() > 0 && c.len() > 0 && a[0] == b[0] && b[0] == c[0] {
        lemma_lex_le_transitive(a.drop_first(), b.drop_first(), c.drop_first());
    }
}

pub proof fn lemma_lex_le_reflexive(a: Seq<char>)
    ensures
        lex_le(a, a),
    decreases a.len(),
{
    if a.len() > 0 {
        lemma_lex_le_reflexive(a.drop_first());
    }
}

/// Compares two strings in the order of `lex_le`.
fn str_lex_le(a: &str, b: &str) -> (r: bool)
    ensures
        r == lex_le(a@, b@),
{
    let la = a.unicode_len();
    let lb = b.unicode_len();
    let mut i: usize = 0;
    proof {
        assert(a@.skip(0) =~= a@);
        assert(b@.skip(0) =~= b@);
    }
    while i < la && i < lb
        invariant
            la == a@.len(),
            lb == b@.len(),
            i <= la,
            i <= lb,
            lex_le(a@, b@) == lex_le(a@.skip(i as int), b@.skip(i as int)),
        decreases la - i,
    {
        let ca = a.get_char(i);
        let cb = b.get_char(i);
        proof {
            assert(a@.skip(i as int).drop_first() =~= a@.skip(i + 1));
            assert(b@.skip(i as int).drop_first() =~= b@.skip(i + 1));
        }
        if ca != cb {
            return ca < cb;
        }
        i = i + 1;
    }
    i == la
}

/// Listing order on keys: directories before files, then by case-folded
/// name (`a_key`, `b_key`).
pub open spec fn key_precedes(a_is_file: bool, a_key: Seq<char>, b_is_file: bool, b_key: Seq<
    char,
>) -> bool {
    (!a_is_file && b_is_file) || (a_is_file == b_is_file && lex_le(a_key, b_key))
}

/// Listing order on entries: the order of their keys.
pub open spec fn precedes(a: FileEntry, b: FileEntry) -> bool {
    key_precedes(a.is_file, lower_of(a.name@), b.is_file, lower_of(b.name@))
}

/// Two entries that the listing order cannot tell apart.
pub open spec fn same_key(a: FileEntry, b: FileEntry) -> bool {
    a.is_file == b.is_file && lower_of(a.name@) == lower_of(b.name@)
}

pub open spec fn sorted_entries(r: Seq<FileEntry>) -> bool {
    forall|i: int, j: int| 0 <= i < j < r.len() ==> precedes(#[trigger] r[i], #[trigger] r[j])
}

/// A scanned entry whose metadata could be read; only those are listed.
pub open spec fn is_readable(s: ScannedEntry) -> bool {
    !(s.node is MetadataUnreadable)
}

/// `e` is the listing entry made of the scanned entry `s`: same path, name and
/// length; a directory carries its listed contents, or no children when its
/// contents could not be read; anything else is a file without children.
pub open spec fn describes(e: FileEntry, s: ScannedEntry) -> bool
    decreases s, 0int,
{
    &&& e.path@ == s.path@
    &&& e.name@ == s.name@
    &&& match s.node {
        ScannedNode::MetadataUnreadable => false,
        ScannedNode::NotDirectory { len } => e.is_file && e.size == len && e.children is None,
        ScannedNode::Directory { len, contents } => {
            &&& !e.is_file
            &&& e.size == len
            &&& e.children is Some
            &&& match contents {
                None => e.children->Some_0@.len() == 0,
                Some(sub) => lists(e.children->Some_0@, sub@),
            }
        },
    }
}

/// `perm` matches the entries of `r` one to one with the readable entries
/// of `s`, and `r` is in listing order, entries of the same key in the order
/// in which they were scanned.
pub open spec fn matched_by(r: Seq<FileEntry>, s: Seq<ScannedEntry>, perm: Seq<int>) -> bool {
    &&& sorted_entries(r)
    &&& perm.len() == r.len()
    &&& forall|k: int| 0 <= k < r.len() ==> 0 <= #[trigger] perm[k] < s.len()
    &&& forall|k1: int, k2: int|
        0 <= k1 < r.len() && 0 <= k2 < r.len() && #[trigger] perm[k1] == #[trigger] perm[k2]
            ==> k1 == k2
    &&& forall|i: int|
        0 <= i < s.len() && is_readable(#[trigger] s[i]) ==> exists|k: int|
            0 <= k < r.len() && perm[k] == i
    &&& forall|k1: int, k2: int|
        0 <= k1 < k2 < r.len() && same_key(#[trigger] r[k1], #[trigger] r[k2]) ==> perm[k1]
            < perm[k2]
}

/// `r` is a listing of the scanned entries `s`: sorted, and in one-to-one
/// correspondence with the readable entries of `s`, each described by its
/// counterpart.
pub open spec fn lists(r: Seq<FileEntry>, s: Seq<ScannedEntry>) -> bool
    decreases s, 1int,
{
    exists|perm: Seq<int>|
        #[trigger] matched_by(r, s, perm) && forall|k: int|
            0 <= k < r.len() ==> describes(#[trigger] r[k], s[perm[k]])
}

pub proof fn lemma_precedes_total(a: FileEntry, b: FileEntry)
    ensures
        precedes(a, b) || precedes(b, a),
{
    lemma_lex_le_total(lower_of(a.name@), lower_of(b.name@));
}

pub proof fn lemma_precedes_transitive(a: FileEntry, b: FileEntry, c: FileEntry)
    requires
        precedes(a, b),
        precedes(b, c),
    ensures
        precedes(a, c),
{
    if a.is_file == b.is_file && b.is_file == c.is_file {
        lemma_lex_le_transitive(lower_of(a.name@), lower_of(b.name@), lower_of(c.name@));
    }
}

/// Decides the listing order of two entries from their kinds and their
/// case-folded names.
pub fn key_order(a_is_file: bool, a_key: &str, b_is_file: bool, b_key: &str) -> (r: bool)
    ensures
        r == key_precedes(a_is_file, a_key@, b_is_file, b_key@),
{
    if !a_is_file && b_is_file {
        true
    } else if a_is_file == b_is_file {
        str_lex_le(a_key, b_key)
    } else {
        false
    }
}

/// Where an entry with kind `is_file` and case-folded name `key` goes among
/// `out`, whose case-folded names are `keys`: after the leading entries that
/// come before it or tie with it, at the first that does not.
pub fn insertion_point(out: &Vec<FileEntry>, keys: &Vec<String>, is_file: bool, key: &str) -> (p:
    usize)
    requires
        keys@.len() == out@.len(),
    ensures
        p <= out@.len(),
        forall|k: int|
            0 <= k < p ==> key_precedes(
                (#[trigger] out@[k]).is_file,
                keys@[k]@,
                is_file,
                key@,
            ),
        p < out@.len() ==> !key_precedes(out@[p as int].is_file, keys@[p as int]@, is_file, key@),
{
    let mut p: usize = 0;
    while p < out.len()
        invariant
            p <= out@.len(),
            keys@.len() == out@.len(),
            forall|k: int|
                0 <= k < p ==> key_precedes(
                    (#[trigger] out@[k]).is_file,
                    keys@[k]@,
                    is_file,
                    key@,
                ),
        decreases out@.len() - p,
    {
        if !key_order(out[p].is_file, keys[p].as_str(), is_file, key) {
            return p;
        }
        p = p + 1;
    }
    p
}

/// Lists the scanned entries of one directory, listing the contents of each
/// readable subdirectory in turn.
fn list_scanned(s: &Vec<ScannedEntry>) -> (r: Vec<FileEntry>)
    ensures
        lists(r@, s@),
    decreases s@,
{
    let mut out: Vec<FileEntry> = Vec::new();
    let mut keys: Vec<String> = Vec::new();
    let ghost mut perm: Seq<int> = Seq::empty();
    let mut i: usize = 0;
    while i < s.len()
        invariant
            i <= s@.len(),
            keys@.len() == out@.len(),
            forall|k: int| 0 <= k < out@.len() ==> (#[trigger] keys@[k])@ == lower_of(out@[k].name@),
            sorted_entries(out@),
            perm.len() == out@.len(),
            forall|k: int| 0 <= k < out@.len() ==> 0 <= #[trigger] perm[k] < i,
            forall|k: int| 0 <= k < out@.len() ==> describes(#[trigger] out@[k], s@[perm[k]]),
            forall|k1: int, k2: int|
                0 <= k1 < out@.len() && 0 <= k2 < out@.len() && #[trigger] perm[k1]
                    == #[trigger] perm[k2] ==> k1 == k2,
            forall|j: int|
                0 <= j < i && is_readable(#[trigger] s@[j]) ==> exists|k: int|
                    0 <= k < out@.len() && perm[k] == j,
            forall|k1: int, k2: int|
                0 <= k1 < k2 < out@.len() && same_key(#[trigger] out@[k1], #[trigger] out@[k2])
                    ==> perm[k1] < perm[k2],
        decreases s@.len() - i,
    {
        let item = &s[i];
        let made: Option<FileEntry> = match &item.node {
            ScannedNode::MetadataUnreadable => None,
            ScannedNode::NotDirectory { len } => Some(
                FileEntry {
                    path: item.path.clone(),
                    name: item.name.clone(),
                    is_file: true,
                    size: *len,
                    children: None,
                },
            ),
            ScannedNode::Directory { len, contents } => {
                let children = match contents {
                    None => Vec::new(),
                    Some(sub) => {
                        proof {
                            assert(decreases_to!(s@ => s@[i as int]));
                            assert(decreases_to!(*sub => sub@));
                        }
                        list_scanned(sub)
                    },
                };
                Some(
                    FileEntry {
                        path: item.path.clone(),
                        name: item.name.clone(),
                        is_file: false,
                        size: *len,
                        children: Some(children),
                    },
                )
            },
        };
        match made {
            None => {
                proof {
                    assert forall|j: int|
                        0 <= j < i + 1 && is_readable(#[trigger] s@[j]) implies exists|k: int|
                        0 <= k < out@.len() && perm[k] == j by {
                        if j < i {
                        }
                    }
                }
            },
            Some(entry) => {
                let key = lowercase(entry.name.as_str());
                let p = insertion_point(&out, &keys, entry.is_file, key.as_str());
                proof {
                    assert(forall|k: int| 0 <= k < p ==> precedes(#[trigger] out@[k], entry));
                }
                proof {
                    assert(describes(entry, s@[i as int]));
                    if p < out@.len() {
                        lemma_precedes_total(out@[p as int], entry);
                        assert forall|k: int| p <= k < out@.len() implies precedes(
                            entry,
                            #[trigger] out@[k],
                        ) by {
                            if k > p {
                                lemma_precedes_transitive(entry, out@[p as int], out@[k]);
                            }
                        }
                    }
                }
                let ghost old_out = out@;
                let ghost old_perm = perm;
                out.insert(p, entry);
                keys.insert(p, key);
                proof {
                    perm = perm.insert(p as int, i as int);
                    assert(forall|k: int| 0 <= k < p ==> out@[k] == old_out[k] && perm[k] == old_perm[k]);
                    assert(forall|k: int| p < k < out@.len() ==> out@[k] == old_out[k - 1] && perm[k] == old_perm[k - 1]);
                    assert forall|a: int, b: int| 0 <= a < b < out@.len() implies precedes(
                        #[trigger] out@[a],
                        #[trigger] out@[b],
                    ) by {
                        if b < p {
                        } else if a < p && b == p {
                        } else if a < p {
                            lemma_precedes_transitive(out@[a], out@[p as int], out@[b]);
                        } else if a == p {
                        } else {
                        }
                    }
                    assert forall|k1: int, k2: int|
                        0 <= k1 < k2 < out@.len() && same_key(
                            #[trigger] out@[k1],
                            #[trigger] out@[k2],
                        ) implies perm[k1] < perm[k2] by {
                        if k1 == p {
                            lemma_lex_le_reflexive(lower_of(entry.name@));
                            if k2 > p + 1 {
                                assert(precedes(old_out[p as int], old_out[k2 - 1]));
                            }
                            assert(precedes(old_out[p as int], entry));
                        } else if k2 == p {
                        } else if k1 < p && k2 > p {
                            assert(same_key(old_out[k1], old_out[k2 - 1]));
                        } else if k1 > p {
                            assert(same_key(old_out[k1 - 1], old_out[k2 - 1]));
                        } else {
                            assert(same_key(old_out[k1], old_out[k2]));
                        }
                    }
                    assert forall|j: int|
                        0 <= j < i + 1 && is_readable(#[trigger] s@[j]) implies exists|k: int|
                        0 <= k < out@.len() && perm[k] == j by {
                        if j < i {
                            let k0 = choose|k: int| 0 <= k < old_out.len() && old_perm[k] == j;
                            if k0 < p {
                                assert(perm[k0] == j);
                            } else {
                                assert(perm[k0 + 1] == j);
                            }
                        } else {
                            assert(perm[p as int] == j);
                        }
                    }
                }
            },
        }
        i = i + 1;
    }
    proof {
        assert(matched_by(out@, s@, perm));
    }
    out
}

/// Turns what reading a directory reported into its listing: the entries
/// whose metadata could be read, directories first, then by case-folded name,
/// each subdirectory with its own listing. A directory whose contents could
/// not be read is listed with no children. A failure to read the directory
/// itself is handed back as it came.
pub fn list_directory_contents(listing: Result<Vec<ScannedEntry>, String>) -> (r: Result<
    Vec<FileEntry>,
    String,
>)
    ensures
        match listing {
            Ok(v) => r is Ok && lists(r->Ok_0@, v@),
            Err(e) => r == Err::<Vec<FileEntry>, String>(e),
        },
{
    match listing {
        Ok(v) => Ok(list_scanned(&v)),
        Err(e) => Err(e),
    }
}

/// An entry is a directory exactly when it carries children, at every depth.
pub open spec fn well_formed_entry(e: FileEntry) -> bool
    decreases e,
{
    &&& e.is_file == (e.children is None)
    &&& match e.children {
        Some(c) => forall|i: int| 0 <= i < c@.len() ==> well_formed_entry(#[trigger] c@[i]),
        None => true,
    }
}

/// Every entry of a listing, at every depth, is a directory exactly when it
/// carries children: never a directory without children, nor a file with them.
pub proof fn lemma_listing_well_formed(r: Seq<FileEntry>, s: Seq<ScannedEntry>)
    requires
        lists(r, s),
    ensures
        forall|k: int| 0 <= k < r.len() ==> well_formed_entry(#[trigger] r[k]),
    decreases s,
{
    let perm = choose|perm: Seq<int>|
        #[trigger] matched_by(r, s, perm) && forall|k: int|
            0 <= k < r.len() ==> describes(#[trigger] r[k], s[perm[k]]);
    assert forall|k: int| 0 <= k < r.len() implies well_formed_entry(#[trigger] r[k]) by {
        let se = s[perm[k]];
        assert(describes(r[k], se));
        match se.node {
            ScannedNode::Directory { len, contents } => {
                let c = r[k].children->Some_0;
                match contents {
                    Some(sub) => {
                        assert(decreases_to!(s => se));
                        assert(decreases_to!(sub => sub@));
                        lemma_listing_well_formed(c@, sub@);
                    },
                    None => {},
                }
                assert(forall|i: int| 0 <= i < c@.len() ==> well_formed_entry(#[trigger] c@[i]));
            },
            _ => {},
        }
    }
}

/// A subdirectory whose contents could not be read is still listed, as a
/// directory with no children.
pub proof fn lemma_unreadable_directory_listed(r: Seq<FileEntry>, s: Seq<ScannedEntry>, i: int)
    requires
        lists(r, s),
        0 <= i < s.len(),
        s[i].node matches ScannedNode::Directory { contents: None, .. },
    ensures
        exists|k: int|
            0 <= k < r.len() && (#[trigger] r[k]).path@ == s[i].path@ && r[k].name@ == s[i].name@
                && !r[k].is_file && r[k].children is Some && r[k].children->Some_0@.len() == 0,
{
    let perm = choose|perm: Seq<int>|
        #[trigger] matched_by(r, s, perm) && forall|k: int|
            0 <= k < r.len() ==> describes(#[trigger] r[k], s[perm[k]]);
    assert(is_readable(s[i]));
    let k = choose|k: int| 0 <= k < r.len() && perm[k] == i;
    assert(describes(r[k], s[i]));
}

/// What a folder picker's outcome means to the caller: the chosen folder, or
/// why there is none (the user closed the picker, or it failed with `e`).
pub fn folder_selection(outcome: Result<Option<String>, String>) -> (r: Result<String, String>)
    ensures
        match outcome {
            Ok(Some(p)) => r == Ok::<String, String>(p),
            Ok(None) => r matches Err(m) && m@ == "No folder selected"@,
            Err(e) => r matches Err(m) && m@ == "Error selecting folder: "@ + e@,
        },
{
    match outcome {
        Ok(Some(p)) => Ok(p),
        Ok(None) => Err(String::from_str("No folder selected")),
        Err(e) => {
            let mut m = String::from_str("Error selecting folder: ");
            m.append(e.as_str());
            Err(m)
        },
    }
}

} // verus!
