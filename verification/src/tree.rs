//! The tree builder: turns a raw directory enumeration into an ordered
//! hierarchical listing.
//!
//! The surrounding application enumerates a directory into [`RawEntry`]
//! values; this module filters out entries whose names begin with a dot,
//! recursively builds the subtrees, and sorts every level with
//! directories before files and names in ascending lexicographic order.

use vstd::multiset::Multiset;
use vstd::prelude::*;

verus! {

broadcast use vstd::seq::group_seq_axioms, vstd::std_specs::vec::group_vec_axioms, vstd::seq_lib::group_to_multiset_ensures;

/// One entry of a raw directory enumeration, as the application read it
/// from the filesystem. `children` is present if and only if the entry
/// is a directory.
pub struct RawEntry {
    pub name: String,
    pub path: String,
    pub is_dir: bool,
    pub children: Option<Vec<RawEntry>>,
}

/// One entry of the finished listing. `children` is present if and only
/// if the entry is a directory; it is empty-but-present for an empty
/// directory and never present for a file.
pub struct DirectoryEntry {
    pub name: String,
    pub path: String,
    pub is_directory: bool,
    pub children: Option<Vec<DirectoryEntry>>,
}

/// The mathematical model of a raw enumeration entry.
pub struct RawModel {
    pub name: Seq<char>,
    pub path: Seq<char>,
    pub is_dir: bool,
    pub children: Option<Seq<RawModel>>,
}

/// The mathematical model of a finished listing entry.
pub struct EntryModel {
    pub name: Seq<char>,
    pub path: Seq<char>,
    pub is_directory: bool,
    pub children: Option<Seq<EntryModel>>,
}

/// The models of a sequence of raw entries.
pub open spec fn raw_level_model(s: Seq<RawEntry>) -> Seq<RawModel>
    decreases s, 0int,
{
    if s.len() == 0 {
        Seq::empty()
    } else {
        raw_level_model(s.drop_last()).push(s.last().model())
    }
}

/// The model of a raw level has one model per entry, in order.
pub broadcast proof fn lemma_raw_level_model(s: Seq<RawEntry>)
    ensures
        (#[trigger] raw_level_model(s)).len() == s.len(),
        forall|i: int| 0 <= i < s.len() ==> raw_level_model(s)[i] == (#[trigger] s[i]).model(),
    decreases s.len(),
{
    if s.len() > 0 {
        lemma_raw_level_model(s.drop_last());
        assert forall|i: int| 0 <= i < s.len() implies raw_level_model(s)[i] == (#[trigger] s[i]).model() by {
            if i < s.len() - 1 {
                assert(s.drop_last()[i] == s[i]);
                assert(raw_level_model(s.drop_last())[i] == s.drop_last()[i].model());
            } else {
                assert(s.last() == s[i]);
            }
        }
    }
}

/// The models of a sequence of listing entries.
pub open spec fn level_model(s: Seq<DirectoryEntry>) -> Seq<EntryModel>
    decreases s, 0int,
{
    if s.len() == 0 {
        Seq::empty()
    } else {
        level_model(s.drop_last()).push(s.last().model())
    }
}

/// The model of a listing level has one model per entry, in order.
pub broadcast proof fn lemma_level_model(s: Seq<DirectoryEntry>)
    ensures
        (#[trigger] level_model(s)).len() == s.len(),
        forall|i: int| 0 <= i < s.len() ==> level_model(s)[i] == (#[trigger] s[i]).model(),
    decreases s.len(),
{
    if s.len() > 0 {
        lemma_level_model(s.drop_last());
        assert forall|i: int| 0 <= i < s.len() implies level_model(s)[i] == (#[trigger] s[i]).model() by {
            if i < s.len() - 1 {
                assert(s.drop_last()[i] == s[i]);
                assert(level_model(s.drop_last())[i] == s.drop_last()[i].model());
            } else {
                assert(s.last() == s[i]);
            }
        }
    }
}

impl RawEntry {
    /// The model of this raw entry.
    pub open spec fn model(self) -> RawModel
        decreases self, 1int,
    {
        RawModel {
            name: self.name@,
            path: self.path@,
            is_dir: self.is_dir,
            children: match self.children {
                Some(v) => Some(raw_level_model(v@)),
                None => None,
            },
        }
    }
}

impl DirectoryEntry {
    /// The model of this listing entry.
    pub open spec fn model(self) -> EntryModel
        decreases self, 1int,
    {
        EntryModel {
            name: self.name@,
            path: self.path@,
            is_directory: self.is_directory,
            children: match self.children {
                Some(v) => Some(level_model(v@)),
                None => None,
            },
        }
    }
}

/// True when a name marks its entry as excluded from every listing:
/// the name begins with a dot.
pub open spec fn is_hidden(name: Seq<char>) -> bool {
    name.len() > 0 && name[0] == '.'
}

/// Ascending lexicographic order on names, by Unicode scalar value.
pub open spec fn lex_le(a: Seq<char>, b: Seq<char>) -> bool
    decreases a.len(),
{
    if a.len() == 0 {
        true
    } else if b.len() == 0 {
        false
    } else if a[0] == b[0] {
        lex_le(a.drop_first(), b.drop_first())
    } else {
        (a[0] as u32) < (b[0] as u32)
    }
}

/// The listing order: directories before files; within the same kind,
/// ascending lexicographic order of names.
pub open spec fn entry_le(a: EntryModel, b: EntryModel) -> bool {
    if a.is_directory == b.is_directory {
        lex_le(a.name, b.name)
    } else {
        a.is_directory
    }
}

/// True when one level of a listing is in the listing order.
pub open spec fn level_sorted(s: Seq<EntryModel>) -> bool {
    forall|i: int, j: int| 0 <= i < j < s.len() ==> entry_le(s[i], s[j])
}

/// True when an entry and its whole subtree are in the listing order at
/// every level.
pub open spec fn tree_sorted(e: EntryModel) -> bool
    decreases e,
{
    match e.children {
        Some(c) => level_sorted(c) && forall|i: int|
            0 <= i < c.len() ==> tree_sorted(#[trigger] c[i]),
        None => true,
    }
}

/// True when every level of a whole listing is in the listing order.
pub open spec fn forest_sorted(s: Seq<EntryModel>) -> bool {
    level_sorted(s) && forall|i: int| 0 <= i < s.len() ==> tree_sorted(#[trigger] s[i])
}

/// True when neither an entry nor anything in its subtree is hidden.
pub open spec fn tree_visible(e: EntryModel) -> bool
    decreases e,
{
    !is_hidden(e.name) && match e.children {
        Some(c) => forall|i: int| 0 <= i < c.len() ==> tree_visible(#[trigger] c[i]),
        None => true,
    }
}

/// True when nothing hidden appears anywhere in a listing.
pub open spec fn forest_visible(s: Seq<EntryModel>) -> bool {
    forall|i: int| 0 <= i < s.len() ==> tree_visible(#[trigger] s[i])
}

/// True when an entry has children exactly when it is a directory,
/// recursively.
pub open spec fn tree_shaped(e: EntryModel) -> bool
    decreases e,
{
    (e.children is Some <==> e.is_directory) && match e.children {
        Some(c) => forall|i: int| 0 <= i < c.len() ==> tree_shaped(#[trigger] c[i]),
        None => true,
    }
}

/// True when every entry of a listing has children exactly when it is a
/// directory.
pub open spec fn forest_shaped(s: Seq<EntryModel>) -> bool {
    forall|i: int| 0 <= i < s.len() ==> tree_shaped(#[trigger] s[i])
}

/// True when a raw entry carries children exactly when it is a
/// directory, recursively: what the application's enumeration hands in.
pub open spec fn raw_wf(r: RawModel) -> bool
    decreases r,
{
    (r.children is Some <==> r.is_dir) && match r.children {
        Some(c) => forall|i: int| 0 <= i < c.len() ==> raw_wf(#[trigger] c[i]),
        None => true,
    }
}

/// True when every raw entry of an enumeration level is well-formed.
pub open spec fn raw_level_wf(s: Seq<RawModel>) -> bool {
    forall|i: int| 0 <= i < s.len() ==> raw_wf(#[trigger] s[i])
}

/// Insertion of one entry into a level that is already in the listing
/// order, keeping the order.
pub open spec fn insert_sorted(s: Seq<EntryModel>, e: EntryModel) -> Seq<EntryModel>
    decreases s.len(),
{
    if s.len() == 0 {
        seq![e]
    } else if entry_le(s[0], e) {
        seq![s[0]] + insert_sorted(s.drop_first(), e)
    } else {
        seq![e] + s
    }
}

/// Insertion sort of one level into the listing order.
pub open spec fn sort_level(s: Seq<EntryModel>) -> Seq<EntryModel>
    decreases s.len(),
{
    if s.len() == 0 {
        Seq::empty()
    } else {
        insert_sorted(sort_level(s.drop_last()), s.last())
    }
}

/// One level converted in enumeration order: hidden entries dropped,
/// each kept entry turned into its listing entry with a fully built
/// subtree.
pub open spec fn convert_level(s: Seq<RawModel>) -> Seq<EntryModel>
    decreases s, 0int,
{
    if s.len() == 0 {
        Seq::empty()
    } else {
        let rest = convert_level(s.drop_last());
        if is_hidden(s.last().name) {
            rest
        } else {
            rest.push(entry_of(s.last()))
        }
    }
}

/// The listing entry built from one raw entry: same name, path and kind,
/// with the whole subtree built recursively.
pub open spec fn entry_of(r: RawModel) -> EntryModel
    decreases r, 0int,
{
    EntryModel {
        name: r.name,
        path: r.path,
        is_directory: r.is_dir,
        children: match r.children {
            Some(c) => Some(build_level_spec(c)),
            None => None,
        },
    }
}

/// What the tree builder returns for one enumerated level: the level
/// converted in order and then sorted into the listing order.
pub open spec fn build_level_spec(s: Seq<RawModel>) -> Seq<EntryModel>
    decreases s, 1int,
{
    sort_level(convert_level(s))
}

/// The lexicographic order is total.
proof fn lemma_lex_le_total(a: Seq<char>, b: Seq<char>)
    ensures
        lex_le(a, b) || lex_le(b, a),
    decreases a.len(),
{
    if a.len() > 0 && b.len() > 0 {
        if a[0] == b[0] {
            lemma_lex_le_total(a.drop_first(), b.drop_first());
        } else {
            vstd::utf8::char_u32_cast(a[0], a[0] as u32);
            vstd::utf8::char_u32_cast(b[0], b[0] as u32);
        }
    }
}

/// The lexicographic order is transitive.
proof fn lemma_lex_le_trans(a: Seq<char>, b: Seq<char>, c: Seq<char>)
    requires
        lex_le(a, b),
        lex_le(b, c),
    ensures
        lex_le(a, c),
    decreases a.len(),
{
    if a.len() > 0 && b.len() > 0 && c.len() > 0 {
        vstd::utf8::char_u32_cast(a[0], a[0] as u32);
        vstd::utf8::char_u32_cast(b[0], b[0] as u32);
        vstd::utf8::char_u32_cast(c[0], c[0] as u32);
        if a[0] == b[0] && b[0] == c[0] {
            lemma_lex_le_trans(a.drop_first(), b.drop_first(), c.drop_first());
        }
    }
}

/// The listing order is total.
proof fn lemma_entry_le_total(a: EntryModel, b: EntryModel)
    ensures
        entry_le(a, b) || entry_le(b, a),
{
    lemma_lex_le_total(a.name, b.name);
}

/// The listing order is transitive.
proof fn lemma_entry_le_trans(a: EntryModel, b: EntryModel, c: EntryModel)
    requires
        entry_le(a, b),
        entry_le(b, c),
    ensures
        entry_le(a, c),
{
    if a.is_directory == b.is_directory && b.is_directory == c.is_directory {
        lemma_lex_le_trans(a.name, b.name, c.name);
    }
}

/// Sorted insertion adds exactly the new entry to a level's contents.
proof fn lemma_insert_sorted_multiset(s: Seq<EntryModel>, e: EntryModel)
    ensures
        insert_sorted(s, e).to_multiset() == s.to_multiset().insert(e),
        insert_sorted(s, e).len() == s.len() + 1,
    decreases s.len(),
{
    if s.len() == 0 {
        assert(insert_sorted(s, e) =~= Seq::empty().push(e));
        assert(insert_sorted(s, e).to_multiset() =~= s.to_multiset().insert(e));
    } else if entry_le(s[0], e) {
        let rest = s.drop_first();
        lemma_insert_sorted_multiset(rest, e);
        assert(insert_sorted(s, e) =~= seq![s[0]] + insert_sorted(rest, e));
        vstd::seq_lib::lemma_multiset_commutative(seq![s[0]], insert_sorted(rest, e));
        vstd::seq_lib::lemma_multiset_commutative(seq![s[0]], rest);
        assert(s =~= seq![s[0]] + rest);
        assert(insert_sorted(s, e).to_multiset() =~= s.to_multiset().insert(e));
    } else {
        assert(insert_sorted(s, e) =~= seq![e] + s);
        vstd::seq_lib::lemma_multiset_commutative(seq![e], s);
        assert(seq![e].to_multiset() =~= Multiset::empty().insert(e));
        assert(insert_sorted(s, e).to_multiset() =~= s.to_multiset().insert(e));
    }
}

/// Every element of a sorted insertion is the new entry or one of the
/// level's entries.
proof fn lemma_insert_sorted_elems(s: Seq<EntryModel>, e: EntryModel)
    ensures
        forall|k: int|
            0 <= k < insert_sorted(s, e).len() ==> #[trigger] insert_sorted(s, e)[k] == e
                || s.contains(insert_sorted(s, e)[k]),
{
    lemma_insert_sorted_multiset(s, e);
    assert forall|k: int|
        0 <= k < insert_sorted(s, e).len() implies #[trigger] insert_sorted(s, e)[k] == e
        || s.contains(insert_sorted(s, e)[k]) by {
        let x = insert_sorted(s, e)[k];
        assert(insert_sorted(s, e).contains(x));
        assert(insert_sorted(s, e).to_multiset().count(x) > 0);
        if x != e {
            assert(s.to_multiset().count(x) > 0);
        }
    }
}

/// Sorted insertion into a level in the listing order yields a level in
/// the listing order.
proof fn lemma_insert_sorted_sorted(s: Seq<EntryModel>, e: EntryModel)
    requires
        level_sorted(s),
    ensures
        level_sorted(insert_sorted(s, e)),
    decreases s.len(),
{
    if s.len() == 0 {
    } else if entry_le(s[0], e) {
        let rest = s.drop_first();
        assert(level_sorted(rest)) by {
            assert(forall|i: int, j: int|
                0 <= i < j < rest.len() ==> rest[i] == s[i + 1] && rest[j] == s[j + 1]);
        }
        lemma_insert_sorted_sorted(rest, e);
        lemma_insert_sorted_elems(rest, e);
        let r = seq![s[0]] + insert_sorted(rest, e);
        assert forall|i: int, j: int| 0 <= i < j < r.len() implies entry_le(r[i], r[j]) by {
            if i == 0 {
                let x = r[j];
                assert(x == insert_sorted(rest, e)[j - 1]);
                if x == e {
                } else {
                    assert(rest.contains(x));
                    let w = choose|w: int| 0 <= w < rest.len() && rest[w] == x;
                    assert(s[w + 1] == x);
                }
            } else {
                assert(r[i] == insert_sorted(rest, e)[i - 1]);
                assert(r[j] == insert_sorted(rest, e)[j - 1]);
            }
        }
    } else {
        lemma_entry_le_total(s[0], e);
        let r = seq![e] + s;
        assert forall|i: int, j: int| 0 <= i < j < r.len() implies entry_le(r[i], r[j]) by {
            if i == 0 {
                assert(r[j] == s[j - 1]);
                if j > 1 {
                    lemma_entry_le_trans(e, s[0], s[j - 1]);
                }
            } else {
                assert(r[i] == s[i - 1]);
                assert(r[j] == s[j - 1]);
            }
        }
    }
}

/// Sorting a level keeps exactly its contents.
proof fn lemma_sort_level_multiset(s: Seq<EntryModel>)
    ensures
        sort_level(s).to_multiset() == s.to_multiset(),
        sort_level(s).len() == s.len(),
    decreases s.len(),
{
    if s.len() > 0 {
        lemma_sort_level_multiset(s.drop_last());
        lemma_insert_sorted_multiset(sort_level(s.drop_last()), s.last());
        assert(s =~= s.drop_last().push(s.last()));
        assert(s.drop_last().push(s.last()).to_multiset() =~= s.drop_last().to_multiset().insert(
            s.last(),
        ));
    }
}

/// Every element of a sorted level is one of the level's entries.
proof fn lemma_sort_level_elems(s: Seq<EntryModel>)
    ensures
        forall|k: int|
            0 <= k < sort_level(s).len() ==> s.contains(#[trigger] sort_level(s)[k]),
{
    lemma_sort_level_multiset(s);
    assert forall|k: int|
        0 <= k < sort_level(s).len() implies s.contains(#[trigger] sort_level(s)[k]) by {
        let x = sort_level(s)[k];
        assert(sort_level(s).contains(x));
        assert(sort_level(s).to_multiset().count(x) > 0);
    }
}

/// Sorting puts a level into the listing order.
proof fn lemma_sort_level_sorted(s: Seq<EntryModel>)
    ensures
        level_sorted(sort_level(s)),
    decreases s.len(),
{
    if s.len() > 0 {
        lemma_sort_level_sorted(s.drop_last());
        lemma_insert_sorted_sorted(sort_level(s.drop_last()), s.last());
    }
}


/// Every element of a converted level is the conversion of a kept
/// (non-hidden) raw entry of that level.
proof fn lemma_convert_level_elems(s: Seq<RawModel>)
    ensures
        forall|k: int|
            0 <= k < convert_level(s).len() ==> exists|j: int|
                0 <= j < s.len() && !is_hidden(s[j].name) && #[trigger] convert_level(s)[k]
                    == entry_of(s[j]),
    decreases s.len(),
{
    if s.len() > 0 {
        let rest = convert_level(s.drop_last());
        lemma_convert_level_elems(s.drop_last());
        assert forall|k: int|
            0 <= k < convert_level(s).len() implies exists|j: int|
            0 <= j < s.len() && !is_hidden(s[j].name) && #[trigger] convert_level(s)[k]
                == entry_of(s[j]) by {
            if k < rest.len() {
                assert(convert_level(s)[k] == rest[k]);
                let j = choose|j: int|
                    0 <= j < s.drop_last().len() && !is_hidden(s.drop_last()[j].name)
                        && rest[k] == entry_of(s.drop_last()[j]);
                assert(s[j] == s.drop_last()[j]);
            } else {
                assert(!is_hidden(s.last().name));
                assert(convert_level(s)[k] == entry_of(s[s.len() - 1]));
            }
        }
    }
}

/// The built listing of any level is in the listing order at every
/// depth, shows nothing hidden, and, when the enumeration was
/// well-formed, gives children exactly to directories.
proof fn lemma_build_props(s: Seq<RawModel>)
    ensures
        forest_sorted(build_level_spec(s)),
        forest_visible(build_level_spec(s)),
        raw_level_wf(s) ==> forest_shaped(build_level_spec(s)),
    decreases s, 2int,
{
    let conv = convert_level(s);
    let b = build_level_spec(s);
    lemma_sort_level_sorted(conv);
    lemma_sort_level_elems(conv);
    lemma_convert_level_elems(s);
    assert forall|k: int| 0 <= k < b.len() implies tree_sorted(#[trigger] b[k]) && tree_visible(
        b[k],
    ) && (raw_level_wf(s) ==> tree_shaped(b[k])) by {
        assert(conv.contains(b[k]));
        let m = choose|m: int| 0 <= m < conv.len() && conv[m] == b[k];
        let j = choose|j: int|
            0 <= j < s.len() && !is_hidden(s[j].name) && conv[m] == entry_of(s[j]);
        let r = s[j];
        assert(b[k] == entry_of(r));
        match r.children {
            Some(c) => {
                lemma_build_props(c);
                assert(raw_level_wf(s) ==> tree_shaped(b[k])) by {
                    if raw_level_wf(s) {
                        assert(raw_wf(r));
                        assert(raw_level_wf(c));
                    }
                }
            },
            None => {},
        }
    }
}

/// Law: at every level of a built listing, all directories come before
/// all files, and within each kind the names ascend lexicographically.
pub proof fn lemma_build_ordered(s: Seq<RawModel>)
    ensures
        forest_sorted(build_level_spec(s)),
{
    lemma_build_props(s);
}

/// Law: no entry whose name begins with a dot appears in a built
/// listing, at any depth, whatever its subtree held.
pub proof fn lemma_build_excludes_hidden(s: Seq<RawModel>)
    ensures
        forest_visible(build_level_spec(s)),
{
    lemma_build_props(s);
}

/// Law: built from a well-formed enumeration, every listing entry
/// carries children exactly when it is a directory.
pub proof fn lemma_build_shaped(s: Seq<RawModel>)
    requires
        raw_level_wf(s),
    ensures
        forest_shaped(build_level_spec(s)),
{
    lemma_build_props(s);
}


/// True when the given entry name is excluded from listings: it begins
/// with a dot.
pub fn is_hidden_name(name: &String) -> (r: bool)
    ensures
        r == is_hidden(name@),
{
    if name.as_str().unicode_len() == 0 {
        false
    } else {
        name.as_str().get_char(0) == '.'
    }
}

/// Ascending lexicographic comparison of two names.
fn lex_le_exec(a: &String, b: &String) -> (r: bool)
    ensures
        r == lex_le(a@, b@),
{
    let alen = a.as_str().unicode_len();
    let blen = b.as_str().unicode_len();
    let mut i: usize = 0;
    proof {
        assert(a@.skip(0) =~= a@);
        assert(b@.skip(0) =~= b@);
    }
    loop
        invariant
            i <= alen,
            i <= blen,
            alen == a@.len(),
            blen == b@.len(),
            lex_le(a@, b@) == lex_le(a@.skip(i as int), b@.skip(i as int)),
        decreases alen - i,
    {
        if i == alen {
            return true;
        }
        if i == blen {
            return false;
        }
        let ca = a.as_str().get_char(i);
        let cb = b.as_str().get_char(i);
        if ca != cb {
            return (ca as u32) < (cb as u32);
        }
        proof {
            assert(a@.skip(i as int).drop_first() =~= a@.skip(i as int + 1));
            assert(b@.skip(i as int).drop_first() =~= b@.skip(i as int + 1));
        }
        i = i + 1;
    }
}

/// The listing order, decided on two built entries.
fn entry_le_exec(a: &DirectoryEntry, b: &DirectoryEntry) -> (r: bool)
    ensures
        r == entry_le(a.model(), b.model()),
{
    if a.is_directory == b.is_directory {
        lex_le_exec(&a.name, &b.name)
    } else {
        a.is_directory
    }
}

/// Sorted insertion splits the level at the first entry that must come
/// after the new one.
proof fn lemma_insert_sorted_at(s: Seq<EntryModel>, e: EntryModel, k: int)
    requires
        0 <= k <= s.len(),
        forall|j: int| 0 <= j < k ==> entry_le(#[trigger] s[j], e),
        k < s.len() ==> !entry_le(s[k], e),
    ensures
        insert_sorted(s, e) == s.subrange(0, k) + seq![e] + s.subrange(k, s.len() as int),
    decreases s.len(),
{
    if s.len() == 0 {
        assert(insert_sorted(s, e) =~= s.subrange(0, k) + seq![e] + s.subrange(k, 0));
    } else if k == 0 {
        assert(insert_sorted(s, e) =~= s.subrange(0, 0) + seq![e] + s.subrange(0, s.len() as int));
    } else {
        let rest = s.drop_first();
        assert(entry_le(s[0], e));
        assert forall|j: int| 0 <= j < k - 1 implies entry_le(#[trigger] rest[j], e) by {
            assert(rest[j] == s[j + 1]);
        }
        lemma_insert_sorted_at(rest, e, k - 1);
        assert(insert_sorted(s, e) =~= s.subrange(0, k) + seq![e] + s.subrange(
            k,
            s.len() as int,
        ));
    }
}

/// Insert one built entry into a level kept in the listing order.
fn insert_entry(v: &mut Vec<DirectoryEntry>, e: DirectoryEntry)
    ensures
        level_model(final(v)@) == insert_sorted(level_model(old(v)@), e.model()),
{
    let ghost s0 = level_model(old(v)@);
    proof {
        lemma_level_model(old(v)@);
    }
    let mut k: usize = 0;
    loop
        invariant
            0 <= k <= v@.len(),
            v@ == old(v)@,
            s0 == level_model(old(v)@),
            s0.len() == v@.len(),
            forall|j: int| 0 <= j < v@.len() ==> s0[j] == (#[trigger] v@[j]).model(),
            forall|j: int| 0 <= j < k ==> entry_le(#[trigger] s0[j], e.model()),
        ensures
            0 <= k <= v@.len(),
            (k as int) < s0.len() ==> !entry_le(s0[k as int], e.model()),
        decreases v@.len() - k,
    {
        if k == v.len() {
            break;
        }
        if !entry_le_exec(&v[k], &e) {
            break;
        }
        k = k + 1;
    }
    proof {
        lemma_insert_sorted_at(s0, e.model(), k as int);
    }
    let ghost before = v@;
    v.insert(k, e);
    proof {
        lemma_level_model(v@);
        assert(level_model(v@) =~= insert_sorted(s0, e.model())) by {
            assert(v@ == before.insert(k as int, e));
            assert forall|j: int| 0 <= j < v@.len() implies level_model(v@)[j] == insert_sorted(
                s0,
                e.model(),
            )[j] by {
                if j < k {
                    assert(v@[j] == before[j]);
                } else if j == k {
                    assert(v@[j] == e);
                } else {
                    assert(v@[j] == before[j - 1]);
                }
            }
        }
    }
}

/// Build the ordered listing of one enumerated level: entries whose
/// names begin with a dot are dropped before anything else is done with
/// them, every kept directory's subtree is built in turn, and the level
/// is sorted with directories before files and names ascending.
pub fn build_entries(raw: &Vec<RawEntry>) -> (out: Vec<DirectoryEntry>)
    ensures
        level_model(out@) == build_level_spec(raw_level_model(raw@)),
        forest_sorted(level_model(out@)),
        forest_visible(level_model(out@)),
        raw_level_wf(raw_level_model(raw@)) ==> forest_shaped(level_model(out@)),
    decreases *raw,
{
    let ghost rm = raw_level_model(raw@);
    proof {
        lemma_raw_level_model(raw@);
    }
    let mut out: Vec<DirectoryEntry> = Vec::new();
    let mut idx: usize = 0;
    proof {
        assert(raw@.subrange(0, 0) =~= Seq::<RawEntry>::empty());
        assert(level_model(out@) =~= Seq::<EntryModel>::empty());
    }
    while idx < raw.len()
        invariant
            0 <= idx <= raw@.len(),
            rm == raw_level_model(raw@),
            rm.len() == raw@.len(),
            forall|j: int| 0 <= j < raw@.len() ==> rm[j] == (#[trigger] raw@[j]).model(),
            level_model(out@) == build_level_spec(raw_level_model(raw@.subrange(0, idx as int))),
        decreases raw@.len() - idx,
    {
        let ghost prefix = raw@.subrange(0, idx as int);
        let ghost cm = convert_level(raw_level_model(prefix));
        let e = &raw[idx];
        let ghost m = raw@[idx as int].model();
        let hidden = is_hidden_name(&e.name);
        proof {
            assert(raw@.subrange(0, idx as int + 1).drop_last() =~= prefix);
            assert(raw_level_model(raw@.subrange(0, idx as int + 1)) == raw_level_model(
                prefix,
            ).push(m));
            assert(raw_level_model(prefix).push(m).drop_last() =~= raw_level_model(prefix));
        }
        if !hidden {
            let children: Option<Vec<DirectoryEntry>> = match &e.children {
                Some(c) => {
                    proof {
                        assert(decreases_to!(*raw => raw@[idx as int]));
                    }
                    Some(build_entries(c))
                },
                None => None,
            };
            let entry = DirectoryEntry {
                name: e.name.clone(),
                path: e.path.clone(),
                is_directory: e.is_dir,
                children,
            };
            proof {
                assert(entry.model() == entry_of(m));
                lemma_level_model(out@);
            }
            insert_entry(&mut out, entry);
            proof {
                assert(convert_level(raw_level_model(prefix).push(m)) == cm.push(entry_of(m)));
                assert(cm.push(entry_of(m)).drop_last() =~= cm);
                assert(sort_level(cm.push(entry_of(m))) == insert_sorted(sort_level(cm), entry_of(
                    m,
                )));
            }
        } else {
            proof {
                assert(convert_level(raw_level_model(prefix).push(m)) == cm);
            }
        }
        idx = idx + 1;
    }
    proof {
        assert(raw@.subrange(0, raw@.len() as int) =~= raw@);
        lemma_build_props(rm);
    }
    out
}


/// The listing order, spelled out: in a level in that order, no file
/// ever precedes a directory, and names ascend lexicographically
/// within each kind.
pub proof fn lemma_level_sorted_meaning(s: Seq<EntryModel>)
    requires
        level_sorted(s),
    ensures
        forall|i: int, j: int|
            0 <= i < j < s.len() && !s[i].is_directory ==> !s[j].is_directory,
        forall|i: int, j: int|
            0 <= i < j < s.len() && s[i].is_directory == s[j].is_directory ==> lex_le(
                s[i].name,
                s[j].name,
            ),
{
    assert forall|i: int, j: int|
        0 <= i < j < s.len() && !s[i].is_directory implies !s[j].is_directory by {
        assert(entry_le(s[i], s[j]));
    }
    assert forall|i: int, j: int|
        0 <= i < j < s.len() && s[i].is_directory == s[j].is_directory implies lex_le(
        s[i].name,
        s[j].name,
    ) by {
        assert(entry_le(s[i], s[j]));
    }
}

} // verus!
