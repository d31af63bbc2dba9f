//! Finding the Steam root, its library folders, and the final list of games.
//!
//! The root is the registered installation path when it exists on disk, else
//! a well-known default when that exists, else nothing — and no root means no
//! games, not an error.  The root's `config/libraryfolders.vdf` descriptor
//! declares further library folders; the set of libraries is the root plus
//! every declared path that exists, deduplicated, in declaration order.  The
//! registry lookup and every disk access belong to the caller, which hands
//! the outcomes in as plain values.

use vstd::prelude::*;

use crate::kv::block_end;
use crate::kv::block_end_x;
use crate::kv::block_field;
use crate::kv::block_field_x;
use crate::kv::doc_root_block;
use crate::kv::lemma_block_end_bounds;
use crate::kv::lemma_text_item_bounds;
use crate::kv::text_item;
use crate::kv::text_item_x;
use crate::kv::ws_end;
use crate::kv::ws_end_x;
use crate::scan::entry_views;
use crate::scan::GameEntry;
use crate::scan::GameEntryView;

verus! {

pub open spec fn path_views(l: Seq<Vec<char>>) -> Seq<Seq<char>> {
    l.map_values(|p: Vec<char>| p@)
}

// ---------------------------------------------------------------------------
// The library-folders descriptor
// ---------------------------------------------------------------------------

pub open spec fn path_key_spec() -> Seq<char> {
    seq!['p', 'a', 't', 'h']
}

fn path_key() -> (r: Vec<char>)
    ensures
        r@ == path_key_spec(),
{
    let mut v: Vec<char> = Vec::new();
    v.push('p');
    v.push('a');
    v.push('t');
    v.push('h');
    proof {
        assert(v@ =~= path_key_spec());
    }
    v
}

/// The `path` fields of the block-valued entries of the root block, walking
/// from `pos`, in file order.  Entries of any other shape are ignored; a
/// malformed tail ends the walk (the well-formedness gate is
/// `doc_root_block`, checked before this is relied on).
pub open spec fn paths_from(s: Seq<char>, pos: int) -> Seq<Seq<char>>
    decreases s.len() - pos,
{
    if pos < 0 || pos > s.len() {
        Seq::empty()
    } else {
        let i = ws_end(s, pos);
        if !(pos <= i < s.len()) {
            Seq::empty()
        } else if s[i] == '}' {
            Seq::empty()
        } else {
            match text_item(s, i) {
                None => Seq::empty(),
                Some((k, kend)) => {
                    let m = ws_end(s, kend);
                    if m <= pos || m > s.len() {
                        Seq::empty()
                    } else if m < s.len() && s[m] == '{' {
                        match block_end(s, m + 1) {
                            None => Seq::empty(),
                            Some(e) => if e <= m || e > s.len() {
                                Seq::empty()
                            } else {
                                match block_field(s, m + 1, path_key_spec()) {
                                    Some(p) => seq![p] + paths_from(s, e),
                                    None => paths_from(s, e),
                                }
                            },
                        }
                    } else {
                        match text_item(s, m) {
                            None => Seq::empty(),
                            Some((v, e)) => if e <= m || e > s.len() {
                                Seq::empty()
                            } else {
                                paths_from(s, e)
                            },
                        }
                    }
                },
            }
        }
    }
}

/// The library paths a descriptor text declares: none at all when the
/// document is malformed, else the `path` field of each entry that has one,
/// in file order.
pub open spec fn library_paths_spec(s: Seq<char>) -> Seq<Seq<char>> {
    match doc_root_block(s) {
        None => Seq::empty(),
        Some(p) => paths_from(s, p),
    }
}

fn paths_from_x(s: &Vec<char>, pos: usize) -> (r: Vec<Vec<char>>)
    requires
        pos <= s@.len(),
    ensures
        path_views(r@) == paths_from(s@, pos as int),
{
    let key = path_key();
    let mut acc: Vec<Vec<char>> = Vec::new();
    let mut cur: usize = pos;
    loop
        invariant
            pos <= cur <= s@.len(),
            key@ == path_key_spec(),
            paths_from(s@, pos as int) =~= path_views(acc@) + paths_from(s@, cur as int),
        decreases s@.len() - cur,
    {
        let i = ws_end_x(s, cur);
        if i >= s.len() || s[i] == '}' {
            return acc;
        }
        match text_item_x(s, i) {
            None => {
                return acc;
            },
            Some((_k, kend)) => {
                proof {
                    lemma_text_item_bounds(s@, i as int);
                }
                let m = ws_end_x(s, kend);
                if m < s.len() && s[m] == '{' {
                    match block_end_x(s, m + 1) {
                        None => {
                            return acc;
                        },
                        Some(e) => {
                            proof {
                                lemma_block_end_bounds(s@, m as int + 1);
                            }
                            match block_field_x(s, m + 1, &key) {
                                Some(p) => {
                                    let ghost aprev = path_views(acc@);
                                    let ghost pv = p@;
                                    acc.push(p);
                                    proof {
                                        assert(path_views(acc@) =~= aprev.push(pv));
                                        assert(aprev + (seq![pv] + paths_from(s@, e as int))
                                            =~= path_views(acc@) + paths_from(s@, e as int));
                                    }
                                },
                                None => {},
                            }
                            cur = e;
                        },
                    }
                } else {
                    match text_item_x(s, m) {
                        None => {
                            return acc;
                        },
                        Some((_v, e)) => {
                            proof {
                                lemma_text_item_bounds(s@, m as int);
                            }
                            cur = e;
                        },
                    }
                }
            },
        }
    }
}

/// The declared library paths of a descriptor text the caller read, or none
/// when there was no readable descriptor — absence is not an error.
pub fn library_candidates(descriptor: Option<&Vec<char>>) -> (r: Vec<Vec<char>>)
    ensures
        match descriptor {
            None => r@.len() == 0,
            Some(d) => path_views(r@) == library_paths_spec(d@),
        },
{
    match descriptor {
        None => Vec::new(),
        Some(d) => {
            match crate::kv::doc_root_block_x(d) {
                None => Vec::new(),
                Some(p) => paths_from_x(d, p),
            }
        },
    }
}

// ---------------------------------------------------------------------------
// The set of libraries
// ---------------------------------------------------------------------------

pub open spec fn distinct(s: Seq<Seq<char>>) -> bool {
    forall|i: int, j: int| 0 <= i < j < s.len() ==> s[i] != s[j]
}

/// `acc` extended by the candidates not yet in it, in candidate order.
pub open spec fn dedup_acc(acc: Seq<Seq<char>>, cands: Seq<Seq<char>>) -> Seq<Seq<char>>
    decreases cands.len(),
{
    if cands.len() == 0 {
        acc
    } else if acc.contains(cands.first()) {
        dedup_acc(acc, cands.drop_first())
    } else {
        dedup_acc(acc.push(cands.first()), cands.drop_first())
    }
}

/// The library set of a root: the root itself, then every candidate path
/// (already confirmed to exist by the caller) not seen before, in order.
pub open spec fn resolve_spec(root: Seq<char>, cands: Seq<Seq<char>>) -> Seq<Seq<char>> {
    dedup_acc(seq![root], cands)
}

fn contains_path(l: &Vec<Vec<char>>, p: &Vec<char>) -> (r: bool)
    ensures
        r == path_views(l@).contains(p@),
{
    let mut i: usize = 0;
    while i < l.len()
        invariant
            0 <= i <= l@.len(),
            forall|k: int| 0 <= k < i ==> path_views(l@)[k] != p@,
        decreases l@.len() - i,
    {
        if crate::kv::chars_eq(&l[i], p) {
            assert(path_views(l@)[i as int] == p@);
            return true;
        }
        i = i + 1;
    }
    false
}

fn clone_chars(v: &Vec<char>) -> (r: Vec<char>)
    ensures
        r@ == v@,
{
    let mut r: Vec<char> = Vec::new();
    let mut j: usize = 0;
    while j < v.len()
        invariant
            0 <= j <= v@.len(),
            r@ == v@.subrange(0, j as int),
        decreases v@.len() - j,
    {
        r.push(v[j]);
        j = j + 1;
        proof {
            assert(r@ =~= v@.subrange(0, j as int));
        }
    }
    proof {
        assert(v@.subrange(0, v@.len() as int) =~= v@);
    }
    r
}

/// Seeds the library set with the root and adds each existing candidate path
/// that is not already present, in order.
pub fn resolve_libraries(root: &Vec<char>, candidates: &Vec<Vec<char>>) -> (r: Vec<Vec<char>>)
    ensures
        path_views(r@) == resolve_spec(root@, path_views(candidates@)),
{
    let mut acc: Vec<Vec<char>> = Vec::new();
    acc.push(clone_chars(root));
    proof {
        assert(path_views(acc@) =~= seq![root@]);
    }
    let ghost cands = path_views(candidates@);
    proof {
        assert(cands.skip(0) =~= cands);
    }
    let mut i: usize = 0;
    while i < candidates.len()
        invariant
            0 <= i <= candidates@.len(),
            cands == path_views(candidates@),
            resolve_spec(root@, cands) == dedup_acc(path_views(acc@), cands.skip(i as int)),
        decreases candidates@.len() - i,
    {
        proof {
            assert(cands.skip(i as int).first() == cands[i as int]);
            assert(cands.skip(i as int).drop_first() =~= cands.skip(i as int + 1));
        }
        let c = &candidates[i];
        if !contains_path(&acc, c) {
            let ghost aprev = path_views(acc@);
            acc.push(clone_chars(c));
            proof {
                assert(path_views(acc@) =~= aprev.push(cands[i as int]));
            }
        }
        i = i + 1;
    }
    proof {
        assert(cands.skip(cands.len() as int) =~= Seq::<Seq<char>>::empty());
    }
    acc
}

// ---------------------------------------------------------------------------
// What resolution owes the caller
// ---------------------------------------------------------------------------

proof fn lemma_dedup_acc_extends(acc: Seq<Seq<char>>, cands: Seq<Seq<char>>)
    ensures
        dedup_acc(acc, cands).len() >= acc.len(),
        forall|i: int| 0 <= i < acc.len() ==> dedup_acc(acc, cands)[i] == acc[i],
    decreases cands.len(),
{
    if cands.len() > 0 {
        if acc.contains(cands.first()) {
            lemma_dedup_acc_extends(acc, cands.drop_first());
        } else {
            lemma_dedup_acc_extends(acc.push(cands.first()), cands.drop_first());
            assert forall|i: int| 0 <= i < acc.len() implies dedup_acc(acc, cands)[i] == acc[i] by {
                assert(dedup_acc(acc.push(cands.first()), cands.drop_first())[i] == acc.push(
                    cands.first(),
                )[i]);
            }
        }
    }
}

proof fn lemma_dedup_acc_distinct(acc: Seq<Seq<char>>, cands: Seq<Seq<char>>)
    requires
        distinct(acc),
    ensures
        distinct(dedup_acc(acc, cands)),
    decreases cands.len(),
{
    if cands.len() > 0 {
        if acc.contains(cands.first()) {
            lemma_dedup_acc_distinct(acc, cands.drop_first());
        } else {
            assert forall|i: int, j: int|
                0 <= i < j < acc.push(cands.first()).len() implies acc.push(cands.first())[i]
                != acc.push(cands.first())[j] by {
                if j < acc.len() {
                } else {
                    assert(!acc.contains(cands.first()));
                    assert(acc.push(cands.first())[i] == acc[i]);
                }
            }
            lemma_dedup_acc_distinct(acc.push(cands.first()), cands.drop_first());
        }
    }
}

proof fn lemma_dedup_acc_complete(acc: Seq<Seq<char>>, cands: Seq<Seq<char>>, x: Seq<char>)
    requires
        acc.contains(x) || cands.contains(x),
    ensures
        dedup_acc(acc, cands).contains(x),
    decreases cands.len(),
{
    if cands.len() == 0 {
        assert(acc.contains(x));
    } else {
        let first = cands.first();
        if acc.contains(x) {
            if acc.contains(first) {
                lemma_dedup_acc_complete(acc, cands.drop_first(), x);
            } else {
                assert(acc.push(first).contains(x)) by {
                    let w = choose|w: int| 0 <= w < acc.len() && acc[w] == x;
                    assert(acc.push(first)[w] == x);
                }
                lemma_dedup_acc_complete(acc.push(first), cands.drop_first(), x);
            }
        } else {
            let w = choose|w: int| 0 <= w < cands.len() && cands[w] == x;
            if w == 0 {
                if acc.contains(first) {
                    lemma_dedup_acc_complete(acc, cands.drop_first(), x);
                } else {
                    assert(acc.push(first)[acc.len() as int] == x);
                    assert(acc.push(first).contains(x));
                    lemma_dedup_acc_complete(acc.push(first), cands.drop_first(), x);
                }
            } else {
                assert(cands.drop_first()[w - 1] == x);
                assert(cands.drop_first().contains(x));
                if acc.contains(first) {
                    lemma_dedup_acc_complete(acc, cands.drop_first(), x);
                } else {
                    lemma_dedup_acc_complete(acc.push(first), cands.drop_first(), x);
                }
            }
        }
    }
}

/// The resolved library set never holds a path twice: a candidate equal to
/// the root, or declared twice over, contributes exactly one element.  The
/// root always stands first.
pub proof fn lemma_resolve_deduplicates(root: Seq<char>, cands: Seq<Seq<char>>)
    ensures
        distinct(resolve_spec(root, cands)),
        resolve_spec(root, cands).len() >= 1,
        resolve_spec(root, cands)[0] == root,
{
    lemma_dedup_acc_distinct(seq![root], cands);
    lemma_dedup_acc_extends(seq![root], cands);
    assert(resolve_spec(root, cands)[0] == seq![root][0]);
}

/// Every path handed in — the root and each candidate — is in the resolved
/// set: deduplication drops repetitions only.
pub proof fn lemma_resolve_complete(root: Seq<char>, cands: Seq<Seq<char>>, x: Seq<char>)
    requires
        x == root || cands.contains(x),
    ensures
        resolve_spec(root, cands).contains(x),
{
    if x == root {
        assert(seq![root][0] == x);
        assert(seq![root].contains(x));
    }
    lemma_dedup_acc_complete(seq![root], cands, x);
}

/// With no readable descriptor there are no candidates, and the library set
/// is exactly the root alone.
pub proof fn lemma_resolve_missing_descriptor(root: Seq<char>)
    ensures
        resolve_spec(root, Seq::empty()) == seq![root],
{
}

// ---------------------------------------------------------------------------
// The root of the installation
// ---------------------------------------------------------------------------

/// `C:\Program Files (x86)\Steam`, the default installation path.
pub open spec fn default_root_spec() -> Seq<char> {
    seq![
        'C', ':', '\\', 'P', 'r', 'o', 'g', 'r', 'a', 'm', ' ', 'F', 'i', 'l', 'e', 's', ' ', '(',
        'x', '8', '6', ')', '\\', 'S', 't', 'e', 'a', 'm',
    ]
}

/// The default installation path as a value.
pub fn default_root() -> (r: Vec<char>)
    ensures
        r@ == default_root_spec(),
{
    let mut v: Vec<char> = Vec::new();
    v.push('C');
    v.push(':');
    v.push('\\');
    v.push('P');
    v.push('r');
    v.push('o');
    v.push('g');
    v.push('r');
    v.push('a');
    v.push('m');
    v.push(' ');
    v.push('F');
    v.push('i');
    v.push('l');
    v.push('e');
    v.push('s');
    v.push(' ');
    v.push('(');
    v.push('x');
    v.push('8');
    v.push('6');
    v.push(')');
    v.push('\\');
    v.push('S');
    v.push('t');
    v.push('e');
    v.push('a');
    v.push('m');
    proof {
        assert(v@ =~= default_root_spec());
    }
    v
}

/// Chooses the Steam root from what the caller looked up: the registered
/// path when the lookup succeeded and that path exists on disk, else the
/// default path when that exists, else none — Steam is simply not installed.
///
/// `registered_exists` answers for the path in `registered`; it is ignored
/// when the lookup failed.
pub fn find_steam_root(
    registered: Option<Vec<char>>,
    registered_exists: bool,
    default_exists: bool,
) -> (r: Option<Vec<char>>)
    ensures
        match registered {
            Some(p) => if registered_exists {
                r matches Some(q) && q@ == p@
            } else if default_exists {
                r matches Some(q) && q@ == default_root_spec()
            } else {
                r is None
            },
            None => if default_exists {
                r matches Some(q) && q@ == default_root_spec()
            } else {
                r is None
            },
        },
{
    match registered {
        Some(p) => {
            if registered_exists {
                return Some(p);
            }
            if default_exists {
                Some(default_root())
            } else {
                None
            }
        },
        None => {
            if default_exists {
                Some(default_root())
            } else {
                None
            }
        },
    }
}

// ---------------------------------------------------------------------------
// The final list
// ---------------------------------------------------------------------------

pub open spec fn library_views(ls: Seq<Vec<GameEntry>>) -> Seq<Seq<GameEntryView>> {
    ls.map_values(|l: Vec<GameEntry>| entry_views(l@))
}

/// The per-library results laid out flat, library order first, scan order
/// within a library.
pub open spec fn flatten_entries(ls: Seq<Seq<GameEntryView>>) -> Seq<GameEntryView>
    decreases ls.len(),
{
    if ls.len() == 0 {
        Seq::empty()
    } else {
        flatten_entries(ls.drop_last()) + ls.last()
    }
}

/// The one externally exposed composition: no root, no games — never an
/// error — else the confirmed entries of all libraries, concatenated in
/// library order.
pub fn list_all_games(root_found: bool, per_library: Vec<Vec<GameEntry>>) -> (r: Vec<GameEntry>)
    ensures
        !root_found ==> r@.len() == 0,
        root_found ==> entry_views(r@) == flatten_entries(library_views(per_library@)),
{
    if !root_found {
        return Vec::new();
    }
    let ghost origs = per_library@;
    let ghost all = library_views(per_library@);
    let mut rem = per_library;
    let mut r: Vec<GameEntry> = Vec::new();
    let n = rem.len();
    let mut i: usize = 0;
    while i < n
        invariant
            0 <= i <= origs.len(),
            n == origs.len(),
            rem@ == origs.skip(i as int),
            all == library_views(origs),
            entry_views(r@) == flatten_entries(all.take(i as int)),
        decreases origs.len() - i,
    {
        let mut lib = rem.remove(0);
        proof {
            assert(lib == origs[i as int]);
            assert(rem@ =~= origs.skip(i as int + 1));
        }
        let ghost libv = entry_views(lib@);
        let m = lib.len();
        let mut j: usize = 0;
        while j < m
            invariant
                0 <= j <= libv.len(),
                m == libv.len(),
                lib@ == origs[i as int]@.skip(j as int),
                libv == entry_views(origs[i as int]@),
                entry_views(r@) == flatten_entries(all.take(i as int)) + libv.take(j as int),
            decreases libv.len() - j,
        {
            let e = lib.remove(0);
            proof {
                assert(e == origs[i as int]@[j as int]);
                assert(lib@ =~= origs[i as int]@.skip(j as int + 1));
            }
            let ghost rprev = entry_views(r@);
            r.push(e);
            proof {
                assert(entry_views(r@) =~= rprev.push(e@));
                assert(libv.take(j as int + 1) =~= libv.take(j as int).push(libv[j as int]));
                assert(flatten_entries(all.take(i as int)) + libv.take(j as int + 1)
                    =~= (flatten_entries(all.take(i as int)) + libv.take(j as int)).push(
                    libv[j as int],
                ));
            }
            j = j + 1;
        }
        proof {
            assert(libv.take(libv.len() as int) =~= libv);
            assert(all.take(i as int + 1).drop_last() =~= all.take(i as int));
            assert(all.take(i as int + 1).last() == all[i as int]);
            assert(all[i as int] == libv);
        }
        i = i + 1;
    }
    proof {
        assert(all.take(origs.len() as int) =~= all);
    }
    r
}

} // verus!
