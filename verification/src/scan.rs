//! Scanning a library folder for installed games.
//!
//! A library folder holds per-application manifest files named
//! `appmanifest_*` under its `steamapps` directory.  A manifest is a
//! key/value document whose root block carries `appid` and `installdir`; a
//! game counts as installed only when both fields are present and the
//! directory `<library>/steamapps/common/<installdir>` exists on disk.
//!
//! Directory listing and existence checks are the caller's: the caller hands
//! in each file's name and content, gets back the candidate entries with
//! their computed paths, checks which paths exist, and hands the answers
//! back.  Every file that does not yield a record — wrong name, unreadable,
//! malformed, a field missing — is skipped silently, never an error.

use vstd::prelude::*;

use crate::kv::doc_field;
use crate::kv::lookup_doc_field;

verus! {

// ---------------------------------------------------------------------------
// Data
// ---------------------------------------------------------------------------

/// One directory entry of a `steamapps` directory, as the caller saw it:
/// its file name, and its text if the entry was a readable file.
pub struct ScanFile {
    pub name: Vec<char>,
    pub content: Option<Vec<char>>,
}

pub struct ScanFileView {
    pub name: Seq<char>,
    pub content: Option<Seq<char>>,
}

impl View for ScanFile {
    type V = ScanFileView;

    open spec fn view(&self) -> ScanFileView {
        ScanFileView {
            name: self.name@,
            content: match self.content {
                Some(c) => Some(c@),
                None => None,
            },
        }
    }
}

/// The two fields of a manifest that discovery reads, in canonical text form.
pub struct ManifestRecord {
    pub appid: Vec<char>,
    pub installdir: Vec<char>,
}

pub struct ManifestRecordView {
    pub appid: Seq<char>,
    pub installdir: Seq<char>,
}

impl View for ManifestRecord {
    type V = ManifestRecordView;

    open spec fn view(&self) -> ManifestRecordView {
        ManifestRecordView { appid: self.appid@, installdir: self.installdir@ }
    }
}

/// One discovered game: its application id and the absolute path of its
/// install directory.
pub struct GameEntry {
    pub appid: Vec<char>,
    pub path: Vec<char>,
}

pub struct GameEntryView {
    pub appid: Seq<char>,
    pub path: Seq<char>,
}

impl View for GameEntry {
    type V = GameEntryView;

    open spec fn view(&self) -> GameEntryView {
        GameEntryView { appid: self.appid@, path: self.path@ }
    }
}

pub open spec fn entry_views(l: Seq<GameEntry>) -> Seq<GameEntryView> {
    l.map_values(|g: GameEntry| g@)
}

pub open spec fn file_views(l: Seq<ScanFile>) -> Seq<ScanFileView> {
    l.map_values(|f: ScanFile| f@)
}

// ---------------------------------------------------------------------------
// Fixed spellings
// ---------------------------------------------------------------------------

pub open spec fn appid_key_spec() -> Seq<char> {
    seq!['a', 'p', 'p', 'i', 'd']
}

pub open spec fn installdir_key_spec() -> Seq<char> {
    seq!['i', 'n', 's', 't', 'a', 'l', 'l', 'd', 'i', 'r']
}

/// `appmanifest_`, the name prefix of the files the scan reads.
pub open spec fn manifest_prefix_spec() -> Seq<char> {
    seq!['a', 'p', 'p', 'm', 'a', 'n', 'i', 'f', 'e', 's', 't', '_']
}

/// `/steamapps/common/`, between a library folder and an install directory.
pub open spec fn common_infix_spec() -> Seq<char> {
    seq!['/', 's', 't', 'e', 'a', 'm', 'a', 'p', 'p', 's', '/', 'c', 'o', 'm', 'm', 'o', 'n', '/']
}

/// `/steamapps`, between a library folder and its manifest directory.
pub open spec fn steamapps_suffix_spec() -> Seq<char> {
    seq!['/', 's', 't', 'e', 'a', 'm', 'a', 'p', 'p', 's']
}

fn appid_key() -> (r: Vec<char>)
    ensures
        r@ == appid_key_spec(),
{
    let mut v: Vec<char> = Vec::new();
    v.push('a');
    v.push('p');
    v.push('p');
    v.push('i');
    v.push('d');
    proof {
        assert(v@ =~= appid_key_spec());
    }
    v
}

fn installdir_key() -> (r: Vec<char>)
    ensures
        r@ == installdir_key_spec(),
{
    let mut v: Vec<char> = Vec::new();
    v.push('i');
    v.push('n');
    v.push('s');
    v.push('t');
    v.push('a');
    v.push('l');
    v.push('l');
    v.push('d');
    v.push('i');
    v.push('r');
    proof {
        assert(v@ =~= installdir_key_spec());
    }
    v
}

/// The `appmanifest_` file-name prefix as a value.
pub fn manifest_prefix() -> (r: Vec<char>)
    ensures
        r@ == manifest_prefix_spec(),
{
    let mut v: Vec<char> = Vec::new();
    v.push('a');
    v.push('p');
    v.push('p');
    v.push('m');
    v.push('a');
    v.push('n');
    v.push('i');
    v.push('f');
    v.push('e');
    v.push('s');
    v.push('t');
    v.push('_');
    proof {
        assert(v@ =~= manifest_prefix_spec());
    }
    v
}

// ---------------------------------------------------------------------------
// Manifest records
// ---------------------------------------------------------------------------

/// The record a manifest text yields: both fields from the root block of a
/// well-formed document, `None` as soon as either is missing or the text is
/// malformed.
pub open spec fn manifest_fields_spec(s: Seq<char>) -> Option<ManifestRecordView> {
    match (doc_field(s, appid_key_spec()), doc_field(s, installdir_key_spec())) {
        (Some(a), Some(d)) => Some(ManifestRecordView { appid: a, installdir: d }),
        _ => None,
    }
}

/// Reads `appid` and `installdir` out of one manifest text.
pub fn manifest_fields(content: &Vec<char>) -> (r: Option<ManifestRecord>)
    ensures
        match r {
            None => manifest_fields_spec(content@) is None,
            Some(rec) => manifest_fields_spec(content@) == Some(rec@),
        },
{
    let ak = appid_key();
    match lookup_doc_field(content, &ak) {
        None => None,
        Some(a) => {
            let dk = installdir_key();
            match lookup_doc_field(content, &dk) {
                None => None,
                Some(d) => Some(ManifestRecord { appid: a, installdir: d }),
            }
        },
    }
}

// ---------------------------------------------------------------------------
// Paths
// ---------------------------------------------------------------------------

pub open spec fn starts_with(s: Seq<char>, prefix: Seq<char>) -> bool {
    s.len() >= prefix.len() && s.subrange(0, prefix.len() as int) == prefix
}

/// Whether `s` starts with `prefix`, character for character.
pub fn starts_with_x(s: &Vec<char>, prefix: &Vec<char>) -> (r: bool)
    ensures
        r == starts_with(s@, prefix@),
{
    if s.len() < prefix.len() {
        return false;
    }
    let mut j: usize = 0;
    while j < prefix.len()
        invariant
            0 <= j <= prefix@.len() <= s@.len(),
            forall|k: int| 0 <= k < j ==> s@[k] == prefix@[k],
        decreases prefix@.len() - j,
    {
        if s[j] != prefix[j] {
            proof {
                assert(s@.subrange(0, prefix@.len() as int)[j as int] == s@[j as int]);
            }
            return false;
        }
        j = j + 1;
    }
    proof {
        assert(s@.subrange(0, prefix@.len() as int) =~= prefix@);
    }
    true
}

/// The manifest directory of a library folder: `<library>/steamapps`.
pub open spec fn steamapps_dir_spec(lib: Seq<char>) -> Seq<char> {
    lib + steamapps_suffix_spec()
}

/// The install path a manifest points at:
/// `<library>/steamapps/common/<installdir>`.
pub open spec fn game_path_spec(lib: Seq<char>, installdir: Seq<char>) -> Seq<char> {
    lib + common_infix_spec() + installdir
}

fn push_chars(dst: &mut Vec<char>, src: &Vec<char>)
    ensures
        final(dst)@ == old(dst)@ + src@,
{
    let mut j: usize = 0;
    while j < src.len()
        invariant
            0 <= j <= src@.len(),
            dst@ == old(dst)@ + src@.subrange(0, j as int),
        decreases src@.len() - j,
    {
        dst.push(src[j]);
        j = j + 1;
        proof {
            assert(old(dst)@ + src@.subrange(0, j as int) =~= (old(dst)@ + src@.subrange(
                0,
                j as int - 1,
            )).push(src@[j as int - 1]));
        }
    }
    proof {
        assert(src@.subrange(0, src@.len() as int) =~= src@);
    }
}

/// Builds `<library>/steamapps`.
pub fn steamapps_dir(lib: &Vec<char>) -> (r: Vec<char>)
    ensures
        r@ == steamapps_dir_spec(lib@),
{
    let mut r: Vec<char> = Vec::new();
    push_chars(&mut r, lib);
    r.push('/');
    r.push('s');
    r.push('t');
    r.push('e');
    r.push('a');
    r.push('m');
    r.push('a');
    r.push('p');
    r.push('p');
    r.push('s');
    proof {
        assert(r@ =~= steamapps_dir_spec(lib@));
    }
    r
}

/// Builds `<library>/steamapps/common/<installdir>`.
pub fn game_path(lib: &Vec<char>, installdir: &Vec<char>) -> (r: Vec<char>)
    ensures
        r@ == game_path_spec(lib@, installdir@),
{
    let mut r: Vec<char> = Vec::new();
    push_chars(&mut r, lib);
    r.push('/');
    r.push('s');
    r.push('t');
    r.push('e');
    r.push('a');
    r.push('m');
    r.push('a');
    r.push('p');
    r.push('p');
    r.push('s');
    r.push('/');
    r.push('c');
    r.push('o');
    r.push('m');
    r.push('m');
    r.push('o');
    r.push('n');
    r.push('/');
    let ghost mid = r@;
    proof {
        assert(mid =~= lib@ + common_infix_spec());
    }
    push_chars(&mut r, installdir);
    proof {
        assert(r@ =~= game_path_spec(lib@, installdir@));
    }
    r
}

// ---------------------------------------------------------------------------
// The scan
// ---------------------------------------------------------------------------

/// The record a directory entry yields: its name must carry the
/// `appmanifest_` prefix, its content must have been readable, and the text
/// must yield both fields; anything else is a skip.
pub open spec fn file_record(f: ScanFileView) -> Option<ManifestRecordView> {
    if starts_with(f.name, manifest_prefix_spec()) {
        match f.content {
            Some(c) => manifest_fields_spec(c),
            None => None,
        }
    } else {
        None
    }
}

/// The entry a record of library `lib` turns into.
pub open spec fn entry_of(lib: Seq<char>, rec: ManifestRecordView) -> GameEntryView {
    GameEntryView { appid: rec.appid, path: game_path_spec(lib, rec.installdir) }
}

/// The candidate entries of a library, one per file that yields a record, in
/// file order.
pub open spec fn scan_candidates(lib: Seq<char>, files: Seq<ScanFileView>) -> Seq<GameEntryView>
    decreases files.len(),
{
    if files.len() == 0 {
        Seq::empty()
    } else {
        let rest = scan_candidates(lib, files.drop_last());
        match file_record(files.last()) {
            Some(rec) => rest.push(entry_of(lib, rec)),
            None => rest,
        }
    }
}

/// Scans the files of one library folder into candidate entries; the caller
/// still has to confirm that each entry's path exists (`confirm_games`).
pub fn scan_library(lib: &Vec<char>, files: &Vec<ScanFile>) -> (r: Vec<GameEntry>)
    ensures
        entry_views(r@) == scan_candidates(lib@, file_views(files@)),
{
    let prefix = manifest_prefix();
    let mut r: Vec<GameEntry> = Vec::new();
    let mut i: usize = 0;
    while i < files.len()
        invariant
            0 <= i <= files@.len(),
            prefix@ == manifest_prefix_spec(),
            entry_views(r@) == scan_candidates(lib@, file_views(files@).take(i as int)),
        decreases files@.len() - i,
    {
        let ghost views = file_views(files@);
        let f = &files[i];
        let mut produced: Option<ManifestRecord> = None;
        if starts_with_x(&f.name, &prefix) {
            match &f.content {
                Some(c) => {
                    produced = manifest_fields(c);
                },
                None => {},
            }
        }
        proof {
            assert(views.take(i as int + 1).drop_last() =~= views.take(i as int));
            assert(views.take(i as int + 1).last() == views[i as int]);
        }
        match produced {
            Some(rec) => {
                let p = game_path(lib, &rec.installdir);
                let e = GameEntry { appid: rec.appid, path: p };
                let ghost rprev = entry_views(r@);
                r.push(e);
                proof {
                    assert(entry_views(r@) =~= rprev.push(e@));
                }
            },
            None => {},
        }
        i = i + 1;
    }
    proof {
        assert(file_views(files@).take(files@.len() as int) =~= file_views(files@));
    }
    r
}

/// The candidates whose install path turned out to exist, in order.
pub open spec fn confirmed(c: Seq<GameEntryView>, exists: Seq<bool>) -> Seq<GameEntryView>
    decreases c.len(),
{
    if c.len() == 0 || exists.len() == 0 {
        Seq::empty()
    } else {
        let rest = confirmed(c.drop_last(), exists.drop_last());
        if exists.last() {
            rest.push(c.last())
        } else {
            rest
        }
    }
}

/// Keeps the candidates whose path the caller found on disk: `exists[i]`
/// answers for `candidates[i]`.
pub fn confirm_games(candidates: Vec<GameEntry>, exists: &Vec<bool>) -> (r: Vec<GameEntry>)
    requires
        candidates@.len() == exists@.len(),
    ensures
        entry_views(r@) == confirmed(entry_views(candidates@), exists@),
{
    let ghost orig = candidates@;
    let mut rem = candidates;
    let mut r: Vec<GameEntry> = Vec::new();
    let mut i: usize = 0;
    while i < exists.len()
        invariant
            0 <= i <= exists@.len(),
            orig.len() == exists@.len(),
            rem@ == orig.skip(i as int),
            entry_views(r@) == confirmed(entry_views(orig).take(i as int), exists@.take(i as int)),
        decreases exists@.len() - i,
    {
        let e = rem.remove(0);
        proof {
            assert(e == orig[i as int]);
            assert(rem@ =~= orig.skip(i as int + 1));
            assert(entry_views(orig).take(i as int + 1).drop_last() =~= entry_views(orig).take(
                i as int,
            ));
            assert(exists@.take(i as int + 1).drop_last() =~= exists@.take(i as int));
        }
        if exists[i] {
            let ghost rprev = entry_views(r@);
            r.push(e);
            proof {
                assert(entry_views(r@) =~= rprev.push(e@));
            }
        }
        i = i + 1;
    }
    proof {
        assert(entry_views(orig).take(orig.len() as int) =~= entry_views(orig));
        assert(exists@.take(exists@.len() as int) =~= exists@);
    }
    r
}

// ---------------------------------------------------------------------------
// What the scan owes each file
// ---------------------------------------------------------------------------

/// The entry of a file's record; only meaningful — and only applied — where
/// the file yields one.
pub open spec fn record_entry(lib: Seq<char>, f: ScanFileView) -> GameEntryView {
    match file_record(f) {
        Some(rec) => entry_of(lib, rec),
        None => GameEntryView { appid: Seq::empty(), path: Seq::empty() },
    }
}

/// The whole scan in one equation: the candidate entries are exactly the
/// files that yield a record — in file order, one entry each — and nothing
/// else.
pub proof fn lemma_scan_is_filtered_map(lib: Seq<char>, files: Seq<ScanFileView>)
    ensures
        scan_candidates(lib, files) == files.filter(|f: ScanFileView| file_record(f) is Some)
            .map_values(|f: ScanFileView| record_entry(lib, f)),
    decreases files.len(),
{
    reveal_with_fuel(Seq::<ScanFileView>::filter, 2);
    let pred = |f: ScanFileView| file_record(f) is Some;
    let to_entry = |f: ScanFileView| record_entry(lib, f);
    if files.len() == 0 {
        assert(files.filter(pred).map_values(to_entry) =~= Seq::<GameEntryView>::empty());
    } else {
        lemma_scan_is_filtered_map(lib, files.drop_last());
        if pred(files.last()) {
            assert(files.filter(pred) == files.drop_last().filter(pred).push(files.last()));
            assert(files.drop_last().filter(pred).push(files.last()).map_values(to_entry)
                =~= files.drop_last().filter(pred).map_values(to_entry).push(
                to_entry(files.last()),
            ));
        } else {
            assert(files.filter(pred) == files.drop_last().filter(pred));
        }
    }
}

/// A file that yields a record contributes exactly one candidate entry, the
/// entry of its record, at the end of the scan's output.
pub proof fn lemma_valid_manifest_emits_once(
    lib: Seq<char>,
    files: Seq<ScanFileView>,
    f: ScanFileView,
    rec: ManifestRecordView,
)
    requires
        file_record(f) == Some(rec),
    ensures
        scan_candidates(lib, files.push(f)) == scan_candidates(lib, files).push(entry_of(lib, rec)),
{
    assert(files.push(f).drop_last() =~= files);
}

/// A file that yields no record — wrong name, unreadable, malformed text, a
/// field missing — contributes no candidate entry at all.
pub proof fn lemma_skipped_manifest_emits_nothing(
    lib: Seq<char>,
    files: Seq<ScanFileView>,
    f: ScanFileView,
)
    requires
        file_record(f) is None,
    ensures
        scan_candidates(lib, files.push(f)) == scan_candidates(lib, files),
{
    assert(files.push(f).drop_last() =~= files);
}

/// A candidate whose install path does not exist is dropped by confirmation.
pub proof fn lemma_missing_path_dropped(c: Seq<GameEntryView>, exists: Seq<bool>, e: GameEntryView)
    ensures
        confirmed(c.push(e), exists.push(false)) == confirmed(c, exists),
{
    assert(c.push(e).drop_last() =~= c);
    assert(exists.push(false).drop_last() =~= exists);
}

/// A candidate whose install path exists survives confirmation, exactly once.
pub proof fn lemma_existing_path_kept(c: Seq<GameEntryView>, exists: Seq<bool>, e: GameEntryView)
    ensures
        confirmed(c.push(e), exists.push(true)) == confirmed(c, exists).push(e),
{
    assert(c.push(e).drop_last() =~= c);
    assert(exists.push(true).drop_last() =~= exists);
}

} // verus!
