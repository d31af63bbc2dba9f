//! The key/value text format of the Steam client.
//!
//! A document is one root key followed by one brace-delimited block; a block
//! holds a sequence of pairs, each pair a key and either a leaf or a nested
//! block.  Keys and leaves are written either as quoted strings (with the
//! escapes `\\`, `\"`, `\n`, `\t`) or as bare tokens; both forms canonicalize
//! to the same sequence of characters, so a number and the same number quoted
//! are indistinguishable downstream — the format does not tell them apart.
//!
//! The functions here are total: malformed text never fails a caller, it
//! yields `None` (or no extracted values), which callers treat as absence.

use vstd::prelude::*;

verus! {

// ---------------------------------------------------------------------------
// Character classes and canonical spellings
// ---------------------------------------------------------------------------

pub open spec fn is_space(c: char) -> bool {
    c == ' ' || c == '\t' || c == '\n' || c == '\r'
}

/// Characters that may stand in a bare (unquoted) token.
pub open spec fn is_plain(c: char) -> bool {
    !is_space(c) && c != '"' && c != '{' && c != '}'
}

/// The character denoted by `c` when it follows a backslash in a quoted token.
pub open spec fn unescape(c: char) -> char {
    if c == 'n' {
        '\n'
    } else if c == 't' {
        '\t'
    } else {
        c
    }
}

// ---------------------------------------------------------------------------
// The specification-level reading of a document
// ---------------------------------------------------------------------------

/// Position of the first character at or after `pos` that is not whitespace.
pub open spec fn ws_end(s: Seq<char>, pos: int) -> int
    decreases s.len() - pos,
{
    if 0 <= pos < s.len() && is_space(s[pos]) {
        ws_end(s, pos + 1)
    } else {
        pos
    }
}

/// Content and end position of a quoted token whose opening quote has already
/// been consumed: `pos` stands on the first character after the `"`.
pub open spec fn quoted_rest(s: Seq<char>, pos: int) -> Option<(Seq<char>, int)>
    decreases s.len() - pos,
{
    if pos < 0 || pos >= s.len() {
        None
    } else if s[pos] == '"' {
        Some((Seq::empty(), pos + 1))
    } else if s[pos] == '\\' {
        if pos + 2 > s.len() {
            None
        } else {
            match quoted_rest(s, pos + 2) {
                None => None,
                Some((t, e)) => Some((seq![unescape(s[pos + 1])] + t, e)),
            }
        }
    } else {
        match quoted_rest(s, pos + 1) {
            None => None,
            Some((t, e)) => Some((seq![s[pos]] + t, e)),
        }
    }
}

/// End of the bare token that starts at `pos`.
pub open spec fn token_end(s: Seq<char>, pos: int) -> int
    decreases s.len() - pos,
{
    if 0 <= pos < s.len() && is_plain(s[pos]) {
        token_end(s, pos + 1)
    } else {
        pos
    }
}

/// Canonical content and end position of the key or leaf that starts at
/// `pos`; quoted and bare spellings both yield their canonical characters.
pub open spec fn text_item(s: Seq<char>, pos: int) -> Option<(Seq<char>, int)> {
    if pos < 0 || pos >= s.len() {
        None
    } else if s[pos] == '"' {
        quoted_rest(s, pos + 1)
    } else if is_plain(s[pos]) {
        Some((s.subrange(pos, token_end(s, pos)), token_end(s, pos)))
    } else {
        None
    }
}

/// End position of the value that starts at `pos`: a leaf, or a block.
pub open spec fn value_end(s: Seq<char>, pos: int) -> Option<int>
    decreases s.len() - pos, 0int,
{
    if pos < 0 || pos >= s.len() {
        None
    } else if s[pos] == '{' {
        block_end(s, pos + 1)
    } else {
        match text_item(s, pos) {
            None => None,
            Some((t, e)) => Some(e),
        }
    }
}

/// End position (one past the closing `}`) of the block whose opening `{` has
/// already been consumed: `pos` stands on the first character after it.
///
/// The comparisons against `pos` and `s.len()` on the way guard the
/// recursion; parsing in fact always moves forward, so they never hold.
pub open spec fn block_end(s: Seq<char>, pos: int) -> Option<int>
    decreases s.len() - pos, 1int,
{
    if pos < 0 || pos > s.len() {
        None
    } else {
        let i = ws_end(s, pos);
        if !(pos <= i < s.len()) {
            None
        } else if s[i] == '}' {
            Some(i + 1)
        } else {
            match text_item(s, i) {
                None => None,
                Some((k, kend)) => {
                    let m = ws_end(s, kend);
                    if m <= pos || m > s.len() {
                        None
                    } else {
                        match value_end(s, m) {
                            None => None,
                            Some(e) => if e <= m || e > s.len() {
                                None
                            } else {
                                block_end(s, e)
                            },
                        }
                    }
                },
            }
        }
    }
}

/// The first pair inside a block (from `pos`, just inside the `{`) whose key
/// is `key` and whose value is a leaf; pairs with block values are skipped,
/// so a block under the looked-up key counts as the key being absent.
pub open spec fn block_field(s: Seq<char>, pos: int, key: Seq<char>) -> Option<Seq<char>>
    decreases s.len() - pos,
{
    if pos < 0 || pos > s.len() {
        None
    } else {
        let i = ws_end(s, pos);
        if !(pos <= i < s.len()) {
            None
        } else if s[i] == '}' {
            None
        } else {
            match text_item(s, i) {
                None => None,
                Some((k, kend)) => {
                    let m = ws_end(s, kend);
                    if m <= pos || m > s.len() {
                        None
                    } else if m < s.len() && s[m] == '{' {
                        match block_end(s, m + 1) {
                            None => None,
                            Some(e) => if e <= m || e > s.len() {
                                None
                            } else {
                                block_field(s, e, key)
                            },
                        }
                    } else {
                        match text_item(s, m) {
                            None => None,
                            Some((v, e)) => if k == key {
                                Some(v)
                            } else if e <= m || e > s.len() {
                                None
                            } else {
                                block_field(s, e, key)
                            },
                        }
                    }
                },
            }
        }
    }
}

/// Position just inside the root block of a well-formed document: one root
/// key, one block value, nothing but whitespace after it.  `None` on any
/// malformed document, unbalanced braces included.
pub open spec fn doc_root_block(s: Seq<char>) -> Option<int> {
    let i = ws_end(s, 0);
    match text_item(s, i) {
        None => None,
        Some((k, kend)) => {
            let m = ws_end(s, kend);
            if !(0 <= m < s.len()) || s[m] != '{' {
                None
            } else {
                match block_end(s, m + 1) {
                    None => None,
                    Some(e) => if ws_end(s, e) == s.len() {
                        Some(m + 1)
                    } else {
                        None
                    },
                }
            }
        },
    }
}

/// The leaf value of `key` directly inside the root block of a well-formed
/// document.
pub open spec fn doc_field(s: Seq<char>, key: Seq<char>) -> Option<Seq<char>> {
    match doc_root_block(s) {
        None => None,
        Some(p) => block_field(s, p, key),
    }
}

// ---------------------------------------------------------------------------
// Parsing always moves forward
// ---------------------------------------------------------------------------

pub proof fn lemma_ws_end_bounds(s: Seq<char>, pos: int)
    requires
        0 <= pos <= s.len(),
    ensures
        pos <= ws_end(s, pos) <= s.len(),
    decreases s.len() - pos,
{
    if pos < s.len() && is_space(s[pos]) {
        lemma_ws_end_bounds(s, pos + 1);
    }
}

pub proof fn lemma_token_end_bounds(s: Seq<char>, pos: int)
    requires
        0 <= pos <= s.len(),
    ensures
        pos <= token_end(s, pos) <= s.len(),
    decreases s.len() - pos,
{
    if pos < s.len() && is_plain(s[pos]) {
        lemma_token_end_bounds(s, pos + 1);
    }
}

pub proof fn lemma_quoted_rest_bounds(s: Seq<char>, pos: int)
    requires
        0 <= pos <= s.len(),
    ensures
        quoted_rest(s, pos) matches Some(te) ==> pos < te.1 <= s.len(),
    decreases s.len() - pos,
{
    if pos < s.len() && s[pos] != '"' {
        if s[pos] == '\\' {
            if pos + 2 <= s.len() {
                lemma_quoted_rest_bounds(s, pos + 2);
            }
        } else {
            lemma_quoted_rest_bounds(s, pos + 1);
        }
    }
}

pub proof fn lemma_text_item_bounds(s: Seq<char>, pos: int)
    requires
        0 <= pos <= s.len(),
    ensures
        text_item(s, pos) matches Some(te) ==> pos < te.1 <= s.len(),
{
    if pos < s.len() {
        if s[pos] == '"' {
            lemma_quoted_rest_bounds(s, pos + 1);
        } else if is_plain(s[pos]) {
            lemma_token_end_bounds(s, pos + 1);
        }
    }
}

pub proof fn lemma_value_end_bounds(s: Seq<char>, pos: int)
    requires
        0 <= pos <= s.len(),
    ensures
        value_end(s, pos) matches Some(e) ==> pos < e <= s.len(),
    decreases s.len() - pos, 0int,
{
    if pos < s.len() {
        if s[pos] == '{' {
            lemma_block_end_bounds(s, pos + 1);
        } else {
            lemma_text_item_bounds(s, pos);
        }
    }
}

pub proof fn lemma_block_end_bounds(s: Seq<char>, pos: int)
    requires
        0 <= pos <= s.len(),
    ensures
        block_end(s, pos) matches Some(e) ==> pos < e <= s.len(),
    decreases s.len() - pos, 1int,
{
    let i = ws_end(s, pos);
    lemma_ws_end_bounds(s, pos);
    if pos <= i < s.len() && s[i] != '}' {
        lemma_text_item_bounds(s, i);
        match text_item(s, i) {
            None => {},
            Some((k, kend)) => {
                lemma_ws_end_bounds(s, kend);
                let m = ws_end(s, kend);
                if pos < m <= s.len() {
                    lemma_value_end_bounds(s, m);
                    match value_end(s, m) {
                        None => {},
                        Some(e) => {
                            if m < e <= s.len() {
                                lemma_block_end_bounds(s, e);
                            }
                        },
                    }
                }
            },
        }
    }
}

// ---------------------------------------------------------------------------
// The executable parser
// ---------------------------------------------------------------------------

/// `r` is the executable form of the specification-level token result `m`.
pub open spec fn tok_matches(r: Option<(Vec<char>, usize)>, m: Option<(Seq<char>, int)>) -> bool {
    match (r, m) {
        (None, None) => true,
        (Some(ve), Some(te)) => ve.0@ == te.0 && ve.1 as int == te.1,
        _ => false,
    }
}

/// `r` is the executable form of the specification-level position result `m`.
pub open spec fn pos_matches(r: Option<usize>, m: Option<int>) -> bool {
    match (r, m) {
        (None, None) => true,
        (Some(e), Some(me)) => e as int == me,
        _ => false,
    }
}

fn is_space_x(c: char) -> (r: bool)
    ensures
        r == is_space(c),
{
    c == ' ' || c == '\t' || c == '\n' || c == '\r'
}

fn is_plain_x(c: char) -> (r: bool)
    ensures
        r == is_plain(c),
{
    !is_space_x(c) && c != '"' && c != '{' && c != '}'
}

pub(crate) fn ws_end_x(s: &Vec<char>, pos: usize) -> (r: usize)
    requires
        pos <= s@.len(),
    ensures
        r as int == ws_end(s@, pos as int),
        pos <= r <= s@.len(),
{
    let mut i: usize = pos;
    while i < s.len() && is_space_x(s[i])
        invariant
            pos <= i <= s@.len(),
            ws_end(s@, pos as int) == ws_end(s@, i as int),
        decreases s@.len() - i,
    {
        i = i + 1;
    }
    i
}

fn token_end_x(s: &Vec<char>, pos: usize) -> (r: usize)
    requires
        pos <= s@.len(),
    ensures
        r as int == token_end(s@, pos as int),
        pos <= r <= s@.len(),
{
    let mut i: usize = pos;
    while i < s.len() && is_plain_x(s[i])
        invariant
            pos <= i <= s@.len(),
            token_end(s@, pos as int) == token_end(s@, i as int),
        decreases s@.len() - i,
    {
        i = i + 1;
    }
    i
}

fn quoted_rest_x(s: &Vec<char>, pos: usize) -> (r: Option<(Vec<char>, usize)>)
    requires
        pos <= s@.len(),
    ensures
        tok_matches(r, quoted_rest(s@, pos as int)),
    decreases s@.len() - pos,
{
    if pos >= s.len() {
        None
    } else if s[pos] == '"' {
        Some((Vec::new(), pos + 1))
    } else if s[pos] == '\\' {
        if s.len() - pos < 2 {
            None
        } else {
            match quoted_rest_x(s, pos + 2) {
                None => None,
                Some((mut t, e)) => {
                    let ghost told = t@;
                    let c = unescape_x(s[pos + 1]);
                    t.insert(0, c);
                    proof {
                        assert(t@ =~= seq![unescape(s@[pos as int + 1])] + told);
                    }
                    Some((t, e))
                },
            }
        }
    } else {
        match quoted_rest_x(s, pos + 1) {
            None => None,
            Some((mut t, e)) => {
                let ghost told = t@;
                t.insert(0, s[pos]);
                proof {
                    assert(t@ =~= seq![s@[pos as int]] + told);
                }
                Some((t, e))
            },
        }
    }
}

fn unescape_x(c: char) -> (r: char)
    ensures
        r == unescape(c),
{
    if c == 'n' {
        '\n'
    } else if c == 't' {
        '\t'
    } else {
        c
    }
}

pub(crate) fn text_item_x(s: &Vec<char>, pos: usize) -> (r: Option<(Vec<char>, usize)>)
    requires
        pos <= s@.len(),
    ensures
        tok_matches(r, text_item(s@, pos as int)),
{
    if pos >= s.len() {
        None
    } else if s[pos] == '"' {
        quoted_rest_x(s, pos + 1)
    } else if is_plain_x(s[pos]) {
        let e = token_end_x(s, pos);
        let mut t: Vec<char> = Vec::new();
        let mut j: usize = pos;
        while j < e
            invariant
                pos <= j <= e <= s@.len(),
                t@ == s@.subrange(pos as int, j as int),
            decreases e - j,
        {
            t.push(s[j]);
            j = j + 1;
            proof {
                assert(t@ =~= s@.subrange(pos as int, j as int));
            }
        }
        Some((t, e))
    } else {
        None
    }
}

fn value_end_x(s: &Vec<char>, pos: usize) -> (r: Option<usize>)
    requires
        pos <= s@.len(),
    ensures
        pos_matches(r, value_end(s@, pos as int)),
    decreases s@.len() - pos, 0int,
{
    if pos >= s.len() {
        None
    } else if s[pos] == '{' {
        block_end_x(s, pos + 1)
    } else {
        match text_item_x(s, pos) {
            None => None,
            Some((_t, e)) => Some(e),
        }
    }
}

pub(crate) fn block_end_x(s: &Vec<char>, pos: usize) -> (r: Option<usize>)
    requires
        pos <= s@.len(),
    ensures
        pos_matches(r, block_end(s@, pos as int)),
    decreases s@.len() - pos, 1int,
{
    let mut cur: usize = pos;
    loop
        invariant
            pos <= cur <= s@.len(),
            block_end(s@, pos as int) == block_end(s@, cur as int),
        decreases s@.len() - cur,
    {
        let i = ws_end_x(s, cur);
        if i >= s.len() {
            return None;
        }
        if s[i] == '}' {
            return Some(i + 1);
        }
        match text_item_x(s, i) {
            None => {
                return None;
            },
            Some((_k, kend)) => {
                proof {
                    lemma_text_item_bounds(s@, i as int);
                }
                let m = ws_end_x(s, kend);
                match value_end_x(s, m) {
                    None => {
                        return None;
                    },
                    Some(e) => {
                        proof {
                            lemma_value_end_bounds(s@, m as int);
                        }
                        cur = e;
                    },
                }
            },
        }
    }
}

/// Character-wise equality of two texts.
pub fn chars_eq(a: &Vec<char>, b: &Vec<char>) -> (r: bool)
    ensures
        r == (a@ == b@),
{
    if a.len() != b.len() {
        return false;
    }
    let mut j: usize = 0;
    while j < a.len()
        invariant
            0 <= j <= a@.len(),
            a@.len() == b@.len(),
            forall|k: int| 0 <= k < j ==> a@[k] == b@[k],
        decreases a@.len() - j,
    {
        if a[j] != b[j] {
            return false;
        }
        j = j + 1;
    }
    proof {
        assert(a@ =~= b@);
    }
    true
}

pub(crate) fn block_field_x(s: &Vec<char>, pos: usize, key: &Vec<char>) -> (r: Option<Vec<char>>)
    requires
        pos <= s@.len(),
    ensures
        match r {
            None => block_field(s@, pos as int, key@) is None,
            Some(v) => block_field(s@, pos as int, key@) == Some(v@),
        },
{
    let mut cur: usize = pos;
    loop
        invariant
            pos <= cur <= s@.len(),
            block_field(s@, pos as int, key@) == block_field(s@, cur as int, key@),
        decreases s@.len() - cur,
    {
        let i = ws_end_x(s, cur);
        if i >= s.len() {
            return None;
        }
        if s[i] == '}' {
            return None;
        }
        match text_item_x(s, i) {
            None => {
                return None;
            },
            Some((k, kend)) => {
                proof {
                    lemma_text_item_bounds(s@, i as int);
                }
                let m = ws_end_x(s, kend);
                if m < s.len() && s[m] == '{' {
                    match block_end_x(s, m + 1) {
                        None => {
                            return None;
                        },
                        Some(e) => {
                            proof {
                                lemma_block_end_bounds(s@, m as int + 1);
                            }
                            cur = e;
                        },
                    }
                } else {
                    match text_item_x(s, m) {
                        None => {
                            return None;
                        },
                        Some((v, e)) => {
                            if chars_eq(&k, key) {
                                return Some(v);
                            }
                            proof {
                                lemma_text_item_bounds(s@, m as int);
                            }
                            cur = e;
                        },
                    }
                }
            },
        }
    }
}

pub(crate) fn doc_root_block_x(s: &Vec<char>) -> (r: Option<usize>)
    ensures
        pos_matches(r, doc_root_block(s@)),
        r matches Some(p) ==> p <= s@.len(),
{
    let i = ws_end_x(s, 0);
    match text_item_x(s, i) {
        None => None,
        Some((_k, kend)) => {
            proof {
                lemma_text_item_bounds(s@, i as int);
            }
            let m = ws_end_x(s, kend);
            if m >= s.len() || s[m] != '{' {
                None
            } else {
                match block_end_x(s, m + 1) {
                    None => None,
                    Some(e) => {
                        proof {
                            lemma_block_end_bounds(s@, m as int + 1);
                        }
                        if ws_end_x(s, e) == s.len() {
                            Some(m + 1)
                        } else {
                            None
                        }
                    },
                }
            }
        },
    }
}

/// The leaf value under `key` directly inside the root block, `None` when the
/// document is malformed or the key is absent or holds a block.
pub fn lookup_doc_field(s: &Vec<char>, key: &Vec<char>) -> (r: Option<Vec<char>>)
    ensures
        match r {
            None => doc_field(s@, key@) is None,
            Some(v) => doc_field(s@, key@) == Some(v@),
        },
{
    match doc_root_block_x(s) {
        None => None,
        Some(p) => block_field_x(s, p, key),
    }
}

// ---------------------------------------------------------------------------
// A value canonicalizes the same way quoted and bare
// ---------------------------------------------------------------------------

proof fn lemma_token_run(s: Seq<char>, pos: int, end: int)
    requires
        0 <= pos <= end <= s.len(),
        forall|j: int| pos <= j < end ==> is_plain(s[j]),
        end == s.len() || !is_plain(s[end]),
    ensures
        token_end(s, pos) == end,
    decreases end - pos,
{
    if pos < end {
        lemma_token_run(s, pos + 1, end);
    }
}

proof fn lemma_quoted_run(s: Seq<char>, pos: int, end: int)
    requires
        0 <= pos <= end < s.len(),
        forall|j: int| pos <= j < end ==> s[j] != '"' && s[j] != '\\',
        s[end] == '"',
    ensures
        quoted_rest(s, pos) == Some((s.subrange(pos, end), end + 1)),
    decreases end - pos,
{
    if pos == end {
        assert(s.subrange(pos, end) =~= Seq::<char>::empty());
    } else {
        lemma_quoted_run(s, pos + 1, end);
        assert(seq![s[pos]] + s.subrange(pos + 1, end) =~= s.subrange(pos, end));
    }
}

/// The dual spelling of leaves: a value written as a bare token and the same
/// value written quoted canonicalize to the identical character sequence, so
/// a numeric leaf and a quoted numeric leaf are one and the same downstream.
pub proof fn lemma_dual_leaf_forms(t: Seq<char>)
    requires
        t.len() > 0,
        forall|j: int| 0 <= j < t.len() ==> is_plain(t[j]) && t[j] != '\\',
    ensures
        text_item(t, 0) == Some((t, t.len() as int)),
        text_item(seq!['"'] + t + seq!['"'], 0) == Some((t, t.len() + 2int)),
{
    lemma_token_run(t, 0, t.len() as int);
    assert(t.subrange(0, t.len() as int) =~= t);
    let w = seq!['"'] + t + seq!['"'];
    assert(forall|j: int| 1 <= j < t.len() as int + 1 ==> w[j] == t[j - 1]);
    lemma_quoted_run(w, 1, t.len() as int + 1);
    assert(w.subrange(1, t.len() as int + 1) =~= t);
}

} // verus!
