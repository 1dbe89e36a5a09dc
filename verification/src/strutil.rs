//! Verified string primitives used throughout the crate: prefix tests,
//! whitespace splitting, quote detection, and a small model of file paths
//! (joining, file names, extensions).

use vstd::prelude::*;

verus! {

// ---------------------------------------------------------------------------
// Views of sequences of strings
// ---------------------------------------------------------------------------

/// The sequence of character sequences denoted by a sequence of strings.
pub open spec fn seq_views(v: Seq<String>) -> Seq<Seq<char>> {
    v.map_values(|s: String| s@)
}

pub proof fn lemma_seq_views_push(v: Seq<String>, s: String)
    ensures
        seq_views(v.push(s)) == seq_views(v).push(s@),
{
    assert(seq_views(v.push(s)) =~= seq_views(v).push(s@));
}

pub proof fn lemma_seq_views_add(a: Seq<String>, b: Seq<String>)
    ensures
        seq_views(a + b) == seq_views(a) + seq_views(b),
{
    assert(seq_views(a + b) =~= seq_views(a) + seq_views(b));
}

// ---------------------------------------------------------------------------
// Character classes
// ---------------------------------------------------------------------------

/// The Unicode White_Space characters, the set `str::split_whitespace`
/// splits on.
pub open spec fn is_space_char(c: char) -> bool {
    c == ' ' || c == '\t' || c == '\n' || c == '\r' || c == '\u{000B}' || c == '\u{000C}'
        || c == '\u{0085}' || c == '\u{00A0}' || c == '\u{1680}' || c == '\u{2000}'
        || c == '\u{2001}' || c == '\u{2002}' || c == '\u{2003}' || c == '\u{2004}'
        || c == '\u{2005}' || c == '\u{2006}' || c == '\u{2007}' || c == '\u{2008}'
        || c == '\u{2009}' || c == '\u{200A}' || c == '\u{2028}' || c == '\u{2029}'
        || c == '\u{202F}' || c == '\u{205F}' || c == '\u{3000}'
}

pub fn is_space(c: char) -> (b: bool)
    ensures
        b == is_space_char(c),
{
    c == ' ' || c == '\t' || c == '\n' || c == '\r' || c == '\u{000B}' || c == '\u{000C}'
        || c == '\u{0085}' || c == '\u{00A0}' || c == '\u{1680}' || c == '\u{2000}'
        || c == '\u{2001}' || c == '\u{2002}' || c == '\u{2003}' || c == '\u{2004}'
        || c == '\u{2005}' || c == '\u{2006}' || c == '\u{2007}' || c == '\u{2008}'
        || c == '\u{2009}' || c == '\u{200A}' || c == '\u{2028}' || c == '\u{2029}'
        || c == '\u{202F}' || c == '\u{205F}' || c == '\u{3000}'
}

/// A single or double quote: file contents holding one are never expanded.
pub open spec fn is_quote_char(c: char) -> bool {
    c == '"' || c == '\''
}

pub open spec fn has_quote_char(s: Seq<char>) -> bool {
    exists|i: int| 0 <= i < s.len() && is_quote_char(s[i])
}

pub fn has_quote(s: &str) -> (b: bool)
    ensures
        b == has_quote_char(s@),
{
    let n = s.unicode_len();
    let mut i: usize = 0;
    while i < n
        invariant
            n == s@.len(),
            0 <= i <= n,
            forall|j: int| 0 <= j < i ==> !is_quote_char(s@[j]),
        decreases n - i,
    {
        let c = s.get_char(i);
        if c == '"' || c == '\'' {
            return true;
        }
        i = i + 1;
    }
    false
}

// ---------------------------------------------------------------------------
// Prefix test and equality
// ---------------------------------------------------------------------------

pub open spec fn starts_with(s: Seq<char>, p: Seq<char>) -> bool {
    p.len() <= s.len() && s.subrange(0, p.len() as int) == p
}

pub fn str_starts_with(s: &str, p: &str) -> (b: bool)
    ensures
        b == starts_with(s@, p@),
{
    let ns = s.unicode_len();
    let np = p.unicode_len();
    if np > ns {
        return false;
    }
    let mut i: usize = 0;
    while i < np
        invariant
            ns == s@.len(),
            np == p@.len(),
            np <= ns,
            0 <= i <= np,
            forall|j: int| 0 <= j < i ==> s@[j] == p@[j],
        decreases np - i,
    {
        if s.get_char(i) != p.get_char(i) {
            proof {
                assert(s@.subrange(0, p@.len() as int)[i as int] == s@[i as int]);
            }
            return false;
        }
        i = i + 1;
    }
    proof {
        assert(s@.subrange(0, p@.len() as int) =~= p@);
    }
    true
}

pub fn str_eq(a: &str, b: &str) -> (r: bool)
    ensures
        r == (a@ == b@),
{
    let na = a.unicode_len();
    let nb = b.unicode_len();
    if na != nb {
        return false;
    }
    let mut i: usize = 0;
    while i < na
        invariant
            na == a@.len(),
            na == b@.len(),
            0 <= i <= na,
            forall|j: int| 0 <= j < i ==> a@[j] == b@[j],
        decreases na - i,
    {
        if a.get_char(i) != b.get_char(i) {
            return false;
        }
        i = i + 1;
    }
    proof {
        assert(a@ =~= b@);
    }
    true
}

// ---------------------------------------------------------------------------
// String building
// ---------------------------------------------------------------------------

pub fn concat_str(a: &str, b: &str) -> (r: String)
    ensures
        r@ == a@ + b@,
{
    let s = String::from_str(a);
    s.concat(b)
}

pub fn clone_strings(v: &Vec<String>) -> (r: Vec<String>)
    ensures
        r@ == v@,
{
    let n = v.len();
    let mut r: Vec<String> = Vec::new();
    let mut i: usize = 0;
    while i < n
        invariant
            n == v@.len(),
            0 <= i <= n,
            r@ == v@.take(i as int),
        decreases n - i,
    {
        r.push(v[i].clone());
        proof {
            assert(r@ =~= v@.take(i + 1));
        }
        i = i + 1;
    }
    proof {
        assert(v@.take(n as int) =~= v@);
    }
    r
}

pub fn clone_pairs(v: &Vec<(String, String)>) -> (r: Vec<(String, String)>)
    ensures
        r@ == v@,
{
    let n = v.len();
    let mut r: Vec<(String, String)> = Vec::new();
    let mut i: usize = 0;
    while i < n
        invariant
            n == v@.len(),
            0 <= i <= n,
            r@ == v@.take(i as int),
        decreases n - i,
    {
        r.push((v[i].0.clone(), v[i].1.clone()));
        proof {
            assert(r@ =~= v@.take(i + 1));
        }
        i = i + 1;
    }
    proof {
        assert(v@.take(n as int) =~= v@);
    }
    r
}

/// Relies on `String::push`: appends one character at the end.
#[verifier::external_body]
pub fn push_char(s: &mut String, c: char)
    ensures
        final(s)@ == old(s)@.push(c),
{
    s.push(c)
}

// ---------------------------------------------------------------------------
// Whitespace splitting
// ---------------------------------------------------------------------------

/// Length of the leading run of non-space characters.
pub open spec fn word_len(s: Seq<char>) -> int
    decreases s.len(),
{
    if s.len() == 0 || is_space_char(s[0]) {
        0
    } else {
        1 + word_len(s.skip(1))
    }
}

pub proof fn lemma_word_len_bounds(s: Seq<char>)
    ensures
        0 <= word_len(s) <= s.len(),
    decreases s.len(),
{
    if s.len() == 0 || is_space_char(s[0]) {
    } else {
        lemma_word_len_bounds(s.skip(1));
    }
}

/// `word_len` is the first index holding a space, or the length when none does.
pub proof fn lemma_word_len_char(s: Seq<char>, k: int)
    requires
        0 <= k <= s.len(),
        forall|j: int| 0 <= j < k ==> !is_space_char(s[j]),
        k == s.len() || is_space_char(s[k]),
    ensures
        word_len(s) == k,
    decreases s.len(),
{
    if s.len() == 0 || is_space_char(s[0]) {
    } else {
        assert(forall|j: int| 0 <= j < k - 1 ==> s.skip(1)[j] == s[j + 1]);
        lemma_word_len_char(s.skip(1), k - 1);
    }
}

/// The tokens of `s`, split on Unicode whitespace, in order; empty tokens
/// never occur.
pub open spec fn ws_split(s: Seq<char>) -> Seq<Seq<char>>
    decreases s.len(),
    via ws_split_decreases
{
    if s.len() == 0 {
        Seq::empty()
    } else if is_space_char(s[0]) {
        ws_split(s.skip(1))
    } else {
        seq![s.take(word_len(s))] + ws_split(s.skip(word_len(s)))
    }
}

#[via_fn]
proof fn ws_split_decreases(s: Seq<char>) {
    if s.len() != 0 && !is_space_char(s[0]) {
        lemma_word_len_bounds(s);
        lemma_word_len_bounds(s.skip(1));
        assert(word_len(s) == 1 + word_len(s.skip(1)));
    }
}

pub fn split_whitespace_tokens(s: &str) -> (out: Vec<String>)
    ensures
        seq_views(out@) == ws_split(s@),
{
    let n = s.unicode_len();
    let mut out: Vec<String> = Vec::new();
    let mut i: usize = 0;
    proof {
        assert(seq_views(out@) =~= Seq::<Seq<char>>::empty());
        assert(s@.skip(0) =~= s@);
    }
    while i < n
        invariant
            n == s@.len(),
            0 <= i <= n,
            ws_split(s@) == seq_views(out@) + ws_split(s@.skip(i as int)),
        decreases n - i,
    {
        if is_space(s.get_char(i)) {
            proof {
                assert(s@.skip(i as int)[0] == s@[i as int]);
                assert(s@.skip(i as int).skip(1) =~= s@.skip(i + 1));
            }
            i = i + 1;
        } else {
            let start = i;
            let mut j = i;
            while j < n && !is_space(s.get_char(j))
                invariant
                    n == s@.len(),
                    0 <= start <= j <= n,
                    forall|t: int| start <= t < j ==> !is_space_char(s@[t]),
                decreases n - j,
            {
                j = j + 1;
            }
            let word = s.substring_char(start, j).to_owned();
            proof {
                let rest = s@.skip(start as int);
                assert(forall|t: int| 0 <= t < j - start ==> rest[t] == s@[t + start]);
                if j < n {
                    assert(rest[j - start] == s@[j as int]);
                }
                lemma_word_len_char(rest, j - start);
                assert(rest.take(j - start) =~= s@.subrange(start as int, j as int));
                assert(rest.skip(j - start) =~= s@.skip(j as int));
                assert(ws_split(rest) == seq![word@] + ws_split(s@.skip(j as int)));
                lemma_seq_views_push(out@, word);
                assert(seq_views(out@.push(word)) + ws_split(s@.skip(j as int)) =~= seq_views(
                    out@,
                ) + ws_split(rest));
            }
            out.push(word);
            i = j;
        }
    }
    proof {
        assert(ws_split(s@.skip(n as int)) =~= Seq::<Seq<char>>::empty());
        assert(seq_views(out@) + ws_split(s@.skip(n as int)) =~= seq_views(out@));
    }
    out
}

// ---------------------------------------------------------------------------
// Paths: joining, file names, extensions
// ---------------------------------------------------------------------------

/// The last index holding `c`, or `-1` when `c` does not occur.
pub open spec fn last_index_of(s: Seq<char>, c: char) -> int
    decreases s.len(),
{
    if s.len() == 0 {
        -1
    } else if s[s.len() - 1] == c {
        s.len() - 1
    } else {
        last_index_of(s.drop_last(), c)
    }
}

pub proof fn lemma_last_index_of(s: Seq<char>, c: char)
    ensures
        -1 <= last_index_of(s, c) < s.len(),
        last_index_of(s, c) >= 0 ==> s[last_index_of(s, c)] == c,
        forall|j: int| last_index_of(s, c) < j < s.len() ==> s[j] != c,
    decreases s.len(),
{
    if s.len() == 0 {
    } else if s[s.len() - 1] == c {
    } else {
        lemma_last_index_of(s.drop_last(), c);
        assert(forall|j: int| 0 <= j < s.len() - 1 ==> s.drop_last()[j] == s[j]);
    }
}

/// Searching a prefix known to hold every occurrence gives the same answer.
pub proof fn lemma_last_index_of_prefix(s: Seq<char>, k: int, c: char)
    requires
        0 <= k <= s.len(),
        forall|j: int| k <= j < s.len() ==> s[j] != c,
    ensures
        last_index_of(s, c) == last_index_of(s.take(k), c),
    decreases s.len(),
{
    if s.len() == 0 {
    } else if k == s.len() {
        assert(s.take(k) =~= s);
    } else {
        assert(s[s.len() - 1] != c);
        assert(s.drop_last() =~= s.take(s.len() - 1));
        lemma_last_index_of_prefix(s.take(s.len() - 1), k, c);
        assert(s.take(s.len() - 1).take(k) =~= s.take(k));
    }
}

pub fn rfind_char(s: &str, c: char) -> (r: Option<usize>)
    ensures
        match r {
            Some(i) => i == last_index_of(s@, c),
            None => last_index_of(s@, c) == -1,
        },
{
    let n = s.unicode_len();
    let mut i: usize = n;
    while i > 0
        invariant
            n == s@.len(),
            0 <= i <= n,
            forall|j: int| i <= j < n ==> s@[j] != c,
        decreases i,
    {
        i = i - 1;
        if s.get_char(i) == c {
            proof {
                lemma_last_index_of_prefix(s@, i + 1, c);
                assert(s@.take(i + 1).drop_last() =~= s@.take(i as int));
                assert(s@.take(i + 1)[i as int] == s@[i as int]);
            }
            return Some(i);
        }
    }
    proof {
        lemma_last_index_of_prefix(s@, 0, c);
        assert(s@.take(0) =~= Seq::<char>::empty());
    }
    None
}

/// The final path component: everything after the last `/`.
pub open spec fn spec_file_name(p: Seq<char>) -> Seq<char> {
    p.skip(last_index_of(p, '/') + 1)
}

/// The extension of the final component: what follows its last dot, unless
/// that dot is absent or leads the component (a dotfile has no extension).
pub open spec fn spec_extension(p: Seq<char>) -> Option<Seq<char>> {
    let f = spec_file_name(p);
    let d = last_index_of(f, '.');
    if d <= 0 {
        None
    } else {
        Some(f.skip(d + 1))
    }
}

/// `p` with its extension replaced by `e` (or `.e` appended when it has none).
pub open spec fn spec_with_extension(p: Seq<char>, e: Seq<char>) -> Seq<char> {
    let f = spec_file_name(p);
    let d = last_index_of(f, '.');
    if d <= 0 {
        p + seq!['.'] + e
    } else {
        p.take(p.len() - (f.len() - d)) + seq!['.'] + e
    }
}

fn file_name_start(p: &str) -> (r: usize)
    ensures
        r == last_index_of(p@, '/') + 1,
        r <= p@.len(),
{
    let n = p.unicode_len();
    proof {
        lemma_last_index_of(p@, '/');
    }
    match rfind_char(p, '/') {
        Some(i) => i + 1,
        None => 0,
    }
}

pub fn file_extension(p: &str) -> (r: Option<String>)
    ensures
        match r {
            Some(e) => spec_extension(p@) == Some(e@),
            None => spec_extension(p@) is None,
        },
{
    let n = p.unicode_len();
    let fstart = file_name_start(p);
    let f = p.substring_char(fstart, n);
    proof {
        assert(f@ =~= spec_file_name(p@));
        lemma_last_index_of(f@, '.');
    }
    match rfind_char(f, '.') {
        Some(d) => {
            if d == 0 {
                None
            } else {
                let e = f.substring_char(d + 1, f.unicode_len()).to_owned();
                proof {
                    assert(e@ =~= spec_file_name(p@).skip(last_index_of(spec_file_name(p@), '.')
                        + 1));
                }
                Some(e)
            }
        },
        None => None,
    }
}

pub fn with_extension(p: &str, e: &str) -> (r: String)
    ensures
        r@ == spec_with_extension(p@, e@),
{
    let n = p.unicode_len();
    let fstart = file_name_start(p);
    let f = p.substring_char(fstart, n);
    proof {
        assert(f@ =~= spec_file_name(p@));
        lemma_last_index_of(f@, '.');
        reveal_strlit(".");
    }
    let stem_end: usize = match rfind_char(f, '.') {
        Some(d) => {
            if d == 0 {
                n
            } else {
                fstart + d
            }
        },
        None => n,
    };
    let stem = p.substring_char(0, stem_end);
    let dotted = concat_str(stem, ".");
    let r = dotted.concat(e);
    proof {
        assert("."@ =~= seq!['.']);
        if last_index_of(f@, '.') > 0 {
            assert(stem@ =~= p@.take(p@.len() - (spec_file_name(p@).len() - last_index_of(
                spec_file_name(p@),
                '.',
            ))));
        } else {
            assert(stem@ =~= p@);
        }
    }
    r
}

/// `name` resolved against `cwd`: kept as is when absolute, else appended to
/// `cwd` with a single separating `/`.
pub open spec fn spec_join_path(cwd: Seq<char>, name: Seq<char>) -> Seq<char> {
    if name.len() > 0 && name[0] == '/' {
        name
    } else if cwd.len() > 0 && cwd[cwd.len() - 1] == '/' {
        cwd + name
    } else {
        cwd + seq!['/'] + name
    }
}

pub fn join_path(cwd: &str, name: &str) -> (r: String)
    ensures
        r@ == spec_join_path(cwd@, name@),
{
    let nn = name.unicode_len();
    let nc = cwd.unicode_len();
    if nn > 0 && name.get_char(0) == '/' {
        name.to_owned()
    } else if nc > 0 && cwd.get_char(nc - 1) == '/' {
        concat_str(cwd, name)
    } else {
        proof {
            reveal_strlit("/");
            assert("/"@ =~= seq!['/']);
        }
        let slashed = concat_str(cwd, "/");
        slashed.concat(name)
    }
}

} // verus!
