//! The declarative argument-classification engine: an ordered table of
//! argument specifications, a matcher that classifies one token (pulling a
//! second one for a separated value), and the normalizer that canonicalizes
//! how a flag's value is spelled.

use vstd::prelude::*;
use crate::strutil::{push_char, seq_views, starts_with, str_eq, str_starts_with};

verus! {

/// Semantic tag attached to a recognized flag; it alone decides how the
/// classifier treats the argument.
#[derive(Clone, Copy, Debug, PartialEq, Eq, Structural)]
pub enum ArgData {
    DoCompilation,
    Output,
    PassThrough,
    PreprocessorArgumentFlag,
    PreprocessorArgument,
    PreprocessorArgumentPath,
    TooHardFlag,
    TooHard,
}

/// How a flag's value is attached. In a table entry, `Separated` and
/// `Concatenated` are fixed spellings while `CanBeSeparated` admits both; on
/// a classified argument, `CanBeSeparated` / `CanBeConcatenated` record which
/// spelling of a flexible flag was actually observed.
#[derive(Clone, Copy, Debug, PartialEq, Eq)]
pub enum ArgDisposition {
    Separated,
    Concatenated(Option<char>),
    CanBeSeparated(Option<char>),
    CanBeConcatenated(Option<char>),
}

/// One table entry: a flag taking no value, or one taking a value with the
/// given attachment style.
#[derive(Clone, Copy, Debug)]
pub enum ArgInfo {
    Flag(&'static str, ArgData),
    TakeArg(&'static str, ArgDisposition, ArgData),
}

pub enum SpecArgInfo {
    Flag(Seq<char>, ArgData),
    TakeArg(Seq<char>, ArgDisposition, ArgData),
}

impl View for ArgInfo {
    type V = SpecArgInfo;

    open spec fn view(&self) -> SpecArgInfo {
        match self {
            ArgInfo::Flag(f, d) => SpecArgInfo::Flag(f@, *d),
            ArgInfo::TakeArg(f, disp, d) => SpecArgInfo::TakeArg(f@, *disp, *d),
        }
    }
}

pub open spec fn table_views(t: Seq<ArgInfo>) -> Seq<SpecArgInfo> {
    t.map_values(|a: ArgInfo| a@)
}

/// One classified argument: a bare positional token, an unrecognized flag
/// (passed through), a flag without a value, or a flag with a value and the
/// observed attachment style.
#[derive(Clone, Debug, PartialEq, Eq)]
pub enum Argument {
    Raw(String),
    UnknownFlag(String),
    Flag(String, ArgData),
    WithValue(String, String, ArgData, ArgDisposition),
}

pub enum SpecArgument {
    Raw(Seq<char>),
    UnknownFlag(Seq<char>),
    Flag(Seq<char>, ArgData),
    WithValue(Seq<char>, Seq<char>, ArgData, ArgDisposition),
}

impl View for Argument {
    type V = SpecArgument;

    open spec fn view(&self) -> SpecArgument {
        match self {
            Argument::Raw(t) => SpecArgument::Raw(t@),
            Argument::UnknownFlag(t) => SpecArgument::UnknownFlag(t@),
            Argument::Flag(f, d) => SpecArgument::Flag(f@, *d),
            Argument::WithValue(f, v, d, disp) => SpecArgument::WithValue(f@, v@, *d, *disp),
        }
    }
}

// ---------------------------------------------------------------------------
// Matching
// ---------------------------------------------------------------------------

/// Whether a table entry claims this token on its own: exact equality for a
/// flag or a fixed separate value, a prefix for a concatenatable value, and
/// the declared separator right after the flag text for a separator style.
pub open spec fn spec_info_matches(tok: Seq<char>, info: SpecArgInfo) -> bool {
    match info {
        SpecArgInfo::Flag(f, _) => tok == f,
        SpecArgInfo::TakeArg(f, disp, _) => match disp {
            ArgDisposition::Separated => tok == f,
            ArgDisposition::Concatenated(sep) => match sep {
                None => starts_with(tok, f),
                Some(c) => tok.len() > f.len() && starts_with(tok, f) && tok[f.len() as int]
                    == c,
            },
            ArgDisposition::CanBeSeparated(_) => starts_with(tok, f),
            ArgDisposition::CanBeConcatenated(_) => starts_with(tok, f),
        },
    }
}

/// First table entry that claims the token, in declaration order.
pub open spec fn spec_find(table: Seq<SpecArgInfo>, tok: Seq<char>) -> Option<SpecArgInfo>
    decreases table.len(),
{
    if table.len() == 0 {
        None
    } else if spec_info_matches(tok, table[0]) {
        Some(table[0])
    } else {
        spec_find(table.skip(1), tok)
    }
}

pub proof fn lemma_spec_find_matches(table: Seq<SpecArgInfo>, tok: Seq<char>)
    ensures
        match spec_find(table, tok) {
            Some(info) => spec_info_matches(tok, info),
            None => true,
        },
    decreases table.len(),
{
    if table.len() == 0 {
    } else if spec_info_matches(tok, table[0]) {
    } else {
        lemma_spec_find_matches(table.skip(1), tok);
    }
}

/// Result of classifying the front of the token stream: an argument together
/// with how many tokens it consumed, or the flag whose separate value was
/// missing at the end of the stream.
pub enum SpecMatch {
    Got(SpecArgument, int),
    NeedValue(Seq<char>),
}

/// Classify the first token, consuming the second as well when the matched
/// entry takes its value as a separate token. A token matching no entry
/// becomes an unrecognized flag when it is flag-marked (leading `-`), else a
/// bare positional argument.
pub open spec fn spec_match_first(tokens: Seq<Seq<char>>, table: Seq<SpecArgInfo>) -> SpecMatch
    recommends
        tokens.len() > 0,
{
    let tok = tokens[0];
    match spec_find(table, tok) {
        None => if tok.len() > 0 && tok[0] == '-' {
            SpecMatch::Got(SpecArgument::UnknownFlag(tok), 1)
        } else {
            SpecMatch::Got(SpecArgument::Raw(tok), 1)
        },
        Some(info) => match info {
            SpecArgInfo::Flag(f, d) => SpecMatch::Got(SpecArgument::Flag(f, d), 1),
            SpecArgInfo::TakeArg(f, disp, d) => match disp {
                ArgDisposition::Separated => if tokens.len() >= 2 {
                    SpecMatch::Got(
                        SpecArgument::WithValue(f, tokens[1], d, ArgDisposition::Separated),
                        2,
                    )
                } else {
                    SpecMatch::NeedValue(f)
                },
                ArgDisposition::Concatenated(sep) => match sep {
                    None => SpecMatch::Got(
                        SpecArgument::WithValue(
                            f,
                            tok.skip(f.len() as int),
                            d,
                            ArgDisposition::Concatenated(None),
                        ),
                        1,
                    ),
                    Some(c) => SpecMatch::Got(
                        SpecArgument::WithValue(
                            f,
                            tok.skip(f.len() as int + 1),
                            d,
                            ArgDisposition::Concatenated(Some(c)),
                        ),
                        1,
                    ),
                },
                ArgDisposition::CanBeSeparated(sep) | ArgDisposition::CanBeConcatenated(sep) => {
                    if tok.len() == f.len() {
                        if tokens.len() >= 2 {
                            SpecMatch::Got(
                                SpecArgument::WithValue(
                                    f,
                                    tokens[1],
                                    d,
                                    ArgDisposition::CanBeSeparated(sep),
                                ),
                                2,
                            )
                        } else {
                            SpecMatch::NeedValue(f)
                        }
                    } else {
                        SpecMatch::Got(
                            SpecArgument::WithValue(
                                f,
                                tok.skip(f.len() as int),
                                d,
                                ArgDisposition::CanBeConcatenated(sep),
                            ),
                            1,
                        )
                    }
                },
            },
        },
    }
}

pub proof fn lemma_match_first_consumed(tokens: Seq<Seq<char>>, table: Seq<SpecArgInfo>)
    requires
        tokens.len() > 0,
    ensures
        match spec_match_first(tokens, table) {
            SpecMatch::Got(_, n) => 1 <= n <= tokens.len(),
            SpecMatch::NeedValue(_) => true,
        },
{
}

// ---------------------------------------------------------------------------
// Exec matching
// ---------------------------------------------------------------------------

pub fn info_matches(tok: &str, info: &ArgInfo) -> (b: bool)
    ensures
        b == spec_info_matches(tok@, info@),
{
    match info {
        ArgInfo::Flag(f, _) => str_eq(tok, f),
        ArgInfo::TakeArg(f, disp, _) => match disp {
            ArgDisposition::Separated => str_eq(tok, f),
            ArgDisposition::Concatenated(sep) => match sep {
                None => str_starts_with(tok, f),
                Some(c) => {
                    let fl = f.unicode_len();
                    tok.unicode_len() > fl && str_starts_with(tok, f) && tok.get_char(fl) == *c
                },
            },
            ArgDisposition::CanBeSeparated(_) => str_starts_with(tok, f),
            ArgDisposition::CanBeConcatenated(_) => str_starts_with(tok, f),
        },
    }
}

/// Index of the first table entry claiming `tok`, searched in declaration
/// order.
pub fn find_entry(table: &Vec<ArgInfo>, tok: &str) -> (r: Option<usize>)
    ensures
        match r {
            Some(i) => i < table@.len() && spec_find(table_views(table@), tok@) == Some(
                table@[i as int]@,
            ),
            None => spec_find(table_views(table@), tok@) is None,
        },
{
    let n = table.len();
    let mut i: usize = 0;
    proof {
        assert(table_views(table@).skip(0) =~= table_views(table@));
    }
    while i < n
        invariant
            n == table@.len(),
            0 <= i <= n,
            spec_find(table_views(table@), tok@) == spec_find(
                table_views(table@).skip(i as int),
                tok@,
            ),
        decreases n - i,
    {
        if info_matches(tok, &table[i]) {
            proof {
                assert(table_views(table@).skip(i as int)[0] == table@[i as int]@);
            }
            return Some(i);
        }
        proof {
            assert(table_views(table@).skip(i as int)[0] == table@[i as int]@);
            assert(table_views(table@).skip(i as int).skip(1) =~= table_views(table@).skip(i + 1));
        }
        i = i + 1;
    }
    None
}

// ---------------------------------------------------------------------------
// Normalization
// ---------------------------------------------------------------------------

/// Canonical attachment for a flexible flag: a two-character flag text keeps
/// its value concatenated in one token, any longer flag takes it as a
/// separate token. Fixed spellings are already canonical.
pub open spec fn spec_canonicalize(a: SpecArgument) -> SpecArgument {
    match a {
        SpecArgument::WithValue(f, v, d, disp) => match disp {
            ArgDisposition::CanBeSeparated(sep) | ArgDisposition::CanBeConcatenated(sep) => if f.len()
                == 2 {
                SpecArgument::WithValue(f, v, d, ArgDisposition::Concatenated(sep))
            } else {
                SpecArgument::WithValue(f, v, d, ArgDisposition::Separated)
            },
            _ => a,
        },
        _ => a,
    }
}

/// The tokens an argument spells out, observing its attachment style.
pub open spec fn spec_render(a: SpecArgument) -> Seq<Seq<char>> {
    match a {
        SpecArgument::Raw(t) => seq![t],
        SpecArgument::UnknownFlag(t) => seq![t],
        SpecArgument::Flag(f, _) => seq![f],
        SpecArgument::WithValue(f, v, _, disp) => match disp {
            ArgDisposition::Separated => seq![f, v],
            ArgDisposition::CanBeSeparated(_) => seq![f, v],
            ArgDisposition::Concatenated(sep) | ArgDisposition::CanBeConcatenated(sep) => match sep {
                None => seq![f + v],
                Some(c) => seq![f + seq![c] + v],
            },
        },
    }
}

/// Canonical spelling of an argument: render after canonicalizing.
pub open spec fn spec_normalize(a: SpecArgument) -> Seq<Seq<char>> {
    spec_render(spec_canonicalize(a))
}

pub fn normalize_tokens(a: &Argument) -> (out: Vec<String>)
    ensures
        seq_views(out@) == spec_normalize(a@),
{
    let mut out: Vec<String> = Vec::new();
    match a {
        Argument::Raw(t) => { out.push(t.clone()); },
        Argument::UnknownFlag(t) => { out.push(t.clone()); },
        Argument::Flag(f, _) => { out.push(f.clone()); },
        Argument::WithValue(f, v, _, disp) => {
            let two = f.unicode_len() == 2;
            let attached: bool = match disp {
                ArgDisposition::Separated => false,
                ArgDisposition::Concatenated(_) => true,
                ArgDisposition::CanBeSeparated(_) => two,
                ArgDisposition::CanBeConcatenated(_) => two,
            };
            if attached {
                let sep: Option<char> = match disp {
                    ArgDisposition::Separated => None,
                    ArgDisposition::Concatenated(s) => *s,
                    ArgDisposition::CanBeSeparated(s) => *s,
                    ArgDisposition::CanBeConcatenated(s) => *s,
                };
                let mut tok = String::from_str(f.as_str());
                match sep {
                    Some(c) => { push_char(&mut tok, c); },
                    None => {},
                }
                let tok = tok.concat(v.as_str());
                proof {
                    if sep is Some {
                        assert(f@.push(sep.unwrap()) =~= f@ + seq![sep.unwrap()]);
                    }
                }
                out.push(tok);
            } else {
                out.push(f.clone());
                out.push(v.clone());
            }
        },
    }
    proof {
        assert(seq_views(out@) =~= spec_normalize(a@));
    }
    out
}

} // verus!
