//! The Diab compiler frontend: its argument table, the invocation
//! classifier deciding cacheability, and the preprocess / compile command
//! generators.

use vstd::prelude::*;
use crate::args::{
    ArgData, ArgDisposition, ArgInfo, Argument, SpecArgInfo, SpecArgument, SpecMatch,
    lemma_match_first_consumed, lemma_spec_find_matches, find_entry, normalize_tokens,
    spec_match_first, spec_normalize, table_views,
};
use crate::expand::{
    EXPANSION_BUDGET, ExpandAtArgs, FileStore, SpecExpandState, lemma_expand_all_next,
    spec_expand_all,
};
use crate::strutil::{
    clone_pairs, clone_strings,
    lemma_seq_views_add, seq_views, spec_extension, spec_with_extension, str_eq, with_extension,
    file_extension,
};

verus! {

// ---------------------------------------------------------------------------
// Source languages
// ---------------------------------------------------------------------------

/// Source language, detected from the input file's extension.
#[derive(Clone, Copy, Debug, PartialEq, Eq, Structural)]
pub enum Language {
    C,
    Cxx,
    ObjectiveC,
    ObjectiveCxx,
}

/// The fixed extension table: an unmapped extension is a classification
/// failure.
pub open spec fn spec_language_of(p: Seq<char>) -> Option<Language> {
    match spec_extension(p) {
        None => None,
        Some(e) => if e == "c"@ {
            Some(Language::C)
        } else if e == "C"@ || e == "cc"@ || e == "cpp"@ || e == "cxx"@ {
            Some(Language::Cxx)
        } else if e == "m"@ {
            Some(Language::ObjectiveC)
        } else if e == "M"@ || e == "mm"@ {
            Some(Language::ObjectiveCxx)
        } else {
            None
        },
    }
}

impl Language {
    pub fn from_file_name(path: &str) -> (r: Option<Language>)
        ensures
            r == spec_language_of(path@),
    {
        match file_extension(path) {
            None => None,
            Some(e) => {
                let e = e.as_str();
                if str_eq(e, "c") {
                    Some(Language::C)
                } else if str_eq(e, "C") || str_eq(e, "cc") || str_eq(e, "cpp") || str_eq(
                    e,
                    "cxx",
                ) {
                    Some(Language::Cxx)
                } else if str_eq(e, "m") {
                    Some(Language::ObjectiveC)
                } else if str_eq(e, "M") || str_eq(e, "mm") {
                    Some(Language::ObjectiveCxx)
                } else {
                    None
                }
            },
        }
    }
}

// ---------------------------------------------------------------------------
// Parsed invocations and verdicts
// ---------------------------------------------------------------------------

pub open spec fn pair_views(v: Seq<(String, String)>) -> Seq<(Seq<char>, Seq<char>)> {
    v.map_values(|p: (String, String)| (p.0@, p.1@))
}

/// First value stored under a key, when any.
pub open spec fn spec_lookup(m: Seq<(Seq<char>, Seq<char>)>, k: Seq<char>) -> Option<Seq<char>>
    decreases m.len(),
{
    if m.len() == 0 {
        None
    } else if m[0].0 == k {
        Some(m[0].1)
    } else {
        spec_lookup(m.skip(1), k)
    }
}

pub struct SpecParsedArguments {
    pub input: Seq<char>,
    pub language: Language,
    pub depfile: Option<Seq<char>>,
    pub outputs: Seq<(Seq<char>, Seq<char>)>,
    pub preprocessor_args: Seq<Seq<char>>,
    pub common_args: Seq<Seq<char>>,
    pub msvc_show_includes: bool,
}

/// A classified compilation: input, language, outputs keyed by kind (always
/// one `obj` entry), and the two normalized argument buckets.
#[derive(Clone, Debug, PartialEq, Eq)]
pub struct ParsedArguments {
    pub input: String,
    pub language: Language,
    pub depfile: Option<String>,
    pub outputs: Vec<(String, String)>,
    pub preprocessor_args: Vec<String>,
    pub common_args: Vec<String>,
    pub msvc_show_includes: bool,
}

impl View for ParsedArguments {
    type V = SpecParsedArguments;

    open spec fn view(&self) -> SpecParsedArguments {
        SpecParsedArguments {
            input: self.input@,
            language: self.language,
            depfile: match self.depfile {
                Some(ref d) => Some(d@),
                None => None,
            },
            outputs: pair_views(self.outputs@),
            preprocessor_args: seq_views(self.preprocessor_args@),
            common_args: seq_views(self.common_args@),
            msvc_show_includes: self.msvc_show_includes,
        }
    }
}

pub enum SpecVerdict {
    Okay(SpecParsedArguments),
    NotCompilation,
    CannotCache(Seq<char>, Option<Seq<char>>),
}

/// The cacheability outcome: a compilation ready for caching, something
/// other than a compilation, or a refusal carrying its reason (with an
/// optional detail).
#[derive(Clone, Debug, PartialEq, Eq)]
pub enum CompilerArguments {
    Okay(ParsedArguments),
    NotCompilation,
    CannotCache(String, Option<String>),
}

impl View for CompilerArguments {
    type V = SpecVerdict;

    open spec fn view(&self) -> SpecVerdict {
        match self {
            CompilerArguments::Okay(p) => SpecVerdict::Okay(p@),
            CompilerArguments::NotCompilation => SpecVerdict::NotCompilation,
            CompilerArguments::CannotCache(r, d) => SpecVerdict::CannotCache(
                r@,
                match d {
                    Some(s) => Some(s@),
                    None => None,
                },
            ),
        }
    }
}

// ---------------------------------------------------------------------------
// The Diab argument table
// ---------------------------------------------------------------------------

pub open spec fn spec_diab_args() -> Seq<SpecArgInfo> {
    seq![
        SpecArgInfo::Flag("-"@, ArgData::TooHardFlag),
        SpecArgInfo::Flag("-##"@, ArgData::TooHardFlag),
        SpecArgInfo::Flag("-###"@, ArgData::TooHardFlag),
        SpecArgInfo::TakeArg("-@"@, ArgDisposition::Concatenated(None), ArgData::TooHard),
        SpecArgInfo::TakeArg(
            "-D"@,
            ArgDisposition::CanBeSeparated(None),
            ArgData::PreprocessorArgument,
        ),
        SpecArgInfo::Flag("-E"@, ArgData::TooHardFlag),
        SpecArgInfo::TakeArg(
            "-I"@,
            ArgDisposition::CanBeSeparated(None),
            ArgData::PreprocessorArgumentPath,
        ),
        SpecArgInfo::TakeArg("-L"@, ArgDisposition::Separated, ArgData::PassThrough),
        SpecArgInfo::Flag("-P"@, ArgData::TooHardFlag),
        SpecArgInfo::Flag("-S"@, ArgData::TooHardFlag),
        SpecArgInfo::TakeArg(
            "-U"@,
            ArgDisposition::CanBeSeparated(None),
            ArgData::PreprocessorArgument,
        ),
        SpecArgInfo::Flag("-V"@, ArgData::TooHardFlag),
        SpecArgInfo::Flag("-VV"@, ArgData::TooHardFlag),
        SpecArgInfo::TakeArg("-W"@, ArgDisposition::Separated, ArgData::PassThrough),
        SpecArgInfo::Flag("-Xmake-dependency"@, ArgData::PreprocessorArgumentFlag),
        SpecArgInfo::Flag(
            "-Xmake-dependency-canonicalize-path-off"@,
            ArgData::PreprocessorArgumentFlag,
        ),
        SpecArgInfo::TakeArg(
            "-Xmake-dependency-savefile"@,
            ArgDisposition::Concatenated(Some('=')),
            ArgData::PreprocessorArgumentPath,
        ),
        SpecArgInfo::TakeArg(
            "-Xmake-dependency-target"@,
            ArgDisposition::Concatenated(Some('=')),
            ArgData::PreprocessorArgument,
        ),
        SpecArgInfo::Flag("-c"@, ArgData::DoCompilation),
        SpecArgInfo::TakeArg(
            "-include"@,
            ArgDisposition::CanBeSeparated(None),
            ArgData::PreprocessorArgumentPath,
        ),
        SpecArgInfo::TakeArg("-l"@, ArgDisposition::Separated, ArgData::PassThrough),
        SpecArgInfo::TakeArg("-o"@, ArgDisposition::Separated, ArgData::Output),
        SpecArgInfo::TakeArg("-t"@, ArgDisposition::Separated, ArgData::PassThrough),
    ]
}

/// The argument table of the Diab family, in declaration order.
pub fn diab_args() -> (t: Vec<ArgInfo>)
    ensures
        table_views(t@) == spec_diab_args(),
{
    let t: Vec<ArgInfo> = vec![
        ArgInfo::Flag("-", ArgData::TooHardFlag),
        ArgInfo::Flag("-##", ArgData::TooHardFlag),
        ArgInfo::Flag("-###", ArgData::TooHardFlag),
        ArgInfo::TakeArg("-@", ArgDisposition::Concatenated(None), ArgData::TooHard),
        ArgInfo::TakeArg("-D", ArgDisposition::CanBeSeparated(None), ArgData::PreprocessorArgument),
        ArgInfo::Flag("-E", ArgData::TooHardFlag),
        ArgInfo::TakeArg(
            "-I",
            ArgDisposition::CanBeSeparated(None),
            ArgData::PreprocessorArgumentPath,
        ),
        ArgInfo::TakeArg("-L", ArgDisposition::Separated, ArgData::PassThrough),
        ArgInfo::Flag("-P", ArgData::TooHardFlag),
        ArgInfo::Flag("-S", ArgData::TooHardFlag),
        ArgInfo::TakeArg("-U", ArgDisposition::CanBeSeparated(None), ArgData::PreprocessorArgument),
        ArgInfo::Flag("-V", ArgData::TooHardFlag),
        ArgInfo::Flag("-VV", ArgData::TooHardFlag),
        ArgInfo::TakeArg("-W", ArgDisposition::Separated, ArgData::PassThrough),
        ArgInfo::Flag("-Xmake-dependency", ArgData::PreprocessorArgumentFlag),
        ArgInfo::Flag("-Xmake-dependency-canonicalize-path-off", ArgData::PreprocessorArgumentFlag),
        ArgInfo::TakeArg(
            "-Xmake-dependency-savefile",
            ArgDisposition::Concatenated(Some('=')),
            ArgData::PreprocessorArgumentPath,
        ),
        ArgInfo::TakeArg(
            "-Xmake-dependency-target",
            ArgDisposition::Concatenated(Some('=')),
            ArgData::PreprocessorArgument,
        ),
        ArgInfo::Flag("-c", ArgData::DoCompilation),
        ArgInfo::TakeArg(
            "-include",
            ArgDisposition::CanBeSeparated(None),
            ArgData::PreprocessorArgumentPath,
        ),
        ArgInfo::TakeArg("-l", ArgDisposition::Separated, ArgData::PassThrough),
        ArgInfo::TakeArg("-o", ArgDisposition::Separated, ArgData::Output),
        ArgInfo::TakeArg("-t", ArgDisposition::Separated, ArgData::PassThrough),
    ];
    proof {
        assert(table_views(t@) =~= spec_diab_args());
    }
    t
}

// ---------------------------------------------------------------------------
// The classifier
// ---------------------------------------------------------------------------

/// Classifier accumulator: buckets, the compile flag, the input candidate
/// and whether a second one was seen, and the recorded output.
pub struct SpecState {
    pub common_args: Seq<Seq<char>>,
    pub compilation: bool,
    pub input_arg: Option<Seq<char>>,
    pub multiple_input: bool,
    pub output_arg: Option<Seq<char>>,
    pub preprocessor_args: Seq<Seq<char>>,
}

pub open spec fn spec_init_state() -> SpecState {
    SpecState {
        common_args: Seq::empty(),
        compilation: false,
        input_arg: None,
        multiple_input: false,
        output_arg: None,
        preprocessor_args: Seq::empty(),
    }
}

/// An attached value starting `@`, under any attachment style: an
/// indirection marker that survived expansion unexpanded — for instance one
/// written as a single concatenated token, which the expander does not
/// recognize.
pub open spec fn spec_at_value_guard(a: SpecArgument) -> bool {
    match a {
        SpecArgument::WithValue(_, v, _, _) => v.len() > 0 && v[0] == '@',
        _ => false,
    }
}

pub enum SpecStep {
    Abort(SpecVerdict),
    Cont(SpecState),
}

/// One classifier step: the `@`-value guard, then dispatch on the semantic
/// tag alone — abort for a too-hard tag, record compile flag or output,
/// append the normalized spelling to the bucket the tag selects, or track
/// the bare token as input candidate.
pub open spec fn spec_step(a: SpecArgument, st: SpecState) -> SpecStep {
    if spec_at_value_guard(a) {
        SpecStep::Abort(SpecVerdict::CannotCache("-@"@, None))
    } else {
        match a {
            SpecArgument::Raw(t) => SpecStep::Cont(
                SpecState {
                    multiple_input: st.multiple_input || st.input_arg is Some,
                    input_arg: Some(t),
                    ..st
                },
            ),
            SpecArgument::UnknownFlag(_) => SpecStep::Cont(
                SpecState { common_args: st.common_args + spec_normalize(a), ..st },
            ),
            SpecArgument::Flag(f, d) => match d {
                ArgData::TooHardFlag | ArgData::TooHard => SpecStep::Abort(
                    SpecVerdict::CannotCache(f, None),
                ),
                ArgData::DoCompilation => SpecStep::Cont(SpecState { compilation: true, ..st }),
                ArgData::Output => SpecStep::Cont(st),
                ArgData::PreprocessorArgumentFlag | ArgData::PreprocessorArgument
                    | ArgData::PreprocessorArgumentPath => SpecStep::Cont(
                    SpecState {
                        preprocessor_args: st.preprocessor_args + spec_normalize(a),
                        ..st
                    },
                ),
                ArgData::PassThrough => SpecStep::Cont(
                    SpecState { common_args: st.common_args + spec_normalize(a), ..st },
                ),
            },
            SpecArgument::WithValue(f, v, d, _) => match d {
                ArgData::TooHardFlag | ArgData::TooHard => SpecStep::Abort(
                    SpecVerdict::CannotCache(f, None),
                ),
                ArgData::DoCompilation => SpecStep::Cont(SpecState { compilation: true, ..st }),
                ArgData::Output => SpecStep::Cont(SpecState { output_arg: Some(v), ..st }),
                ArgData::PreprocessorArgumentFlag | ArgData::PreprocessorArgument
                    | ArgData::PreprocessorArgumentPath => SpecStep::Cont(
                    SpecState {
                        preprocessor_args: st.preprocessor_args + spec_normalize(a),
                        ..st
                    },
                ),
                ArgData::PassThrough => SpecStep::Cont(
                    SpecState { common_args: st.common_args + spec_normalize(a), ..st },
                ),
            },
        }
    }
}

/// The verdict once the whole stream is consumed: only a compilation with
/// exactly one input of known language is cacheable; the output defaults to
/// the input with its extension replaced by `o`.
pub open spec fn spec_finalize(st: SpecState) -> SpecVerdict {
    if !st.compilation {
        SpecVerdict::NotCompilation
    } else if st.multiple_input {
        SpecVerdict::CannotCache("multiple input files"@, None)
    } else {
        match st.input_arg {
            None => SpecVerdict::CannotCache("no input file"@, None),
            Some(input) => match spec_language_of(input) {
                None => SpecVerdict::CannotCache("unknown source language"@, None),
                Some(language) => {
                    let output = match st.output_arg {
                        Some(o) => o,
                        None => spec_with_extension(input, "o"@),
                    };
                    SpecVerdict::Okay(
                        SpecParsedArguments {
                            input,
                            language,
                            depfile: None,
                            outputs: seq![("obj"@, output)],
                            preprocessor_args: st.preprocessor_args,
                            common_args: st.common_args,
                            msvc_show_includes: false,
                        },
                    )
                },
            },
        }
    }
}

pub enum SpecRunEnd {
    Finished(SpecVerdict),
    Stopped(SpecVerdict),
}

pub open spec fn spec_outcome(e: SpecRunEnd) -> SpecVerdict {
    match e {
        SpecRunEnd::Finished(v) => v,
        SpecRunEnd::Stopped(v) => v,
    }
}

/// Run the classifier over a token stream: classify the front argument,
/// dispatch it, and continue — stopping early on an abort, or on a flag
/// whose separate value is missing.
pub open spec fn spec_run(
    tokens: Seq<Seq<char>>,
    table: Seq<SpecArgInfo>,
    st: SpecState,
) -> SpecRunEnd
    decreases tokens.len(),
    via spec_run_decreases
{
    if tokens.len() == 0 {
        SpecRunEnd::Finished(spec_finalize(st))
    } else {
        match spec_match_first(tokens, table) {
            SpecMatch::NeedValue(f) => SpecRunEnd::Stopped(
                SpecVerdict::CannotCache("argument parse"@, Some(f)),
            ),
            SpecMatch::Got(a, n) => match spec_step(a, st) {
                SpecStep::Abort(v) => SpecRunEnd::Stopped(v),
                SpecStep::Cont(st2) => spec_run(tokens.skip(n), table, st2),
            },
        }
    }
}

#[via_fn]
proof fn spec_run_decreases(tokens: Seq<Seq<char>>, table: Seq<SpecArgInfo>, st: SpecState) {
    if tokens.len() > 0 {
        lemma_match_first_consumed(tokens, table);
    }
}

/// The verdict of the whole pipeline downstream of expansion.
pub open spec fn spec_classify(tokens: Seq<Seq<char>>, table: Seq<SpecArgInfo>) -> SpecVerdict {
    spec_outcome(spec_run(tokens, table, spec_init_state()))
}

// ---------------------------------------------------------------------------
// Executable classifier
// ---------------------------------------------------------------------------

struct ParseState {
    common_args: Vec<String>,
    compilation: bool,
    input_arg: Option<String>,
    multiple_input: bool,
    output_arg: Option<String>,
    preprocessor_args: Vec<String>,
}

impl View for ParseState {
    type V = SpecState;

    closed spec fn view(&self) -> SpecState {
        SpecState {
            common_args: seq_views(self.common_args@),
            compilation: self.compilation,
            input_arg: match self.input_arg {
                Some(ref i) => Some(i@),
                None => None,
            },
            multiple_input: self.multiple_input,
            output_arg: match self.output_arg {
                Some(ref o) => Some(o@),
                None => None,
            },
            preprocessor_args: seq_views(self.preprocessor_args@),
        }
    }
}

impl ParseState {
    fn new() -> (r: ParseState)
        ensures
            r@ == spec_init_state(),
    {
        let r = ParseState {
            common_args: Vec::new(),
            compilation: false,
            input_arg: None,
            multiple_input: false,
            output_arg: None,
            preprocessor_args: Vec::new(),
        };
        proof {
            assert(r@.common_args =~= spec_init_state().common_args);
            assert(r@.preprocessor_args =~= spec_init_state().preprocessor_args);
        }
        r
    }
}

fn classify_step(a: &Argument, st: &mut ParseState) -> (r: Option<CompilerArguments>)
    ensures
        match r {
            Some(v) => spec_step(a@, old(st)@) == SpecStep::Abort(v@),
            None => spec_step(a@, old(st)@) == SpecStep::Cont(final(st)@),
        },
{
    match a {
        Argument::WithValue(_, v, _, _) => {
            if v.as_str().unicode_len() > 0 && v.as_str().get_char(0) == '@' {
                return Some(
                    CompilerArguments::CannotCache(String::from_str("-@"), None),
                );
            }
        },
        _ => {},
    }
    match a {
        Argument::Raw(t) => {
            if st.input_arg.is_some() {
                st.multiple_input = true;
            }
            st.input_arg = Some(t.clone());
            None
        },
        Argument::UnknownFlag(t) => {
            let mut ts = normalize_tokens(a);
            proof {
                lemma_seq_views_add(st.common_args@, ts@);
            }
            st.common_args.append(&mut ts);
            None
        },
        Argument::Flag(f, d) => match d {
            ArgData::TooHardFlag | ArgData::TooHard => Some(
                CompilerArguments::CannotCache(f.clone(), None),
            ),
            ArgData::DoCompilation => {
                st.compilation = true;
                None
            },
            ArgData::Output => None,
            ArgData::PreprocessorArgumentFlag | ArgData::PreprocessorArgument
                | ArgData::PreprocessorArgumentPath => {
                let mut ts = normalize_tokens(a);
                proof {
                    lemma_seq_views_add(st.preprocessor_args@, ts@);
                }
                st.preprocessor_args.append(&mut ts);
                None
            },
            ArgData::PassThrough => {
                let mut ts = normalize_tokens(a);
                proof {
                    lemma_seq_views_add(st.common_args@, ts@);
                }
                st.common_args.append(&mut ts);
                None
            },
        },
        Argument::WithValue(f, v, d, _) => match d {
            ArgData::TooHardFlag | ArgData::TooHard => Some(
                CompilerArguments::CannotCache(f.clone(), None),
            ),
            ArgData::DoCompilation => {
                st.compilation = true;
                None
            },
            ArgData::Output => {
                st.output_arg = Some(v.clone());
                None
            },
            ArgData::PreprocessorArgumentFlag | ArgData::PreprocessorArgument
                | ArgData::PreprocessorArgumentPath => {
                let mut ts = normalize_tokens(a);
                proof {
                    lemma_seq_views_add(st.preprocessor_args@, ts@);
                }
                st.preprocessor_args.append(&mut ts);
                None
            },
            ArgData::PassThrough => {
                let mut ts = normalize_tokens(a);
                proof {
                    lemma_seq_views_add(st.common_args@, ts@);
                }
                st.common_args.append(&mut ts);
                None
            },
        },
    }
}

fn finalize_state(st: ParseState) -> (r: CompilerArguments)
    ensures
        r@ == spec_finalize(st@),
{
    if !st.compilation {
        return CompilerArguments::NotCompilation;
    }
    if st.multiple_input {
        return CompilerArguments::CannotCache(String::from_str("multiple input files"), None);
    }
    let input = match st.input_arg {
        Some(i) => i,
        None => {
            return CompilerArguments::CannotCache(String::from_str("no input file"), None);
        },
    };
    let language = match Language::from_file_name(input.as_str()) {
        Some(l) => l,
        None => {
            return CompilerArguments::CannotCache(
                String::from_str("unknown source language"),
                None,
            );
        },
    };
    let output = match st.output_arg {
        Some(o) => o,
        None => with_extension(input.as_str(), "o"),
    };
    let mut outputs: Vec<(String, String)> = Vec::new();
    outputs.push((String::from_str("obj"), output));
    let r = CompilerArguments::Okay(
        ParsedArguments {
            input,
            language,
            depfile: None,
            outputs,
            preprocessor_args: st.preprocessor_args,
            common_args: st.common_args,
            msvc_show_includes: false,
        },
    );
    proof {
        match r@ {
            SpecVerdict::Okay(p) => {
                assert(p.outputs =~= spec_finalize(st@)->Okay_0.outputs);
            },
            _ => {},
        }
    }
    r
}

// ---------------------------------------------------------------------------
// parse_arguments
// ---------------------------------------------------------------------------

/// Classify a raw command line against an argument table, expanding `-@name`
/// indirections from the given file snapshot: the returned verdict is
/// exactly what the declarative classifier decides on the expanded token
/// stream.
pub fn parse_arguments(
    arguments: &Vec<String>,
    cwd: &str,
    arg_info: &Vec<ArgInfo>,
    fs: &FileStore,
) -> (r: CompilerArguments)
    ensures
        r@ == spec_classify(
            spec_expand_all(
                SpecExpandState {
                    cwd: cwd@,
                    forced: None,
                    pending: seq_views(arguments@),
                    budget: EXPANSION_BUDGET as nat,
                },
                fs.files@,
            ),
            table_views(arg_info@),
        ),
{
    let mut it = ExpandAtArgs::new(cwd, arguments);
    let mut st = ParseState::new();
    let ghost table = table_views(arg_info@);
    let ghost full = spec_expand_all(it@, fs.files@);
    loop
        invariant
            table == table_views(arg_info@),
            full == spec_expand_all(
                SpecExpandState {
                    cwd: cwd@,
                    forced: None,
                    pending: seq_views(arguments@),
                    budget: EXPANSION_BUDGET as nat,
                },
                fs.files@,
            ),
            spec_run(spec_expand_all(it@, fs.files@), table, st@) == spec_run(
                full,
                table,
                spec_init_state(),
            ),
        decreases spec_expand_all(it@, fs.files@).len(),
    {
        let ghost pre_exp = it@;
        let ghost pre_st = st@;
        let ghost ex_pre = spec_expand_all(pre_exp, fs.files@);
        let tok_opt = it.next(fs);
        proof {
            lemma_expand_all_next(pre_exp, fs.files@);
        }
        let tok = match tok_opt {
            None => {
                proof {
                    assert(ex_pre =~= Seq::<Seq<char>>::empty());
                }
                return finalize_state(st);
            },
            Some(t) => t,
        };
        let ghost ex1 = spec_expand_all(it@, fs.files@);
        proof {
            assert(ex_pre == seq![tok@] + ex1);
            assert(ex_pre[0] == tok@);
            assert(ex_pre.len() > 0);
        }
        // Classify the front token, pulling a second one when the matched
        // entry takes its value as a separate token.
        let entry = find_entry(arg_info, tok.as_str());
        proof {
            lemma_spec_find_matches(table, tok@);
        }
        let arg: Argument;
        let ghost mut consumed: int = 1;
        match entry {
            None => {
                let flagish = tok.as_str().unicode_len() > 0 && tok.as_str().get_char(0) == '-';
                arg = if flagish {
                    Argument::UnknownFlag(tok)
                } else {
                    Argument::Raw(tok)
                };
            },
            Some(i) => {
                let info = &arg_info[i];
                match info {
                    ArgInfo::Flag(f, d) => {
                        arg = Argument::Flag(String::from_str(f), *d);
                    },
                    ArgInfo::TakeArg(f, disp, d) => {
                        let fl = f.unicode_len();
                        let tl = tok.as_str().unicode_len();
                        let take_next: bool = match disp {
                            ArgDisposition::Separated => true,
                            ArgDisposition::Concatenated(_) => false,
                            ArgDisposition::CanBeSeparated(_) => tl == fl,
                            ArgDisposition::CanBeConcatenated(_) => tl == fl,
                        };
                        if take_next {
                            let ghost mid_exp = it@;
                            let vopt = it.next(fs);
                            proof {
                                lemma_expand_all_next(mid_exp, fs.files@);
                            }
                            match vopt {
                                None => {
                                    proof {
                                        assert(ex1 =~= Seq::<Seq<char>>::empty());
                                        assert(ex_pre =~= seq![tok@]);
                                        assert(spec_match_first(ex_pre, table)
                                            == SpecMatch::NeedValue(f@));
                                    }
                                    return CompilerArguments::CannotCache(
                                        String::from_str("argument parse"),
                                        Some(String::from_str(f)),
                                    );
                                },
                                Some(v) => {
                                    let ghost ex2 = spec_expand_all(it@, fs.files@);
                                    proof {
                                        assert(ex1 == seq![v@] + ex2);
                                        assert(ex_pre =~= seq![tok@, v@] + ex2);
                                    }
                                    let ndisp: ArgDisposition = match disp {
                                        ArgDisposition::Separated => ArgDisposition::Separated,
                                        ArgDisposition::Concatenated(s) =>
                                            ArgDisposition::Concatenated(*s),
                                        ArgDisposition::CanBeSeparated(s) =>
                                            ArgDisposition::CanBeSeparated(*s),
                                        ArgDisposition::CanBeConcatenated(s) =>
                                            ArgDisposition::CanBeSeparated(*s),
                                    };
                                    arg = Argument::WithValue(String::from_str(f), v, *d, ndisp);
                                    proof {
                                        consumed = 2int;
                                    }
                                },
                            }
                        } else {
                            let start: usize = match disp {
                                ArgDisposition::Concatenated(s) => match s {
                                    Some(_) => fl + 1,
                                    None => fl,
                                },
                                _ => fl,
                            };
                            let val = tok.as_str().substring_char(start, tl).to_owned();
                            proof {
                                assert(val@ =~= tok@.skip(start as int));
                            }
                            let ndisp: ArgDisposition = match disp {
                                ArgDisposition::Separated => ArgDisposition::Separated,
                                ArgDisposition::Concatenated(s) => ArgDisposition::Concatenated(
                                    *s,
                                ),
                                ArgDisposition::CanBeSeparated(s) =>
                                    ArgDisposition::CanBeConcatenated(*s),
                                ArgDisposition::CanBeConcatenated(s) =>
                                    ArgDisposition::CanBeConcatenated(*s),
                            };
                            arg = Argument::WithValue(String::from_str(f), val, *d, ndisp);
                        }
                    },
                }
            },
        }
        proof {
            assert(spec_match_first(ex_pre, table) == SpecMatch::Got(arg@, consumed));
            assert(ex_pre.skip(consumed) =~= spec_expand_all(it@, fs.files@));
        }
        match classify_step(&arg, &mut st) {
            Some(v) => {
                proof {
                    assert(spec_run(ex_pre, table, pre_st) == SpecRunEnd::Stopped(v@));
                }
                return v;
            },
            None => {
                proof {
                    assert(spec_run(ex_pre, table, pre_st) == spec_run(
                        spec_expand_all(it@, fs.files@),
                        table,
                        st@,
                    ));
                }
            },
        }
    }
}

// ---------------------------------------------------------------------------
// Command generation
// ---------------------------------------------------------------------------

/// Whether a generated compilation may be cached.
#[derive(Clone, Copy, Debug, PartialEq, Eq, Structural)]
pub enum Cacheable {
    Yes,
    No,
}

pub struct SpecCompileCommand {
    pub executable: Seq<char>,
    pub arguments: Seq<Seq<char>>,
    pub env_vars: Seq<(Seq<char>, Seq<char>)>,
    pub cwd: Seq<char>,
}

/// A command ready to spawn: executable, ordered arguments, an explicit
/// environment, and a working directory.
#[derive(Clone, Debug, PartialEq, Eq)]
pub struct CompileCommand {
    pub executable: String,
    pub arguments: Vec<String>,
    pub env_vars: Vec<(String, String)>,
    pub cwd: String,
}

impl View for CompileCommand {
    type V = SpecCompileCommand;

    open spec fn view(&self) -> SpecCompileCommand {
        SpecCompileCommand {
            executable: self.executable@,
            arguments: seq_views(self.arguments@),
            env_vars: pair_views(self.env_vars@),
            cwd: self.cwd@,
        }
    }
}

/// The preprocess command: the fixed preprocess flag, the input, then the
/// preprocessor bucket and the common bucket.
pub open spec fn spec_preprocess_command(
    executable: Seq<char>,
    parsed: SpecParsedArguments,
    cwd: Seq<char>,
    env_vars: Seq<(Seq<char>, Seq<char>)>,
) -> SpecCompileCommand {
    SpecCompileCommand {
        executable,
        arguments: seq!["-E"@, parsed.input] + parsed.preprocessor_args + parsed.common_args,
        env_vars,
        cwd,
    }
}

/// The compile command: compile flag, input, output flag and path, then the
/// preprocessor bucket and the common bucket.
pub open spec fn spec_compile_command(
    executable: Seq<char>,
    parsed: SpecParsedArguments,
    out_file: Seq<char>,
    cwd: Seq<char>,
    env_vars: Seq<(Seq<char>, Seq<char>)>,
) -> SpecCompileCommand {
    SpecCompileCommand {
        executable,
        arguments: seq!["-c"@, parsed.input, "-o"@, out_file] + parsed.preprocessor_args
            + parsed.common_args,
        env_vars,
        cwd,
    }
}

/// Build the preprocess command for a parsed invocation. The caller spawns
/// it with exactly the given environment in the given working directory.
pub fn preprocess(
    executable: &str,
    parsed_args: &ParsedArguments,
    cwd: &str,
    env_vars: &Vec<(String, String)>,
) -> (r: CompileCommand)
    ensures
        r@ == spec_preprocess_command(executable@, parsed_args@, cwd@, pair_views(env_vars@)),
{
    let mut arguments: Vec<String> = Vec::new();
    arguments.push(String::from_str("-E"));
    arguments.push(parsed_args.input.clone());
    let mut pre = clone_strings(&parsed_args.preprocessor_args);
    let mut common = clone_strings(&parsed_args.common_args);
    proof {
        lemma_seq_views_add(arguments@, pre@);
        lemma_seq_views_add(arguments@ + pre@, common@);
    }
    arguments.append(&mut pre);
    arguments.append(&mut common);
    let r = CompileCommand {
        executable: String::from_str(executable),
        arguments,
        env_vars: clone_pairs(env_vars),
        cwd: String::from_str(cwd),
    };
    proof {
        assert(r@.arguments =~= spec_preprocess_command(
            executable@,
            parsed_args@,
            cwd@,
            pair_views(env_vars@),
        ).arguments);
    }
    r
}

fn lookup_output<'a>(outputs: &'a Vec<(String, String)>, kind: &str) -> (r: Option<&'a String>)
    ensures
        match r {
            Some(o) => spec_lookup(pair_views(outputs@), kind@) == Some(o@),
            None => spec_lookup(pair_views(outputs@), kind@) is None,
        },
{
    let n = outputs.len();
    let mut i: usize = 0;
    proof {
        assert(pair_views(outputs@).skip(0) =~= pair_views(outputs@));
    }
    while i < n
        invariant
            n == outputs@.len(),
            0 <= i <= n,
            spec_lookup(pair_views(outputs@), kind@) == spec_lookup(
                pair_views(outputs@).skip(i as int),
                kind@,
            ),
        decreases n - i,
    {
        proof {
            assert(pair_views(outputs@).skip(i as int)[0] == pair_views(outputs@)[i as int]);
            assert(pair_views(outputs@).skip(i as int).skip(1) =~= pair_views(outputs@).skip(
                i + 1,
            ));
        }
        if str_eq(outputs[i].0.as_str(), kind) {
            return Some(&outputs[i].1);
        }
        i = i + 1;
    }
    None
}

/// Build the compile command for a parsed invocation, always cacheable.
/// Fails only when the invocation records no `obj` output, which
/// classification never produces: its occurrence signals a broken upstream
/// invariant.
pub fn generate_compile_commands(
    executable: &str,
    parsed_args: &ParsedArguments,
    cwd: &str,
    env_vars: &Vec<(String, String)>,
) -> (r: Result<(CompileCommand, Cacheable), String>)
    ensures
        match spec_lookup(parsed_args@.outputs, "obj"@) {
            Some(out_file) => r is Ok && r.unwrap().0@ == spec_compile_command(
                executable@,
                parsed_args@,
                out_file,
                cwd@,
                pair_views(env_vars@),
            ) && r.unwrap().1 == Cacheable::Yes,
            None => r is Err && r.unwrap_err()@ == "Missing object file output"@,
        },
{
    let out_file = match lookup_output(&parsed_args.outputs, "obj") {
        Some(o) => o,
        None => {
            return Err(String::from_str("Missing object file output"));
        },
    };
    let mut arguments: Vec<String> = Vec::new();
    arguments.push(String::from_str("-c"));
    arguments.push(parsed_args.input.clone());
    arguments.push(String::from_str("-o"));
    arguments.push(out_file.clone());
    let mut pre = clone_strings(&parsed_args.preprocessor_args);
    let mut common = clone_strings(&parsed_args.common_args);
    proof {
        lemma_seq_views_add(arguments@, pre@);
        lemma_seq_views_add(arguments@ + pre@, common@);
    }
    arguments.append(&mut pre);
    arguments.append(&mut common);
    let command = CompileCommand {
        executable: String::from_str(executable),
        arguments,
        env_vars: clone_pairs(env_vars),
        cwd: String::from_str(cwd),
    };
    proof {
        assert(command@.arguments =~= spec_compile_command(
            executable@,
            parsed_args@,
            spec_lookup(parsed_args@.outputs, "obj"@).unwrap(),
            cwd@,
            pair_views(env_vars@),
        ).arguments);
    }
    Ok((command, Cacheable::Yes))
}

// ---------------------------------------------------------------------------
// The compiler frontend
// ---------------------------------------------------------------------------

#[derive(Clone, Copy, Debug, PartialEq, Eq, Structural)]
pub enum CCompilerKind {
    Diab,
}

/// The Diab compiler family: its argument table tied to the shared engine.
#[derive(Clone, Debug)]
pub struct Diab;

impl Diab {
    pub fn kind(&self) -> (k: CCompilerKind)
        ensures
            k == CCompilerKind::Diab,
    {
        CCompilerKind::Diab
    }

    /// Classify a Diab command line against the family's own table.
    pub fn parse_arguments(
        &self,
        arguments: &Vec<String>,
        cwd: &str,
        fs: &FileStore,
    ) -> (r: CompilerArguments)
        ensures
            r@ == spec_classify(
                spec_expand_all(
                    SpecExpandState {
                        cwd: cwd@,
                        forced: None,
                        pending: seq_views(arguments@),
                        budget: EXPANSION_BUDGET as nat,
                    },
                    fs.files@,
                ),
                spec_diab_args(),
            ),
    {
        let table = diab_args();
        parse_arguments(arguments, cwd, &table, fs)
    }

    pub fn preprocess(
        &self,
        executable: &str,
        parsed_args: &ParsedArguments,
        cwd: &str,
        env_vars: &Vec<(String, String)>,
    ) -> (r: CompileCommand)
        ensures
            r@ == spec_preprocess_command(
                executable@,
                parsed_args@,
                cwd@,
                pair_views(env_vars@),
            ),
    {
        preprocess(executable, parsed_args, cwd, env_vars)
    }

    pub fn generate_compile_commands(
        &self,
        executable: &str,
        parsed_args: &ParsedArguments,
        cwd: &str,
        env_vars: &Vec<(String, String)>,
    ) -> (r: Result<(CompileCommand, Cacheable), String>)
        ensures
            match spec_lookup(parsed_args@.outputs, "obj"@) {
                Some(out_file) => r is Ok && r.unwrap().0@ == spec_compile_command(
                    executable@,
                    parsed_args@,
                    out_file,
                    cwd@,
                    pair_views(env_vars@),
                ) && r.unwrap().1 == Cacheable::Yes,
                None => r is Err && r.unwrap_err()@ == "Missing object file output"@,
            },
    {
        generate_compile_commands(executable, parsed_args, cwd, env_vars)
    }
}

} // verus!
