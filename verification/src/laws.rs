//! Laws of the classifier and of expansion, stated over the declarative
//! specifications and proved once and for all: bucket membership is decided
//! by the semantic tag alone and preserves order, normalization is
//! idempotent, early aborts carry the offending flag, verdicts for missing
//! or duplicated inputs, and how `-@name` indirections expand or pass
//! through.

use vstd::prelude::*;
use crate::args::{
    ArgData, ArgDisposition, SpecArgInfo, SpecArgument, SpecMatch, lemma_match_first_consumed,
    spec_canonicalize, spec_find, spec_info_matches, spec_match_first, spec_normalize,
};
use crate::diab::{
    SpecRunEnd, SpecState, SpecStep, SpecVerdict, spec_at_value_guard, spec_classify,
    spec_diab_args, spec_finalize, spec_init_state, spec_run, spec_step,
};
use crate::expand::{
    SpecExpandState, SpecStepOut, spec_expand_all, spec_expand_step, spec_is_indirection,
    spec_lookup_file, spec_name_excepted,
};
use crate::strutil::{
    has_quote_char, is_quote_char, is_space_char, spec_join_path, starts_with, ws_split,
};

verus! {

// ---------------------------------------------------------------------------
// The classifier as a fold over classified arguments
// ---------------------------------------------------------------------------

/// The semantic tag of a classified argument, when it has one.
pub open spec fn spec_tag_of(a: SpecArgument) -> Option<ArgData> {
    match a {
        SpecArgument::Flag(_, d) => Some(d),
        SpecArgument::WithValue(_, _, d, _) => Some(d),
        _ => None,
    }
}

/// Which bucket an argument joins.
pub enum BucketChoice {
    Pre,
    Common,
    NoBucket,
}

/// The bucket is chosen from the semantic tag alone; a tagless unrecognized
/// flag passes through to the common bucket and a bare token joins none.
pub open spec fn spec_bucket(a: SpecArgument) -> BucketChoice {
    match a {
        SpecArgument::Raw(_) => BucketChoice::NoBucket,
        SpecArgument::UnknownFlag(_) => BucketChoice::Common,
        _ => match spec_tag_of(a).unwrap() {
            ArgData::PreprocessorArgumentFlag | ArgData::PreprocessorArgument
                | ArgData::PreprocessorArgumentPath => BucketChoice::Pre,
            ArgData::PassThrough => BucketChoice::Common,
            _ => BucketChoice::NoBucket,
        },
    }
}

/// Whether the classifier aborts on this argument: the `@`-value guard, or
/// a too-hard tag. Neither depends on the accumulated state.
pub open spec fn spec_aborts(a: SpecArgument) -> bool {
    spec_at_value_guard(a) || match spec_tag_of(a) {
        Some(ArgData::TooHardFlag) => true,
        Some(ArgData::TooHard) => true,
        _ => false,
    }
}

/// The verdict an aborting argument carries.
pub open spec fn spec_abort_verdict(a: SpecArgument) -> SpecVerdict {
    if spec_at_value_guard(a) {
        SpecVerdict::CannotCache("-@"@, None)
    } else {
        match a {
            SpecArgument::Flag(f, _) => SpecVerdict::CannotCache(f, None),
            SpecArgument::WithValue(f, _, _, _) => SpecVerdict::CannotCache(f, None),
            // bare tokens and unrecognized flags never abort
            _ => SpecVerdict::NotCompilation,
        }
    }
}

/// Classify a whole token stream into arguments, `None` when a separate
/// value is missing at the end.
pub open spec fn spec_match_all(tokens: Seq<Seq<char>>, table: Seq<SpecArgInfo>) -> Option<
    Seq<SpecArgument>,
>
    decreases tokens.len(),
    via spec_match_all_decreases
{
    if tokens.len() == 0 {
        Some(Seq::empty())
    } else {
        match spec_match_first(tokens, table) {
            SpecMatch::NeedValue(_) => None,
            SpecMatch::Got(a, n) => match spec_match_all(tokens.skip(n), table) {
                None => None,
                Some(r) => Some(seq![a] + r),
            },
        }
    }
}

#[via_fn]
proof fn spec_match_all_decreases(tokens: Seq<Seq<char>>, table: Seq<SpecArgInfo>) {
    if tokens.len() > 0 {
        lemma_match_first_consumed(tokens, table);
    }
}

/// The classifier as a fold over already-classified arguments.
pub open spec fn spec_fold(cargs: Seq<SpecArgument>, st: SpecState) -> SpecRunEnd
    decreases cargs.len(),
{
    if cargs.len() == 0 {
        SpecRunEnd::Finished(spec_finalize(st))
    } else {
        match spec_step(cargs[0], st) {
            SpecStep::Abort(v) => SpecRunEnd::Stopped(v),
            SpecStep::Cont(st2) => spec_fold(cargs.skip(1), st2),
        }
    }
}

/// The state after folding, stopping short of any abort.
pub open spec fn spec_fold_state(cargs: Seq<SpecArgument>, st: SpecState) -> SpecState
    decreases cargs.len(),
{
    if cargs.len() == 0 {
        st
    } else {
        match spec_step(cargs[0], st) {
            SpecStep::Abort(_) => st,
            SpecStep::Cont(st2) => spec_fold_state(cargs.skip(1), st2),
        }
    }
}

/// Running the matcher-classifier over tokens equals matching them all and
/// folding, whenever every token finds its value.
pub proof fn lemma_run_is_fold(
    tokens: Seq<Seq<char>>,
    table: Seq<SpecArgInfo>,
    st: SpecState,
    cargs: Seq<SpecArgument>,
)
    requires
        spec_match_all(tokens, table) == Some(cargs),
    ensures
        spec_run(tokens, table, st) == spec_fold(cargs, st),
    decreases tokens.len(),
{
    if tokens.len() == 0 {
    } else {
        match spec_match_first(tokens, table) {
            SpecMatch::NeedValue(_) => {},
            SpecMatch::Got(a, n) => {
                let rest = spec_match_all(tokens.skip(n), table).unwrap();
                assert(cargs == seq![a] + rest);
                assert(cargs[0] == a);
                assert(cargs.skip(1) =~= rest);
                match spec_step(a, st) {
                    SpecStep::Abort(_) => {},
                    SpecStep::Cont(st2) => {
                        lemma_run_is_fold(tokens.skip(n), table, st2, rest);
                    },
                }
            },
        }
    }
}

// ---------------------------------------------------------------------------
// Bucket membership and order (role dispatch by tag)
// ---------------------------------------------------------------------------

/// Two arguments with the same semantic tag always land in the same bucket.
pub proof fn lemma_bucket_by_tag(a1: SpecArgument, a2: SpecArgument)
    requires
        spec_tag_of(a1) is Some,
        spec_tag_of(a1) == spec_tag_of(a2),
    ensures
        spec_bucket(a1) == spec_bucket(a2),
{
}

/// The normalized spellings of the arguments that join bucket `b`, in
/// stream order.
pub open spec fn spec_bucket_tokens(cargs: Seq<SpecArgument>, b: BucketChoice) -> Seq<Seq<char>>
    decreases cargs.len(),
{
    if cargs.len() == 0 {
        Seq::empty()
    } else {
        (if spec_bucket(cargs[0]) == b {
            spec_normalize(cargs[0])
        } else {
            Seq::empty()
        }) + spec_bucket_tokens(cargs.skip(1), b)
    }
}

/// Bucket contents split at any point of the stream.
pub proof fn lemma_bucket_tokens_split(cargs: Seq<SpecArgument>, b: BucketChoice, k: int)
    requires
        0 <= k <= cargs.len(),
    ensures
        spec_bucket_tokens(cargs, b) == spec_bucket_tokens(cargs.take(k), b)
            + spec_bucket_tokens(cargs.skip(k), b),
    decreases k,
{
    if k == 0 {
        assert(cargs.take(0) =~= Seq::<SpecArgument>::empty());
        assert(cargs.skip(0) =~= cargs);
        assert(spec_bucket_tokens(cargs.take(0), b) + spec_bucket_tokens(cargs, b)
            =~= spec_bucket_tokens(cargs, b));
    } else {
        let h = if spec_bucket(cargs[0]) == b {
            spec_normalize(cargs[0])
        } else {
            Seq::<Seq<char>>::empty()
        };
        lemma_bucket_tokens_split(cargs.skip(1), b, k - 1);
        assert(cargs.skip(1).take(k - 1) =~= cargs.take(k).skip(1));
        assert(cargs.skip(1).skip(k - 1) =~= cargs.skip(k));
        assert(cargs.take(k)[0] == cargs[0]);
        assert(spec_bucket_tokens(cargs.take(k), b) == h + spec_bucket_tokens(
            cargs.take(k).skip(1),
            b,
        ));
        assert(h + (spec_bucket_tokens(cargs.take(k).skip(1), b) + spec_bucket_tokens(
            cargs.skip(k),
            b,
        )) =~= (h + spec_bucket_tokens(cargs.take(k).skip(1), b)) + spec_bucket_tokens(
            cargs.skip(k),
            b,
        ));
    }
}

/// Role-bucket membership and order in one statement: two arguments sharing
/// a semantic tag land in the same bucket, and that bucket decomposes
/// around their normalized spellings in stream order — the earlier one's
/// tokens come wholly before the later one's.
#[verifier::rlimit(100)]
pub proof fn lemma_same_tag_same_bucket_ordered(cargs: Seq<SpecArgument>, i: int, j: int)
    requires
        0 <= i < j < cargs.len(),
        spec_tag_of(cargs[i]) is Some,
        spec_tag_of(cargs[i]) == spec_tag_of(cargs[j]),
    ensures
        spec_bucket(cargs[i]) == spec_bucket(cargs[j]),
        spec_bucket_tokens(cargs, spec_bucket(cargs[i])) == spec_bucket_tokens(
            cargs.take(i),
            spec_bucket(cargs[i]),
        ) + spec_normalize(cargs[i]) + spec_bucket_tokens(
            cargs.subrange(i + 1, j),
            spec_bucket(cargs[i]),
        ) + spec_normalize(cargs[j]) + spec_bucket_tokens(
            cargs.skip(j + 1),
            spec_bucket(cargs[i]),
        ),
{
    let b = spec_bucket(cargs[i]);
    lemma_bucket_by_tag(cargs[i], cargs[j]);
    let early = spec_bucket_tokens(cargs.take(i), b);
    let first = spec_normalize(cargs[i]);
    let between = spec_bucket_tokens(cargs.subrange(i + 1, j), b);
    let second = spec_normalize(cargs[j]);
    let late = spec_bucket_tokens(cargs.skip(j + 1), b);
    lemma_bucket_tokens_split(cargs, b, i);
    assert(cargs.skip(i)[0] == cargs[i]);
    assert(cargs.skip(i).skip(1) =~= cargs.skip(i + 1));
    assert(spec_bucket_tokens(cargs.skip(i), b) == first + spec_bucket_tokens(
        cargs.skip(i + 1),
        b,
    ));
    lemma_bucket_tokens_split(cargs.skip(i + 1), b, j - i - 1);
    assert(cargs.skip(i + 1).take(j - i - 1) =~= cargs.subrange(i + 1, j));
    assert(cargs.skip(i + 1).skip(j - i - 1) =~= cargs.skip(j));
    assert(cargs.skip(j)[0] == cargs[j]);
    assert(cargs.skip(j).skip(1) =~= cargs.skip(j + 1));
    assert(spec_bucket_tokens(cargs.skip(j), b) == second + late);
    assert(spec_bucket_tokens(cargs.skip(i + 1), b) == between + (second + late));
    assert(spec_bucket_tokens(cargs, b) == early + (first + (between + (second + late))));
    assert(between + (second + late) =~= between + second + late);
    assert(first + (between + second + late) =~= first + between + second + late);
    assert(early + (first + between + second + late) =~= early + first + between + second
        + late);
}

pub open spec fn spec_count_raws(cargs: Seq<SpecArgument>) -> int
    decreases cargs.len(),
{
    if cargs.len() == 0 {
        0
    } else {
        (if cargs[0] is Raw {
            1int
        } else {
            0int
        }) + spec_count_raws(cargs.skip(1))
    }
}

pub proof fn lemma_count_raws_nonneg(cargs: Seq<SpecArgument>)
    ensures
        spec_count_raws(cargs) >= 0,
    decreases cargs.len(),
{
    if cargs.len() > 0 {
        lemma_count_raws_nonneg(cargs.skip(1));
    }
}

pub open spec fn spec_has_compile(cargs: Seq<SpecArgument>) -> bool
    decreases cargs.len(),
{
    if cargs.len() == 0 {
        false
    } else {
        spec_tag_of(cargs[0]) == Some(ArgData::DoCompilation) || spec_has_compile(cargs.skip(1))
    }
}

/// How a fold without aborts transforms the state: it finishes; each bucket
/// grows exactly by the normalized spellings of the arguments whose tag
/// selects it, in stream order; the compile flag records whether a compile
/// tag occurred; an input candidate exists exactly when a bare token or an
/// earlier candidate does; and more than one input candidate in total marks
/// multiple inputs.
pub proof fn lemma_fold_characterization(cargs: Seq<SpecArgument>, st: SpecState)
    requires
        forall|i: int| 0 <= i < cargs.len() ==> !spec_aborts(#[trigger] cargs[i]),
    ensures
        spec_fold(cargs, st) == SpecRunEnd::Finished(spec_finalize(spec_fold_state(cargs, st))),
        spec_fold_state(cargs, st).preprocessor_args == st.preprocessor_args
            + spec_bucket_tokens(cargs, BucketChoice::Pre),
        spec_fold_state(cargs, st).common_args == st.common_args + spec_bucket_tokens(
            cargs,
            BucketChoice::Common,
        ),
        spec_fold_state(cargs, st).compilation == (st.compilation || spec_has_compile(cargs)),
        spec_fold_state(cargs, st).input_arg is Some <==> (st.input_arg is Some
            || spec_count_raws(cargs) > 0),
        spec_fold_state(cargs, st).multiple_input == (st.multiple_input || spec_count_raws(cargs)
            + (if st.input_arg is Some {
            1int
        } else {
            0int
        }) >= 2),
    decreases cargs.len(),
{
    if cargs.len() == 0 {
        assert(st.preprocessor_args + spec_bucket_tokens(cargs, BucketChoice::Pre)
            =~= st.preprocessor_args);
        assert(st.common_args + spec_bucket_tokens(cargs, BucketChoice::Common)
            =~= st.common_args);
    } else {
        let a = cargs[0];
        assert(!spec_aborts(a));
        match spec_step(a, st) {
            SpecStep::Abort(_) => {
                assert(false);
            },
            SpecStep::Cont(st2) => {
                lemma_fold_characterization(cargs.skip(1), st2);
                lemma_count_raws_nonneg(cargs.skip(1));
                assert(forall|i: int|
                    0 <= i < cargs.skip(1).len() ==> cargs.skip(1)[i] == cargs[i + 1]);
                assert(st.preprocessor_args + ((if spec_bucket(a) == BucketChoice::Pre {
                    spec_normalize(a)
                } else {
                    Seq::<Seq<char>>::empty()
                }) + spec_bucket_tokens(cargs.skip(1), BucketChoice::Pre)) =~= (
                st.preprocessor_args + (if spec_bucket(a) == BucketChoice::Pre {
                    spec_normalize(a)
                } else {
                    Seq::<Seq<char>>::empty()
                })) + spec_bucket_tokens(cargs.skip(1), BucketChoice::Pre));
                assert(st2.preprocessor_args =~= st.preprocessor_args + (if spec_bucket(a)
                    == BucketChoice::Pre {
                    spec_normalize(a)
                } else {
                    Seq::<Seq<char>>::empty()
                }));
                assert(st.common_args + ((if spec_bucket(a) == BucketChoice::Common {
                    spec_normalize(a)
                } else {
                    Seq::<Seq<char>>::empty()
                }) + spec_bucket_tokens(cargs.skip(1), BucketChoice::Common)) =~= (st.common_args
                    + (if spec_bucket(a) == BucketChoice::Common {
                    spec_normalize(a)
                } else {
                    Seq::<Seq<char>>::empty()
                })) + spec_bucket_tokens(cargs.skip(1), BucketChoice::Common));
                assert(st2.common_args =~= st.common_args + (if spec_bucket(a)
                    == BucketChoice::Common {
                    spec_normalize(a)
                } else {
                    Seq::<Seq<char>>::empty()
                }));
            },
        }
    }
}

// ---------------------------------------------------------------------------
// Normalization is idempotent
// ---------------------------------------------------------------------------

/// Canonicalizing twice is canonicalizing once, so re-normalizing an
/// already-canonical argument spells out the same tokens.
pub proof fn lemma_normalize_idempotent(a: SpecArgument)
    ensures
        spec_canonicalize(spec_canonicalize(a)) == spec_canonicalize(a),
        spec_normalize(spec_canonicalize(a)) == spec_normalize(a),
{
}

/// Idempotence across the matcher, attached form: the canonical one-token
/// spelling of a two-character flexible Diab flag re-matches to the same
/// canonical argument and so re-normalizes to the same token. A non-empty
/// value is required: an empty value's canonical token is the bare flag,
/// which re-matches as a separated spelling.
pub proof fn lemma_rematch_canonical_attached(
    tokens: Seq<Seq<char>>,
    f: Seq<char>,
    v: Seq<char>,
    d: ArgData,
)
    requires
        tokens.len() > 0,
        v.len() > 0,
        tokens[0] == f + v,
        (f == "-D"@ && d == ArgData::PreprocessorArgument) || (f == "-I"@ && d
            == ArgData::PreprocessorArgumentPath) || (f == "-U"@ && d
            == ArgData::PreprocessorArgument),
    ensures
        spec_match_first(tokens, spec_diab_args()) == SpecMatch::Got(
            SpecArgument::WithValue(f, v, d, ArgDisposition::CanBeConcatenated(None)),
            1,
        ),
        spec_normalize(SpecArgument::WithValue(f, v, d, ArgDisposition::CanBeConcatenated(None)))
            == seq![tokens[0]],
{
    let tbl = spec_diab_args();
    let t = tokens[0];
    reveal_strlit("-");
    reveal_strlit("-##");
    reveal_strlit("-###");
    reveal_strlit("-@");
    reveal_strlit("-D");
    reveal_strlit("-E");
    reveal_strlit("-I");
    reveal_strlit("-L");
    reveal_strlit("-P");
    reveal_strlit("-S");
    reveal_strlit("-U");
    assert(f.len() == 2);
    assert(t.len() == 2 + v.len());
    assert(t[0] == f[0] && t[1] == f[1]);
    assert(t.subrange(0, 2) =~= f);
    assert(starts_with(t, f));
    assert(!spec_info_matches(t, tbl[0]));
    assert(!spec_info_matches(t, tbl[1])) by {
        if t == "-##"@ {
            assert(t[1] == '#');
        }
    }
    assert(!spec_info_matches(t, tbl[2])) by {
        if t == "-###"@ {
            assert(t[1] == '#');
        }
    }
    assert(!spec_info_matches(t, tbl[3])) by {
        if starts_with(t, "-@"@) {
            assert(t.subrange(0, 2)[1] == t[1]);
        }
    }
    let k: int = if f == "-D"@ {
        4
    } else if f == "-I"@ {
        6
    } else {
        10
    };
    if f == "-D"@ {
        assert(forall|j: int| 0 <= j < 4 ==> !spec_info_matches(t, #[trigger] tbl[j]));
    } else {
        assert(!spec_info_matches(t, tbl[4])) by {
            if starts_with(t, "-D"@) {
                assert(t.subrange(0, 2)[1] == t[1]);
            }
        }
        assert(!spec_info_matches(t, tbl[5])) by {
            if t == "-E"@ {
                assert(t.len() == 2);
            }
        }
        if f == "-I"@ {
            assert(forall|j: int| 0 <= j < 6 ==> !spec_info_matches(t, #[trigger] tbl[j]));
        } else {
            assert(!spec_info_matches(t, tbl[6])) by {
                if starts_with(t, "-I"@) {
                    assert(t.subrange(0, 2)[1] == t[1]);
                }
            }
            assert(!spec_info_matches(t, tbl[7])) by {
                if t == "-L"@ {
                    assert(t.len() == 2);
                }
            }
            assert(!spec_info_matches(t, tbl[8])) by {
                if t == "-P"@ {
                    assert(t.len() == 2);
                }
            }
            assert(!spec_info_matches(t, tbl[9])) by {
                if t == "-S"@ {
                    assert(t.len() == 2);
                }
            }
            assert(forall|j: int| 0 <= j < 10 ==> !spec_info_matches(t, #[trigger] tbl[j]));
        }
    }
    lemma_find_skip(tbl, t, k);
    assert(t.skip(2) =~= v);
    assert(seq![f + v] =~= seq![t]);
}

/// Idempotence across the matcher, separated form: the canonical two-token
/// spelling of the `-include` flag re-matches to the same canonical
/// argument and so re-normalizes to the same two tokens.
pub proof fn lemma_rematch_canonical_separated(tokens: Seq<Seq<char>>, v: Seq<char>)
    requires
        tokens.len() >= 2,
        tokens[0] == "-include"@,
        tokens[1] == v,
    ensures
        spec_match_first(tokens, spec_diab_args()) == SpecMatch::Got(
            SpecArgument::WithValue(
                "-include"@,
                v,
                ArgData::PreprocessorArgumentPath,
                ArgDisposition::CanBeSeparated(None),
            ),
            2,
        ),
        spec_normalize(
            SpecArgument::WithValue(
                "-include"@,
                v,
                ArgData::PreprocessorArgumentPath,
                ArgDisposition::CanBeSeparated(None),
            ),
        ) == seq![tokens[0], tokens[1]],
{
    let tbl = spec_diab_args();
    let t = tokens[0];
    reveal_strlit("-");
    reveal_strlit("-##");
    reveal_strlit("-###");
    reveal_strlit("-@");
    reveal_strlit("-D");
    reveal_strlit("-E");
    reveal_strlit("-I");
    reveal_strlit("-L");
    reveal_strlit("-P");
    reveal_strlit("-S");
    reveal_strlit("-U");
    reveal_strlit("-V");
    reveal_strlit("-VV");
    reveal_strlit("-W");
    reveal_strlit("-Xmake-dependency");
    reveal_strlit("-Xmake-dependency-canonicalize-path-off");
    reveal_strlit("-Xmake-dependency-savefile");
    reveal_strlit("-Xmake-dependency-target");
    reveal_strlit("-c");
    reveal_strlit("-include");
    assert(t.len() == 8);
    assert(!spec_info_matches(t, tbl[3])) by {
        if starts_with(t, "-@"@) {
            assert(t.subrange(0, 2)[1] == t[1]);
        }
    }
    assert(!spec_info_matches(t, tbl[4])) by {
        if starts_with(t, "-D"@) {
            assert(t.subrange(0, 2)[1] == t[1]);
        }
    }
    assert(!spec_info_matches(t, tbl[6])) by {
        if starts_with(t, "-I"@) {
            assert(t.subrange(0, 2)[1] == t[1]);
        }
    }
    assert(!spec_info_matches(t, tbl[10])) by {
        if starts_with(t, "-U"@) {
            assert(t.subrange(0, 2)[1] == t[1]);
        }
    }
    assert(!spec_info_matches(t, tbl[16])) by {
        if starts_with(t, "-Xmake-dependency-savefile"@) {
            assert(t.len() >= 26);
        }
    }
    assert(!spec_info_matches(t, tbl[17])) by {
        if starts_with(t, "-Xmake-dependency-target"@) {
            assert(t.len() >= 24);
        }
    }
    assert(spec_info_matches(t, tbl[19])) by {
        assert(t.subrange(0, 8) =~= t);
    }
    assert(forall|j: int| 0 <= j < 19 ==> !spec_info_matches(t, #[trigger] tbl[j]));
    lemma_find_skip(tbl, t, 19);
}

// ---------------------------------------------------------------------------
// Early aborts
// ---------------------------------------------------------------------------

/// The first aborting argument decides the verdict, whatever follows it: a
/// too-hard flag anywhere aborts with that flag's own text as the reason.
pub proof fn lemma_first_abort(cargs: Seq<SpecArgument>, st: SpecState, i: int)
    requires
        0 <= i < cargs.len(),
        spec_aborts(cargs[i]),
        forall|j: int| 0 <= j < i ==> !spec_aborts(#[trigger] cargs[j]),
    ensures
        spec_fold(cargs, st) == SpecRunEnd::Stopped(spec_abort_verdict(cargs[i])),
    decreases i,
{
    if i == 0 {
    } else {
        match spec_step(cargs[0], st) {
            SpecStep::Abort(_) => {
                assert(false);
            },
            SpecStep::Cont(st2) => {
                assert(forall|j: int|
                    0 <= j < cargs.skip(1).len() ==> cargs.skip(1)[j] == cargs[j + 1]);
                lemma_first_abort(cargs.skip(1), st2, i - 1);
            },
        }
    }
}

/// Anywhere in the stream, the first aborting argument decides the whole
/// classification: a dry-run-class flag gives "cannot cache" with that
/// flag's own text as the reason, even beside a valid compile flag and
/// input.
pub proof fn lemma_abort_decides_verdict(
    tokens: Seq<Seq<char>>,
    table: Seq<SpecArgInfo>,
    cargs: Seq<SpecArgument>,
    i: int,
)
    requires
        spec_match_all(tokens, table) == Some(cargs),
        0 <= i < cargs.len(),
        spec_aborts(cargs[i]),
        forall|j: int| 0 <= j < i ==> !spec_aborts(#[trigger] cargs[j]),
    ensures
        spec_classify(tokens, table) == spec_abort_verdict(cargs[i]),
{
    lemma_run_is_fold(tokens, table, spec_init_state(), cargs);
    lemma_first_abort(cargs, spec_init_state(), i);
}

/// Matching the front of a stream agrees with matching the front of any
/// long-enough prefix, whenever the prefix finds its value.
proof fn lemma_match_first_prefix(tokens: Seq<Seq<char>>, table: Seq<SpecArgInfo>, m: int)
    requires
        1 <= m <= tokens.len(),
        !(spec_match_first(tokens.take(m), table) is NeedValue),
    ensures
        spec_match_first(tokens, table) == spec_match_first(tokens.take(m), table),
{
    assert(tokens.take(m)[0] == tokens[0]);
    if m >= 2 {
        assert(tokens.take(m)[1] == tokens[1]);
    }
}

/// The strongest abort law: once a classified prefix of the stream reaches
/// an aborting argument, the run stops there with that argument's verdict —
/// the tokens after the abort need not even classify.
pub proof fn lemma_run_stops_at_abort(
    tokens: Seq<Seq<char>>,
    table: Seq<SpecArgInfo>,
    m: int,
    cargs: Seq<SpecArgument>,
    st: SpecState,
    i: int,
)
    requires
        0 <= m <= tokens.len(),
        spec_match_all(tokens.take(m), table) == Some(cargs),
        0 <= i < cargs.len(),
        spec_aborts(cargs[i]),
        forall|j: int| 0 <= j < i ==> !spec_aborts(#[trigger] cargs[j]),
    ensures
        spec_run(tokens, table, st) == SpecRunEnd::Stopped(spec_abort_verdict(cargs[i])),
    decreases i,
{
    let pre = tokens.take(m);
    assert(pre.len() > 0);
    match spec_match_first(pre, table) {
        SpecMatch::NeedValue(_) => {
            assert(false);
        },
        SpecMatch::Got(a, n) => {
            lemma_match_first_consumed(pre, table);
            lemma_match_first_prefix(tokens, table, m);
            let rest = spec_match_all(pre.skip(n), table).unwrap();
            assert(cargs == seq![a] + rest);
            assert(cargs[0] == a);
            assert(cargs.skip(1) =~= rest);
            if i == 0 {
                assert(spec_step(a, st) == SpecStep::Abort(spec_abort_verdict(a)));
            } else {
                match spec_step(a, st) {
                    SpecStep::Abort(_) => {
                        assert(false);
                    },
                    SpecStep::Cont(st2) => {
                        assert(tokens.skip(n).take(m - n) =~= pre.skip(n));
                        assert(forall|j: int|
                            0 <= j < rest.len() ==> rest[j] == cargs[j + 1]);
                        lemma_run_stops_at_abort(tokens.skip(n), table, m - n, rest, st2, i - 1);
                    },
                }
            }
        },
    }
}

/// Verdict form of the strongest abort law: a dry-run-class or too-hard
/// flag in a classified prefix fixes the whole classification to "cannot
/// cache" with that flag's own text, whatever tokens follow.
pub proof fn lemma_abort_decides_verdict_any_tail(
    tokens: Seq<Seq<char>>,
    table: Seq<SpecArgInfo>,
    m: int,
    cargs: Seq<SpecArgument>,
    i: int,
)
    requires
        0 <= m <= tokens.len(),
        spec_match_all(tokens.take(m), table) == Some(cargs),
        0 <= i < cargs.len(),
        spec_aborts(cargs[i]),
        forall|j: int| 0 <= j < i ==> !spec_aborts(#[trigger] cargs[j]),
    ensures
        spec_classify(tokens, table) == spec_abort_verdict(cargs[i]),
{
    lemma_run_stops_at_abort(tokens, table, m, cargs, spec_init_state(), i);
}

// ---------------------------------------------------------------------------
// Final verdicts
// ---------------------------------------------------------------------------

/// Without a compile flag the verdict is "not a compilation", never a cache
/// refusal — whatever inputs and outputs were seen.
pub proof fn lemma_no_compilation(tokens: Seq<Seq<char>>, table: Seq<SpecArgInfo>, cargs: Seq<
    SpecArgument,
>)
    requires
        spec_match_all(tokens, table) == Some(cargs),
        forall|i: int| 0 <= i < cargs.len() ==> !spec_aborts(#[trigger] cargs[i]),
        !spec_has_compile(cargs),
    ensures
        spec_classify(tokens, table) == SpecVerdict::NotCompilation,
{
    lemma_run_is_fold(tokens, table, spec_init_state(), cargs);
    lemma_fold_characterization(cargs, spec_init_state());
}

/// With a compile flag but two or more bare input tokens, the verdict is
/// "multiple input files", regardless of the surrounding flags and order.
pub proof fn lemma_multiple_inputs(tokens: Seq<Seq<char>>, table: Seq<SpecArgInfo>, cargs: Seq<
    SpecArgument,
>)
    requires
        spec_match_all(tokens, table) == Some(cargs),
        forall|i: int| 0 <= i < cargs.len() ==> !spec_aborts(#[trigger] cargs[i]),
        spec_has_compile(cargs),
        spec_count_raws(cargs) >= 2,
    ensures
        spec_classify(tokens, table) == SpecVerdict::CannotCache("multiple input files"@, None),
{
    lemma_run_is_fold(tokens, table, spec_init_state(), cargs);
    lemma_fold_characterization(cargs, spec_init_state());
}

/// When no output was recorded, the output defaults to the input with its
/// extension replaced by `o`, under the single `obj` kind.
pub proof fn lemma_output_defaults(st: SpecState)
    requires
        st.compilation,
        !st.multiple_input,
        st.input_arg is Some,
        crate::diab::spec_language_of(st.input_arg.unwrap()) is Some,
        st.output_arg is None,
    ensures
        spec_finalize(st) == SpecVerdict::Okay(
            crate::diab::SpecParsedArguments {
                input: st.input_arg.unwrap(),
                language: crate::diab::spec_language_of(st.input_arg.unwrap()).unwrap(),
                depfile: None,
                outputs: seq![
                    ("obj"@, crate::strutil::spec_with_extension(st.input_arg.unwrap(), "o"@)),
                ],
                preprocessor_args: st.preprocessor_args,
                common_args: st.common_args,
                msvc_show_includes: false,
            },
        ),
{
}

// ---------------------------------------------------------------------------
// Indirection expansion
// ---------------------------------------------------------------------------

/// A readable, quote-free indirection is replaced by its file's
/// whitespace-split tokens, in place, spending one unit of budget.
pub proof fn lemma_indirection_expands(s: SpecExpandState, fs: Seq<(String, String)>, c: Seq<
    char,
>)
    requires
        s.forced is None,
        s.pending.len() > 0,
        s.budget > 0,
        spec_is_indirection(s.pending[0]),
        spec_lookup_file(fs, spec_join_path(s.cwd, s.pending[0].skip(2))) == Some(c),
        !has_quote_char(c),
    ensures
        spec_expand_all(s, fs) == spec_expand_all(
            SpecExpandState {
                forced: None,
                pending: ws_split(c) + s.pending.skip(1),
                budget: (s.budget - 1) as nat,
                ..s
            },
            fs,
        ),
{
    assert(spec_expand_step(s, fs) == SpecStepOut::Push(
        SpecExpandState {
            forced: None,
            pending: ws_split(c) + s.pending.skip(1),
            budget: (s.budget - 1) as nat,
            ..s
        },
    ));
}

/// An `-@name` token whose name is excepted, whose file cannot be read, or
/// whose contents hold a quote passes through unchanged.
pub proof fn lemma_indirection_passes_through(s: SpecExpandState, fs: Seq<(String, String)>)
    requires
        s.forced is None,
        s.pending.len() > 0,
        starts_with(s.pending[0], "-@"@),
        spec_name_excepted(s.pending[0].skip(2)) || spec_lookup_file(
            fs,
            spec_join_path(s.cwd, s.pending[0].skip(2)),
        ) is None || (spec_lookup_file(fs, spec_join_path(s.cwd, s.pending[0].skip(2))) is Some
            && has_quote_char(
            spec_lookup_file(fs, spec_join_path(s.cwd, s.pending[0].skip(2))).unwrap(),
        )),
    ensures
        spec_expand_all(s, fs) == seq![s.pending[0]] + spec_expand_all(
            SpecExpandState { forced: None, pending: s.pending.skip(1), ..s },
            fs,
        ),
{
    assert(spec_expand_step(s, fs) == SpecStepOut::Emit(
        s.pending[0],
        SpecExpandState { forced: None, pending: s.pending.skip(1), ..s },
    ));
}

/// A pending stream without indirections expands to itself.
pub proof fn lemma_no_indirection_identity(s: SpecExpandState, fs: Seq<(String, String)>)
    requires
        s.forced is None,
        forall|i: int| 0 <= i < s.pending.len() ==> !spec_is_indirection(#[trigger] s.pending[i]),
    ensures
        spec_expand_all(s, fs) == s.pending,
    decreases s.pending.len(),
{
    if s.pending.len() == 0 {
        assert(spec_expand_all(s, fs) =~= s.pending);
    } else {
        let rest = SpecExpandState { forced: None, pending: s.pending.skip(1), ..s };
        assert(spec_expand_step(s, fs) == SpecStepOut::Emit(s.pending[0], rest));
        assert(forall|i: int|
            0 <= i < rest.pending.len() ==> rest.pending[i] == s.pending[i + 1]);
        lemma_no_indirection_identity(rest, fs);
        assert(seq![s.pending[0]] + s.pending.skip(1) =~= s.pending);
    }
}

/// Reading command-line tokens from a readable, quote-free file is the same
/// as passing them directly, whenever none of them is itself an
/// indirection: the whole classification verdict agrees.
pub proof fn lemma_indirection_same_as_direct(
    cwd: Seq<char>,
    t: Seq<char>,
    fs: Seq<(String, String)>,
    c: Seq<char>,
    budget: nat,
    table: Seq<SpecArgInfo>,
)
    requires
        budget > 0,
        spec_is_indirection(t),
        spec_lookup_file(fs, spec_join_path(cwd, t.skip(2))) == Some(c),
        !has_quote_char(c),
        forall|i: int| 0 <= i < ws_split(c).len() ==> !spec_is_indirection(#[trigger] ws_split(c)[i]),
    ensures
        spec_classify(
            spec_expand_all(
                SpecExpandState { cwd, forced: None, pending: seq![t], budget },
                fs,
            ),
            table,
        ) == spec_classify(ws_split(c), table),
{
    let s1 = SpecExpandState { cwd, forced: None, pending: seq![t], budget };
    assert(s1.pending[0] == t);
    lemma_indirection_expands(s1, fs, c);
    let s2 = SpecExpandState {
        cwd,
        forced: None,
        pending: ws_split(c) + s1.pending.skip(1),
        budget: (budget - 1) as nat,
    };
    assert(ws_split(c) + s1.pending.skip(1) =~= ws_split(c));
    assert(s2.pending == ws_split(c));
    lemma_no_indirection_identity(s2, fs);
}

/// The specification's own indirection, end to end: `-@name` resolving to
/// a readable file holding `-c foo.c -o foo.o` classifies exactly as those
/// four tokens passed directly.
pub proof fn lemma_indirection_example(
    cwd: Seq<char>,
    t: Seq<char>,
    fs: Seq<(String, String)>,
    budget: nat,
    table: Seq<SpecArgInfo>,
)
    requires
        budget > 0,
        spec_is_indirection(t),
        spec_lookup_file(fs, spec_join_path(cwd, t.skip(2))) == Some("-c foo.c -o foo.o"@),
    ensures
        spec_classify(
            spec_expand_all(
                SpecExpandState { cwd, forced: None, pending: seq![t], budget },
                fs,
            ),
            table,
        ) == spec_classify(seq!["-c"@, "foo.c"@, "-o"@, "foo.o"@], table),
{
    let c = "-c foo.c -o foo.o"@;
    reveal_strlit("-c foo.c -o foo.o");
    reveal_strlit("-c");
    reveal_strlit("foo.c");
    reveal_strlit("-o");
    reveal_strlit("foo.o");
    reveal_strlit("-@");
    assert(!has_quote_char(c)) by {
        assert(forall|i: int| 0 <= i < c.len() ==> !is_quote_char(#[trigger] c[i]));
    }
    lemma_ws_split_example();
    assert(!spec_is_indirection("-c"@)) by {
        if starts_with("-c"@, "-@"@) {
            assert("-c"@.subrange(0, 2)[1] == "-c"@[1]);
        }
    }
    assert(!spec_is_indirection("foo.c"@)) by {
        if starts_with("foo.c"@, "-@"@) {
            assert("foo.c"@.subrange(0, 2)[0] == "foo.c"@[0]);
        }
    }
    assert(!spec_is_indirection("-o"@)) by {
        if starts_with("-o"@, "-@"@) {
            assert("-o"@.subrange(0, 2)[1] == "-o"@[1]);
        }
    }
    assert(!spec_is_indirection("foo.o"@)) by {
        if starts_with("foo.o"@, "-@"@) {
            assert("foo.o"@.subrange(0, 2)[0] == "foo.o"@[0]);
        }
    }
    assert(forall|i: int|
        0 <= i < ws_split(c).len() ==> !spec_is_indirection(#[trigger] ws_split(c)[i]));
    lemma_indirection_same_as_direct(cwd, t, fs, c, budget, table);
}

/// The contents `-c foo.c -o foo.o` split on whitespace into exactly those
/// four tokens.
pub proof fn lemma_ws_split_example()
    ensures
        ws_split("-c foo.c -o foo.o"@) == seq!["-c"@, "foo.c"@, "-o"@, "foo.o"@],
{
    let c = "-c foo.c -o foo.o"@;
    reveal_strlit("-c foo.c -o foo.o");
    reveal_strlit("-c");
    reveal_strlit("foo.c");
    reveal_strlit("-o");
    reveal_strlit("foo.o");
    crate::strutil::lemma_word_len_char(c, 2);
    assert(ws_split(c) == seq![c.take(2)] + ws_split(c.skip(2)));
    assert(c.take(2) =~= "-c"@);
    assert(is_space_char(c.skip(2)[0]));
    assert(c.skip(2).skip(1) =~= c.skip(3));
    assert(ws_split(c.skip(2)) == ws_split(c.skip(3)));
    assert(forall|j: int| 0 <= j < c.skip(3).len() ==> c.skip(3)[j] == c[j + 3]);
    crate::strutil::lemma_word_len_char(c.skip(3), 5);
    assert(ws_split(c.skip(3)) == seq![c.skip(3).take(5)] + ws_split(c.skip(3).skip(5)));
    assert(c.skip(3).take(5) =~= "foo.c"@);
    assert(c.skip(3).skip(5) =~= c.skip(8));
    assert(is_space_char(c.skip(8)[0]));
    assert(c.skip(8).skip(1) =~= c.skip(9));
    assert(ws_split(c.skip(8)) == ws_split(c.skip(9)));
    assert(forall|j: int| 0 <= j < c.skip(9).len() ==> c.skip(9)[j] == c[j + 9]);
    crate::strutil::lemma_word_len_char(c.skip(9), 2);
    assert(ws_split(c.skip(9)) == seq![c.skip(9).take(2)] + ws_split(c.skip(9).skip(2)));
    assert(c.skip(9).take(2) =~= "-o"@);
    assert(c.skip(9).skip(2) =~= c.skip(11));
    assert(is_space_char(c.skip(11)[0]));
    assert(c.skip(11).skip(1) =~= c.skip(12));
    assert(ws_split(c.skip(11)) == ws_split(c.skip(12)));
    assert(forall|j: int| 0 <= j < c.skip(12).len() ==> c.skip(12)[j] == c[j + 12]);
    crate::strutil::lemma_word_len_char(c.skip(12), 5);
    assert(ws_split(c.skip(12)) == seq![c.skip(12).take(5)] + ws_split(c.skip(12).skip(5)));
    assert(c.skip(12).take(5) =~= "foo.o"@);
    assert(c.skip(12).skip(5).len() == 0);
    assert(ws_split(c.skip(12).skip(5)) == Seq::<Seq<char>>::empty());
    assert(seq![c.take(2)] + (seq![c.skip(3).take(5)] + (seq![c.skip(9).take(2)] + (seq![
        c.skip(12).take(5),
    ] + Seq::<Seq<char>>::empty()))) =~= seq!["-c"@, "foo.c"@, "-o"@, "foo.o"@]);
}

/// A token starting `-@` that reaches the classifier unexpanded aborts at
/// once with reason `-@`, whatever follows it.
pub proof fn lemma_unexpanded_marker_verdict(tokens: Seq<Seq<char>>)
    requires
        tokens.len() > 0,
        starts_with(tokens[0], "-@"@),
    ensures
        spec_classify(tokens, spec_diab_args()) == SpecVerdict::CannotCache("-@"@, None),
{
    let t = tokens[0];
    let tbl = spec_diab_args();
    proof_find_at_entry(t);
    reveal_strlit("-@");
    let a = match spec_match_first(tokens, tbl) {
        SpecMatch::Got(a, _) => a,
        SpecMatch::NeedValue(f) => SpecArgument::Raw(f),
    };
    assert(a == SpecArgument::WithValue(
        "-@"@,
        t.skip("-@"@.len() as int),
        ArgData::TooHard,
        ArgDisposition::Concatenated(None),
    ));
    assert(spec_step(a, spec_init_state()) == SpecStep::Abort(
        SpecVerdict::CannotCache("-@"@, None),
    ));
}

/// A search over entries that all refuse the token finds nothing.
proof fn lemma_find_none(tbl: Seq<SpecArgInfo>, t: Seq<char>)
    requires
        forall|j: int| 0 <= j < tbl.len() ==> !spec_info_matches(t, #[trigger] tbl[j]),
    ensures
        spec_find(tbl, t) is None,
    decreases tbl.len(),
{
    if tbl.len() > 0 {
        assert(forall|j: int| 0 <= j < tbl.skip(1).len() ==> tbl.skip(1)[j] == tbl[j + 1]);
        lemma_find_none(tbl.skip(1), t);
    }
}

/// Every Diab flag text begins with `-`, so no entry claims a token that
/// does not: a bare positional token always re-matches as a bare token.
pub proof fn lemma_bare_token_unclaimed(t: Seq<char>)
    requires
        t.len() == 0 || t[0] != '-',
    ensures
        spec_find(spec_diab_args(), t) is None,
{
    let tbl = spec_diab_args();
    reveal_strlit("-");
    reveal_strlit("-##");
    reveal_strlit("-###");
    reveal_strlit("-@");
    reveal_strlit("-D");
    reveal_strlit("-E");
    reveal_strlit("-I");
    reveal_strlit("-L");
    reveal_strlit("-P");
    reveal_strlit("-S");
    reveal_strlit("-U");
    reveal_strlit("-V");
    reveal_strlit("-VV");
    reveal_strlit("-W");
    reveal_strlit("-Xmake-dependency");
    reveal_strlit("-Xmake-dependency-canonicalize-path-off");
    reveal_strlit("-Xmake-dependency-savefile");
    reveal_strlit("-Xmake-dependency-target");
    reveal_strlit("-c");
    reveal_strlit("-include");
    reveal_strlit("-l");
    reveal_strlit("-o");
    reveal_strlit("-t");
    assert forall|j: int| 0 <= j < tbl.len() implies !spec_info_matches(
        t,
        #[trigger] tbl[j],
    ) by {
        let f = match tbl[j] {
            SpecArgInfo::Flag(f, _) => f,
            SpecArgInfo::TakeArg(f, _, _) => f,
        };
        assert(f.len() > 0 && f[0] == '-');
        if t == f {
            assert(t[0] == '-');
        }
        if starts_with(t, f) {
            assert(t.subrange(0, f.len() as int)[0] == t[0]);
        }
    }
    lemma_find_none(tbl, t);
}

/// The flag text a table entry declares.
pub open spec fn spec_info_flag(info: SpecArgInfo) -> Seq<char> {
    match info {
        SpecArgInfo::Flag(f, _) => f,
        SpecArgInfo::TakeArg(f, _, _) => f,
    }
}

proof fn lemma_starts_with_chars(t: Seq<char>, g: Seq<char>)
    requires
        starts_with(t, g),
    ensures
        forall|i: int| 0 <= i < g.len() ==> t[i] == g[i],
{
    assert(forall|i: int| 0 <= i < g.len() ==> t.subrange(0, g.len() as int)[i] == t[i]);
}

/// A token spelt exactly as one entry's flag text re-matches to that very
/// entry: no earlier Diab entry claims another entry's flag text.
pub proof fn lemma_rematch_exact_flag(t: Seq<char>, k: int)
    requires
        0 <= k < spec_diab_args().len(),
        t == spec_info_flag(spec_diab_args()[k]),
        spec_info_matches(t, spec_diab_args()[k]),
    ensures
        spec_find(spec_diab_args(), t) == Some(spec_diab_args()[k]),
{
    let tbl = spec_diab_args();
    reveal_strlit("-");
    reveal_strlit("-##");
    reveal_strlit("-###");
    reveal_strlit("-@");
    reveal_strlit("-D");
    reveal_strlit("-E");
    reveal_strlit("-I");
    reveal_strlit("-L");
    reveal_strlit("-P");
    reveal_strlit("-S");
    reveal_strlit("-U");
    reveal_strlit("-V");
    reveal_strlit("-VV");
    reveal_strlit("-W");
    reveal_strlit("-Xmake-dependency");
    reveal_strlit("-Xmake-dependency-canonicalize-path-off");
    reveal_strlit("-Xmake-dependency-savefile");
    reveal_strlit("-Xmake-dependency-target");
    reveal_strlit("-c");
    reveal_strlit("-include");
    reveal_strlit("-l");
    reveal_strlit("-o");
    reveal_strlit("-t");
    assert forall|j: int| 0 <= j < k implies !spec_info_matches(t, #[trigger] tbl[j]) by {
        let g = spec_info_flag(tbl[j]);
        if t == g {
            assert(t.len() == g.len());
            assert(g.len() < 2 || t[1] == g[1]);
        }
        if starts_with(t, g) {
            lemma_starts_with_chars(t, g);
            assert(g.len() < 2 || t[1] == g[1]);
        }
    }
    lemma_find_skip(tbl, t, k);
}

/// Re-matching a canonical separated pair `[f, v]` of a value-taking entry
/// consumes exactly the pair; when that spelling is the canonical one (a
/// fixed separate style, or a flexible flag of more than two characters)
/// it re-normalizes to the same two tokens.
pub proof fn lemma_rematch_canonical_pair(tokens: Seq<Seq<char>>, k: int)
    requires
        tokens.len() >= 2,
        0 <= k < spec_diab_args().len(),
        spec_diab_args()[k] matches SpecArgInfo::TakeArg(_, _, _),
        !(spec_diab_args()[k] matches SpecArgInfo::TakeArg(_, ArgDisposition::Concatenated(_), _)),
        tokens[0] == spec_info_flag(spec_diab_args()[k]),
    ensures
        match spec_diab_args()[k] {
            SpecArgInfo::TakeArg(f, disp, d) => {
                let observed = if disp is Separated {
                    ArgDisposition::Separated
                } else {
                    ArgDisposition::CanBeSeparated(disp->CanBeSeparated_0)
                };
                let a2 = SpecArgument::WithValue(f, tokens[1], d, observed);
                spec_match_first(tokens, spec_diab_args()) == SpecMatch::Got(a2, 2) && ((disp
                    is Separated || f.len() != 2) ==> spec_normalize(a2) == seq![
                    tokens[0],
                    tokens[1],
                ])
            },
            _ => false,
        },
{
    let f = spec_info_flag(spec_diab_args()[k]);
    assert(f.subrange(0, f.len() as int) =~= f);
    assert(spec_info_matches(tokens[0], spec_diab_args()[k]));
    lemma_rematch_exact_flag(tokens[0], k);
}

/// Re-matching the canonical separator spelling `flag=value` of a fixed
/// separator entry yields the same argument and so the same single token.
pub proof fn lemma_rematch_canonical_separator(
    tokens: Seq<Seq<char>>,
    f: Seq<char>,
    v: Seq<char>,
    d: ArgData,
)
    requires
        tokens.len() > 0,
        (f == "-Xmake-dependency-savefile"@ && d == ArgData::PreprocessorArgumentPath) || (f
            == "-Xmake-dependency-target"@ && d == ArgData::PreprocessorArgument),
        tokens[0] == f + seq!['='] + v,
    ensures
        spec_match_first(tokens, spec_diab_args()) == SpecMatch::Got(
            SpecArgument::WithValue(f, v, d, ArgDisposition::Concatenated(Some('='))),
            1,
        ),
        spec_normalize(
            SpecArgument::WithValue(f, v, d, ArgDisposition::Concatenated(Some('='))),
        ) == seq![tokens[0]],
{
    let tbl = spec_diab_args();
    let t = tokens[0];
    reveal_strlit("-");
    reveal_strlit("-##");
    reveal_strlit("-###");
    reveal_strlit("-@");
    reveal_strlit("-D");
    reveal_strlit("-E");
    reveal_strlit("-I");
    reveal_strlit("-L");
    reveal_strlit("-P");
    reveal_strlit("-S");
    reveal_strlit("-U");
    reveal_strlit("-V");
    reveal_strlit("-VV");
    reveal_strlit("-W");
    reveal_strlit("-Xmake-dependency");
    reveal_strlit("-Xmake-dependency-canonicalize-path-off");
    reveal_strlit("-Xmake-dependency-savefile");
    reveal_strlit("-Xmake-dependency-target");
    let k: int = if f == "-Xmake-dependency-savefile"@ {
        16
    } else {
        17
    };
    assert(forall|i: int| 0 <= i < f.len() ==> t[i] == f[i]);
    assert(t[f.len() as int] == '=');
    assert(t.len() == f.len() + 1 + v.len());
    assert forall|j: int| 0 <= j < k implies !spec_info_matches(t, #[trigger] tbl[j]) by {
        let g = spec_info_flag(tbl[j]);
        if t == g {
            assert(t.len() == g.len());
            assert(g.len() < 2 || t[1] == g[1]);
            assert(g.len() < 19 || t[18] == g[18]);
        }
        if starts_with(t, g) {
            lemma_starts_with_chars(t, g);
            assert(g.len() < 2 || t[1] == g[1]);
            assert(g.len() < 19 || t[18] == g[18]);
        }
    }
    assert(t.subrange(0, f.len() as int) =~= f);
    assert(spec_info_matches(t, tbl[k]));
    lemma_find_skip(tbl, t, k);
    assert(t.skip(f.len() as int + 1) =~= v);
}

/// The first matching entry wins: when every earlier entry refuses the
/// token, the search finds entry `k`.
proof fn lemma_find_skip(tbl: Seq<SpecArgInfo>, t: Seq<char>, k: int)
    requires
        0 <= k < tbl.len(),
        forall|j: int| 0 <= j < k ==> !spec_info_matches(t, #[trigger] tbl[j]),
        spec_info_matches(t, tbl[k]),
    ensures
        spec_find(tbl, t) == Some(tbl[k]),
    decreases k,
{
    if k == 0 {
    } else {
        assert(forall|j: int| 0 <= j < tbl.skip(1).len() ==> tbl.skip(1)[j] == tbl[j + 1]);
        lemma_find_skip(tbl.skip(1), t, k - 1);
    }
}

/// In the Diab table a token starting `-@` matches the `-@` entry.
proof fn proof_find_at_entry(t: Seq<char>)
    requires
        starts_with(t, "-@"@),
    ensures
        spec_find(spec_diab_args(), t) == Some(
            SpecArgInfo::TakeArg("-@"@, ArgDisposition::Concatenated(None), ArgData::TooHard),
        ),
{
    let tbl = spec_diab_args();
    reveal_strlit("-");
    reveal_strlit("-##");
    reveal_strlit("-###");
    reveal_strlit("-@");
    assert(t.len() >= 2 && t[0] == '-' && t[1] == '@') by {
        assert(t.subrange(0, 2)[0] == t[0]);
        assert(t.subrange(0, 2)[1] == t[1]);
    }
    assert(!spec_info_matches(t, tbl[0]));
    assert(!spec_info_matches(t, tbl[1])) by {
        if t == "-##"@ {
            assert(t[1] == '#');
        }
    }
    assert(!spec_info_matches(t, tbl[2])) by {
        if t == "-###"@ {
            assert(t[1] == '#');
        }
    }
    assert(spec_info_matches(t, tbl[3]));
    assert(forall|j: int| 0 <= j < 3 ==> !spec_info_matches(t, #[trigger] tbl[j]));
    lemma_find_skip(tbl, t, 3);
}

} // verus!
