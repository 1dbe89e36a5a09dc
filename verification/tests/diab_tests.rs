use diab_args::args::{ArgData, ArgDisposition, Argument, normalize_tokens};
use diab_args::diab::{
    Cacheable, CCompilerKind, CompilerArguments, Diab, Language, ParsedArguments, diab_args,
    generate_compile_commands, parse_arguments, preprocess,
};
use diab_args::expand::{ExpandAtArgs, ExpandStep, FileStore};

fn sv(args: &[&str]) -> Vec<String> {
    args.iter().map(|s| s.to_string()).collect()
}

fn _parse_arguments(arguments: &[String]) -> CompilerArguments {
    let args: Vec<String> = arguments.to_vec();
    parse_arguments(&args, ".", &diab_args(), &FileStore::new())
}

fn parse_with_fs(arguments: &[&str], fs: &FileStore) -> CompilerArguments {
    parse_arguments(&sv(arguments), ".", &diab_args(), fs)
}

fn output_for<'a>(outputs: &'a [(String, String)], kind: &str) -> Option<&'a String> {
    outputs.iter().find(|p| p.0 == kind).map(|p| &p.1)
}

#[test]
fn test_parse_arguments_simple() {
    let args = sv(&["-c", "foo.c", "-o", "foo.o"]);
    let ParsedArguments {
        input,
        language,
        depfile: _,
        outputs,
        preprocessor_args,
        msvc_show_includes,
        common_args,
    } = match _parse_arguments(&args) {
        CompilerArguments::Okay(args) => args,
        o => panic!("Got unexpected parse result: {:?}", o),
    };
    assert!(true, "Parsed ok");
    assert_eq!(Some("foo.c"), Some(input.as_str()));
    assert_eq!(Language::C, language);
    assert_eq!(output_for(&outputs, "obj"), Some(&"foo.o".to_string()));
    assert_eq!(1, outputs.len());
    assert!(preprocessor_args.is_empty());
    assert!(common_args.is_empty());
    assert!(!msvc_show_includes);
}

#[test]
fn test_parse_arguments_default_name() {
    let args = sv(&["-c", "foo.c"]);
    let ParsedArguments {
        input,
        language,
        depfile: _,
        outputs,
        preprocessor_args,
        msvc_show_includes,
        common_args,
    } = match _parse_arguments(&args) {
        CompilerArguments::Okay(args) => args,
        o => panic!("Got unexpected parse result: {:?}", o),
    };
    assert!(true, "Parsed ok");
    assert_eq!(Some("foo.c"), Some(input.as_str()));
    assert_eq!(Language::C, language);
    assert_eq!(output_for(&outputs, "obj"), Some(&"foo.o".to_string()));
    assert_eq!(1, outputs.len());
    assert!(preprocessor_args.is_empty());
    assert!(common_args.is_empty());
    assert!(!msvc_show_includes);
}

#[test]
fn test_parse_arguments_extra() {
    let args = sv(&["-c", "foo.cc", "-fabc", "-o", "foo.o", "-mxyz"]);
    let ParsedArguments {
        input,
        language,
        depfile: _,
        outputs,
        preprocessor_args,
        msvc_show_includes,
        common_args,
    } = match _parse_arguments(&args) {
        CompilerArguments::Okay(args) => args,
        o => panic!("Got unexpected parse result: {:?}", o),
    };
    assert!(true, "Parsed ok");
    assert_eq!(Some("foo.cc"), Some(input.as_str()));
    assert_eq!(Language::Cxx, language);
    assert_eq!(output_for(&outputs, "obj"), Some(&"foo.o".to_string()));
    assert_eq!(1, outputs.len());
    assert!(preprocessor_args.is_empty());
    assert_eq!(sv(&["-fabc", "-mxyz"]), common_args);
    assert!(!msvc_show_includes);
}

#[test]
fn test_parse_arguments_values() {
    let args = sv(&[
        "-c", "foo.cxx", "-fabc", "-I", "include", "-o", "foo.o", "-include", "file",
    ]);
    let ParsedArguments {
        input,
        language,
        depfile: _,
        outputs,
        preprocessor_args,
        msvc_show_includes,
        common_args,
    } = match _parse_arguments(&args) {
        CompilerArguments::Okay(args) => args,
        o => panic!("Got unexpected parse result: {:?}", o),
    };
    assert!(true, "Parsed ok");
    assert_eq!(Some("foo.cxx"), Some(input.as_str()));
    assert_eq!(Language::Cxx, language);
    assert_eq!(output_for(&outputs, "obj"), Some(&"foo.o".to_string()));
    assert_eq!(1, outputs.len());
    assert_eq!(sv(&["-Iinclude", "-include", "file"]), preprocessor_args);
    assert_eq!(sv(&["-fabc"]), common_args);
    assert!(!msvc_show_includes);
}

#[test]
fn test_parse_arguments_preprocessor_args() {
    let args = sv(&[
        "-c",
        "foo.c",
        "-fabc",
        "-Xmake-dependency",
        "-Xmake-dependency-canonicalize-path-off",
        "-Xmake-dependency-savefile=bar",
        "-Xmake-dependency-target=foo",
        "-o",
        "foo.o",
    ]);
    let ParsedArguments {
        input,
        language,
        depfile: _,
        outputs,
        preprocessor_args,
        msvc_show_includes,
        common_args,
    } = match _parse_arguments(&args) {
        CompilerArguments::Okay(args) => args,
        o => panic!("Got unexpected parse result: {:?}", o),
    };
    assert!(true, "Parsed ok");
    assert_eq!(Some("foo.c"), Some(input.as_str()));
    assert_eq!(Language::C, language);
    assert_eq!(output_for(&outputs, "obj"), Some(&"foo.o".to_string()));
    assert_eq!(1, outputs.len());
    assert_eq!(
        sv(&[
            "-Xmake-dependency",
            "-Xmake-dependency-canonicalize-path-off",
            "-Xmake-dependency-savefile=bar",
            "-Xmake-dependency-target=foo",
        ]),
        preprocessor_args
    );
    assert_eq!(sv(&["-fabc"]), common_args);
    assert!(!msvc_show_includes);
}

#[test]
fn test_parse_arguments_empty_args() {
    assert_eq!(CompilerArguments::NotCompilation, _parse_arguments(&vec![]));
}

#[test]
fn test_parse_arguments_not_compile() {
    assert_eq!(
        CompilerArguments::NotCompilation,
        _parse_arguments(&sv(&["-o", "foo"]))
    );
}

#[test]
fn test_parse_arguments_too_many_inputs() {
    assert_eq!(
        CompilerArguments::CannotCache("multiple input files".to_string(), None),
        _parse_arguments(&sv(&["-c", "foo.c", "-o", "foo.o", "bar.c"]))
    );
}

#[test]
fn test_parse_arguments_link() {
    assert_eq!(
        CompilerArguments::NotCompilation,
        _parse_arguments(&sv(&["-shared", "foo.o", "-o", "foo.so", "bar.o"]))
    );
}

#[test]
fn test_parse_dry_run() {
    assert_eq!(
        CompilerArguments::CannotCache("-##".to_string(), None),
        _parse_arguments(&sv(&["-##", "-c", "foo.c"]))
    );

    assert_eq!(
        CompilerArguments::CannotCache("-###".to_string(), None),
        _parse_arguments(&sv(&["-###", "-c", "foo.c"]))
    );
}

#[test]
fn test_at_signs() {
    let cannot_cache = CompilerArguments::CannotCache("-@".to_string(), None);
    assert_eq!(_parse_arguments(&sv(&["-@@foo"])), cannot_cache);
    assert_eq!(_parse_arguments(&sv(&["-@E=foo"])), cannot_cache);
    assert_eq!(_parse_arguments(&sv(&["-@E+foo"])), cannot_cache);
    assert_eq!(_parse_arguments(&sv(&["-@O=foo"])), cannot_cache);
    assert_eq!(_parse_arguments(&sv(&["-@O+foo"])), cannot_cache);
}

#[test]
fn test_at_signs_file_not_readable() {
    // No file named foo exists in the snapshot.
    assert_eq!(
        _parse_arguments(&sv(&["-@foo"])),
        CompilerArguments::CannotCache("-@".to_string(), None)
    );
}

#[test]
fn test_at_signs_file() {
    let mut fs = FileStore::new();
    fs.add("./foo".to_string(), "-c foo.c -o foo.o".to_string());
    let ParsedArguments {
        input,
        language,
        depfile: _,
        outputs,
        preprocessor_args,
        msvc_show_includes,
        common_args,
    } = match parse_with_fs(&["-@foo"], &fs) {
        CompilerArguments::Okay(args) => args,
        o => panic!("Got unexpected parse result: {:?}", o),
    };
    assert!(true, "Parsed ok");
    assert_eq!(Some("foo.c"), Some(input.as_str()));
    assert_eq!(Language::C, language);
    assert_eq!(output_for(&outputs, "obj"), Some(&"foo.o".to_string()));
    assert_eq!(1, outputs.len());
    assert!(preprocessor_args.is_empty());
    assert!(common_args.is_empty());
    assert!(!msvc_show_includes);
}

#[test]
fn test_compile_simple() {
    let parsed_args = ParsedArguments {
        input: "foo.c".to_string(),
        language: Language::C,
        depfile: None,
        outputs: vec![("obj".to_string(), "foo.o".to_string())],
        preprocessor_args: vec![],
        common_args: vec![],
        msvc_show_includes: false,
    };
    let (command, cacheable) =
        generate_compile_commands("diab", &parsed_args, "/tmp", &vec![]).unwrap();
    assert_eq!(Cacheable::Yes, cacheable);
    assert_eq!("diab", command.executable);
    assert_eq!(sv(&["-c", "foo.c", "-o", "foo.o"]), command.arguments);
    assert_eq!("/tmp", command.cwd);
    assert!(command.env_vars.is_empty());
}

// --- the indirection passing through on quoted contents ---

#[test]
fn test_at_signs_file_with_quotes() {
    let mut fs = FileStore::new();
    fs.add("./foo".to_string(), "-c 'foo.c' -o foo.o".to_string());
    assert_eq!(
        parse_with_fs(&["-@foo"], &fs),
        CompilerArguments::CannotCache("-@".to_string(), None)
    );
}

#[test]
fn test_at_signs_same_as_direct() {
    let mut fs = FileStore::new();
    fs.add("./foo".to_string(), "-c foo.c -o foo.o".to_string());
    assert_eq!(
        parse_with_fs(&["-@foo"], &fs),
        parse_with_fs(&["-c", "foo.c", "-o", "foo.o"], &fs)
    );
}

#[test]
fn test_at_signs_recursive_file() {
    let mut fs = FileStore::new();
    fs.add("./a".to_string(), "-c -@b".to_string());
    fs.add("./b".to_string(), "foo.c -o foo.o".to_string());
    assert_eq!(
        parse_with_fs(&["-@a"], &fs),
        parse_with_fs(&["-c", "foo.c", "-o", "foo.o"], &fs)
    );
}

#[test]
fn test_at_signs_self_referential_file_hits_budget() {
    // A self-referential indirection stops at the substitution budget and the
    // marker then passes through unexpanded.
    let mut fs = FileStore::new();
    fs.add("./loop".to_string(), "-@loop".to_string());
    assert_eq!(
        parse_with_fs(&["-@loop"], &fs),
        CompilerArguments::CannotCache("-@".to_string(), None)
    );
}

// --- dry-run class flags and the bare dash ---

#[test]
fn test_parse_bare_dash() {
    assert_eq!(
        CompilerArguments::CannotCache("-".to_string(), None),
        _parse_arguments(&sv(&["-c", "foo.c", "-"]))
    );
}

// --- error variants ---

#[test]
fn test_parse_arguments_no_input() {
    assert_eq!(
        CompilerArguments::CannotCache("no input file".to_string(), None),
        _parse_arguments(&sv(&["-c", "-o", "foo.o"]))
    );
}

#[test]
fn test_parse_arguments_unknown_language() {
    assert_eq!(
        CompilerArguments::CannotCache("unknown source language".to_string(), None),
        _parse_arguments(&sv(&["-c", "foo.zz"]))
    );
}

#[test]
fn test_parse_arguments_missing_value() {
    assert_eq!(
        CompilerArguments::CannotCache("argument parse".to_string(), Some("-o".to_string())),
        _parse_arguments(&sv(&["-c", "foo.c", "-o"]))
    );
}

#[test]
fn test_parse_arguments_at_value() {
    assert_eq!(
        CompilerArguments::CannotCache("-@".to_string(), None),
        _parse_arguments(&sv(&["-c", "foo.c", "-o", "@lst"]))
    );
}

#[test]
fn test_parse_arguments_at_value_separable() {
    assert_eq!(
        CompilerArguments::CannotCache("-@".to_string(), None),
        _parse_arguments(&sv(&["-c", "foo.c", "-I", "@dir"]))
    );
}

#[test]
fn test_parse_arguments_at_value_concatenated() {
    // The guard holds under every attachment style, a fully concatenated
    // spelling included.
    assert_eq!(
        CompilerArguments::CannotCache("-@".to_string(), None),
        _parse_arguments(&sv(&["-c", "foo.c", "-D@foo"]))
    );
    assert_eq!(
        CompilerArguments::CannotCache("-@".to_string(), None),
        _parse_arguments(&sv(&["-c", "foo.c", "-Xmake-dependency-target=@x"]))
    );
}

#[test]
fn test_generate_compile_commands_missing_obj() {
    let parsed_args = ParsedArguments {
        input: "foo.c".to_string(),
        language: Language::C,
        depfile: None,
        outputs: vec![],
        preprocessor_args: vec![],
        common_args: vec![],
        msvc_show_includes: false,
    };
    let err = generate_compile_commands("diab", &parsed_args, ".", &vec![]).unwrap_err();
    assert_eq!("Missing object file output", err);
}

// --- the commands rebuilt from a parsed invocation ---

#[test]
fn test_commands_from_mixed_flags() {
    let args = sv(&["-c", "foo.c", "-fabc", "-I", "include", "-include", "file", "-o", "foo.o"]);
    let parsed = match _parse_arguments(&args) {
        CompilerArguments::Okay(p) => p,
        o => panic!("Got unexpected parse result: {:?}", o),
    };
    let env = vec![("HOME".to_string(), "/home".to_string())];
    let (command, cacheable) = generate_compile_commands("diab", &parsed, ".", &env).unwrap();
    assert_eq!(Cacheable::Yes, cacheable);
    assert_eq!(
        sv(&["-c", "foo.c", "-o", "foo.o", "-Iinclude", "-include", "file", "-fabc"]),
        command.arguments
    );
    let pre = preprocess("diab", &parsed, ".", &env);
    assert_eq!(
        sv(&["-E", "foo.c", "-Iinclude", "-include", "file", "-fabc"]),
        pre.arguments
    );
    assert_eq!("diab", pre.executable);
    assert_eq!(".", pre.cwd);
    assert_eq!(env, pre.env_vars);
}

// --- normalization ---

#[test]
fn test_normalization_idempotent() {
    // A canonical spelling parses back to the same canonical spelling.
    let first = match _parse_arguments(&sv(&["-c", "foo.c", "-I", "include"])) {
        CompilerArguments::Okay(p) => p,
        o => panic!("Got unexpected parse result: {:?}", o),
    };
    assert_eq!(sv(&["-Iinclude"]), first.preprocessor_args);
    let again = match _parse_arguments(&sv(&["-c", "foo.c", "-Iinclude"])) {
        CompilerArguments::Okay(p) => p,
        o => panic!("Got unexpected parse result: {:?}", o),
    };
    assert_eq!(first.preprocessor_args, again.preprocessor_args);
}

#[test]
fn test_normalize_tokens_spellings() {
    let spread = Argument::WithValue(
        "-D".to_string(),
        "FOO=1".to_string(),
        ArgData::PreprocessorArgument,
        ArgDisposition::CanBeSeparated(None),
    );
    assert_eq!(sv(&["-DFOO=1"]), normalize_tokens(&spread));
    let attached = Argument::WithValue(
        "-include".to_string(),
        "file".to_string(),
        ArgData::PreprocessorArgumentPath,
        ArgDisposition::CanBeConcatenated(None),
    );
    assert_eq!(sv(&["-include", "file"]), normalize_tokens(&attached));
    let fixed = Argument::WithValue(
        "-Xmake-dependency-savefile".to_string(),
        "bar".to_string(),
        ArgData::PreprocessorArgumentPath,
        ArgDisposition::Concatenated(Some('=')),
    );
    assert_eq!(sv(&["-Xmake-dependency-savefile=bar"]), normalize_tokens(&fixed));
}

// --- bucket membership by tag, order kept ---

#[test]
fn test_buckets_keep_relative_order() {
    let args = sv(&["-c", "foo.c", "-t", "ppc", "-DX", "-l", "m", "-UY", "-W", "w"]);
    let parsed = match _parse_arguments(&args) {
        CompilerArguments::Okay(p) => p,
        o => panic!("Got unexpected parse result: {:?}", o),
    };
    // -D and -U share a tag: both in the preprocessor bucket, in order.
    assert_eq!(sv(&["-DX", "-UY"]), parsed.preprocessor_args);
    // -t, -l and -W share a tag: all in the common bucket, in order.
    assert_eq!(sv(&["-t", "ppc", "-l", "m", "-W", "w"]), parsed.common_args);
}

// --- the languages of the extension table ---

#[test]
fn test_language_from_extensions() {
    assert_eq!(Some(Language::C), Language::from_file_name("foo.c"));
    assert_eq!(Some(Language::Cxx), Language::from_file_name("foo.cpp"));
    assert_eq!(Some(Language::Cxx), Language::from_file_name("foo.cxx"));
    assert_eq!(Some(Language::ObjectiveC), Language::from_file_name("foo.m"));
    assert_eq!(Some(Language::ObjectiveCxx), Language::from_file_name("foo.mm"));
    assert_eq!(None, Language::from_file_name("foo.zz"));
    assert_eq!(None, Language::from_file_name("foo"));
}

#[test]
fn test_objective_c_input() {
    match _parse_arguments(&sv(&["-c", "foo.m"])) {
        CompilerArguments::Okay(p) => {
            assert_eq!(Language::ObjectiveC, p.language);
            assert_eq!(output_for(&p.outputs, "obj"), Some(&"foo.o".to_string()));
        },
        o => panic!("Got unexpected parse result: {:?}", o),
    }
}

#[test]
fn test_default_output_keeps_directories() {
    match _parse_arguments(&sv(&["-c", "dir/foo.tar.c"])) {
        CompilerArguments::Okay(p) => {
            assert_eq!(output_for(&p.outputs, "obj"), Some(&"dir/foo.tar.o".to_string()));
        },
        o => panic!("Got unexpected parse result: {:?}", o),
    }
}

// --- the frontend and the expander driver ---

#[test]
fn test_diab_frontend() {
    let diab = Diab;
    assert_eq!(CCompilerKind::Diab, diab.kind());
    let fs = FileStore::new();
    match diab.parse_arguments(&sv(&["-c", "foo.c"]), ".", &fs) {
        CompilerArguments::Okay(p) => {
            let (_, cacheable) = diab
                .generate_compile_commands("diab", &p, ".", &vec![])
                .unwrap();
            assert_eq!(Cacheable::Yes, cacheable);
            let pre = diab.preprocess("diab", &p, ".", &vec![]);
            assert_eq!(sv(&["-E", "foo.c"]), pre.arguments);
        },
        o => panic!("Got unexpected parse result: {:?}", o),
    }
}

#[test]
fn test_expander_poll_and_supply() {
    let mut it = ExpandAtArgs::new(".", &sv(&["-@args", "tail"]));
    match it.poll() {
        ExpandStep::Need { path, original } => {
            assert_eq!("./args", path);
            assert_eq!("-@args", original);
            it.supply(original, Some("x  y".to_string()));
        },
        o => panic!("Got unexpected expansion step: {:?}", o),
    }
    match it.poll() {
        ExpandStep::Tok(t) => assert_eq!("x", t),
        o => panic!("Got unexpected expansion step: {:?}", o),
    }
    match it.poll() {
        ExpandStep::Tok(t) => assert_eq!("y", t),
        o => panic!("Got unexpected expansion step: {:?}", o),
    }
    match it.poll() {
        ExpandStep::Tok(t) => assert_eq!("tail", t),
        o => panic!("Got unexpected expansion step: {:?}", o),
    }
    assert!(matches!(it.poll(), ExpandStep::End));
}

#[test]
fn test_expander_supply_failure_forces_token_through() {
    let mut it = ExpandAtArgs::new(".", &sv(&["-@gone"]));
    match it.poll() {
        ExpandStep::Need { original, .. } => it.supply(original, None),
        o => panic!("Got unexpected expansion step: {:?}", o),
    }
    match it.poll() {
        ExpandStep::Tok(t) => assert_eq!("-@gone", t),
        o => panic!("Got unexpected expansion step: {:?}", o),
    }
    assert!(matches!(it.poll(), ExpandStep::End));
}
