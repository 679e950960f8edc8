use vstd::prelude::*;
use crate::config::{
    build_spec, extra_argument_error, missing_value_error, option_args, parse_args, program_name,
    usage_text, ConfigView,
};

verus! {

/// The words that the command line reads as options rather than as paths.
pub open spec fn is_option_word(arg: Seq<char>) -> bool {
    ||| arg == "-h"@
    ||| arg == "--help"@
    ||| arg == "-v"@
    ||| arg == "--verbose"@
    ||| arg == "--zarr"@
    ||| arg == "--vector"@
}

proof fn lemma_suffix_of_concat(prefix: Seq<char>, u: Seq<char>)
    ensures
        u.is_suffix_of(prefix + u),
{
    assert(u =~= (prefix + u).subrange(prefix.len() as int, (prefix + u).len() as int));
}

proof fn lemma_parse_errors_end_with_usage(
    rest: Seq<Seq<char>>,
    program: Seq<char>,
    zarr: Option<Seq<char>>,
    vector: Option<Seq<char>>,
    verbose: bool,
)
    ensures
        parse_args(rest, program, zarr, vector, verbose) matches Err(e) ==> usage_text(program).is_suffix_of(e),
    decreases rest.len(),
{
    let u = usage_text(program);
    if rest.len() == 0 {
        lemma_suffix_of_concat("Missing Zarr path\n"@, u);
        lemma_suffix_of_concat("Missing vector path \n"@, u);
    } else {
        let arg = rest[0];
        let tail = rest.drop_first();
        lemma_suffix_of_concat(Seq::<char>::empty(), u);
        assert(Seq::<char>::empty() + u =~= u);
        lemma_suffix_of_concat("Expected a value after "@ + "--zarr"@ + "\n"@, u);
        assert("Expected a value after "@ + "--zarr"@ + "\n"@ + u =~= missing_value_error("--zarr"@, program));
        lemma_suffix_of_concat("Expected a value after "@ + "--vector"@ + "\n"@, u);
        assert("Expected a value after "@ + "--vector"@ + "\n"@ + u =~= missing_value_error("--vector"@, program));
        lemma_suffix_of_concat("Unexpected extra argument: "@ + arg + "\n"@, u);
        assert("Unexpected extra argument: "@ + arg + "\n"@ + u =~= extra_argument_error(arg, program));
        lemma_parse_errors_end_with_usage(tail, program, zarr, vector, true);
        lemma_parse_errors_end_with_usage(tail, program, Some(arg), vector, verbose);
        lemma_parse_errors_end_with_usage(tail, program, zarr, Some(arg), verbose);
        if tail.len() > 0 {
            lemma_parse_errors_end_with_usage(tail.drop_first(), program, Some(tail[0]), vector, verbose);
            lemma_parse_errors_end_with_usage(tail.drop_first(), program, zarr, Some(tail[0]), verbose);
        }
    }
}

/// Every error that `Config::build` reports ends with the help text for the
/// program, so a refused command line always shows how to use the program.
pub proof fn law_errors_end_with_usage(args: Seq<Seq<char>>)
    ensures
        build_spec(args) matches Err(e) ==> usage_text(program_name(args)).is_suffix_of(e),
{
    lemma_parse_errors_end_with_usage(option_args(args), program_name(args), None, None, false);
}

/// Asking for help first is answered with exactly the help text, whatever follows.
pub proof fn law_help_first(program: Seq<char>, help: Seq<char>, rest: Seq<Seq<char>>)
    requires
        help == "-h"@ || help == "--help"@,
    ensures
        build_spec(seq![program, help] + rest) == Err::<ConfigView, Seq<char>>(usage_text(program)),
{
    let args = seq![program, help] + rest;
    assert(option_args(args)[0] == help);
}

/// The two documented forms, positional and with `--zarr` / `--vector`, read the
/// same two paths, as long as neither path is itself an option word.
pub proof fn law_positional_and_flag_forms_agree(program: Seq<char>, zarr: Seq<char>, vector: Seq<char>)
    requires
        !is_option_word(zarr),
        !is_option_word(vector),
    ensures
        build_spec(seq![program, zarr, vector]) == Ok::<ConfigView, Seq<char>>(
            ConfigView { zarr_path: zarr, vector_path: vector, verbose: false },
        ),
        build_spec(seq![program, "--zarr"@, zarr, "--vector"@, vector]) == build_spec(
            seq![program, zarr, vector],
        ),
{
    reveal_with_fuel(parse_args, 6);
    lemma_option_words_differ();
    let a = seq![program, zarr, vector];
    let r = option_args(a);
    assert(r =~= seq![zarr, vector]);
    assert(r.drop_first() =~= seq![vector]);
    assert(r.drop_first().drop_first() =~= Seq::<Seq<char>>::empty());
    let b = seq![program, "--zarr"@, zarr, "--vector"@, vector];
    let s = option_args(b);
    assert(s =~= seq!["--zarr"@, zarr, "--vector"@, vector]);
    assert(s.drop_first() =~= seq![zarr, "--vector"@, vector]);
    assert(s.drop_first().drop_first() =~= seq!["--vector"@, vector]);
    assert(s.drop_first().drop_first().drop_first() =~= seq![vector]);
    assert(s.drop_first().drop_first().drop_first().drop_first() =~= Seq::<Seq<char>>::empty());
}

/// The result of a parse with the verbose flag switched on.
pub open spec fn with_verbose(r: Result<ConfigView, Seq<char>>) -> Result<ConfigView, Seq<char>> {
    match r {
        Ok(c) => Ok(ConfigView { zarr_path: c.zarr_path, vector_path: c.vector_path, verbose: true }),
        Err(e) => Err(e),
    }
}

proof fn lemma_parse_verbose(
    rest: Seq<Seq<char>>,
    program: Seq<char>,
    zarr: Option<Seq<char>>,
    vector: Option<Seq<char>>,
    verbose: bool,
)
    ensures
        parse_args(rest, program, zarr, vector, true) == with_verbose(
            parse_args(rest, program, zarr, vector, verbose),
        ),
    decreases rest.len(),
{
    if rest.len() > 0 {
        let arg = rest[0];
        let tail = rest.drop_first();
        lemma_parse_verbose(tail, program, zarr, vector, verbose);
        lemma_parse_verbose(tail, program, Some(arg), vector, verbose);
        lemma_parse_verbose(tail, program, zarr, Some(arg), verbose);
        lemma_parse_verbose(tail, program, zarr, vector, true);
        if tail.len() > 0 {
            lemma_parse_verbose(tail.drop_first(), program, Some(tail[0]), vector, verbose);
            lemma_parse_verbose(tail.drop_first(), program, zarr, Some(tail[0]), verbose);
        }
    }
}

/// Putting `-v` or `--verbose` first changes nothing but the verbose flag: the
/// same paths are read and the same errors reported.
pub proof fn law_verbose_changes_only_verbose(program: Seq<char>, flag: Seq<char>, rest: Seq<Seq<char>>)
    requires
        flag == "-v"@ || flag == "--verbose"@,
    ensures
        build_spec(seq![program, flag] + rest) == with_verbose(build_spec(seq![program] + rest)),
{
    reveal_strlit("-h");
    reveal_strlit("--help");
    reveal_strlit("-v");
    reveal_strlit("--verbose");
    assert("-v"@[1] != "-h"@[1]);
    assert("-v"@.len() != "--help"@.len());
    assert("--verbose"@.len() != "--help"@.len());
    assert("--verbose"@.len() != "-h"@.len());
    assert(flag != "-h"@ && flag != "--help"@);
    let a = seq![program, flag] + rest;
    let b = seq![program] + rest;
    assert(option_args(a)[0] == flag);
    assert(option_args(a).drop_first() =~= rest);
    assert(option_args(b) =~= rest);
    lemma_parse_verbose(rest, program, None, None, false);
}

/// A flag that takes the next argument as its value.
pub open spec fn takes_value(arg: Seq<char>) -> bool {
    arg == "--zarr"@ || arg == "--vector"@
}

/// The arguments of `rest` that are read as words, options or paths, in order:
/// an argument right after `--zarr` or `--vector` is that flag's value and is
/// not read as a word.
pub open spec fn scanned(rest: Seq<Seq<char>>) -> Seq<Seq<char>>
    decreases rest.len(),
{
    if rest.len() == 0 {
        Seq::<Seq<char>>::empty()
    } else if takes_value(rest[0]) && rest.len() >= 2 {
        seq![rest[0]] + scanned(rest.skip(2))
    } else {
        seq![rest[0]] + scanned(rest.drop_first())
    }
}

/// The values given to `flag` in `rest`, in order.
pub open spec fn flag_values(rest: Seq<Seq<char>>, flag: Seq<char>) -> Seq<Seq<char>>
    decreases rest.len(),
{
    if rest.len() == 0 {
        Seq::<Seq<char>>::empty()
    } else if takes_value(rest[0]) && rest.len() >= 2 {
        if rest[0] == flag {
            seq![rest[1]] + flag_values(rest.skip(2), flag)
        } else {
            flag_values(rest.skip(2), flag)
        }
    } else {
        flag_values(rest.drop_first(), flag)
    }
}

/// The words of `rest` that are not options: the positional paths, in order.
pub open spec fn positionals(rest: Seq<Seq<char>>) -> Seq<Seq<char>>
    decreases rest.len(),
{
    if rest.len() == 0 {
        Seq::<Seq<char>>::empty()
    } else if takes_value(rest[0]) && rest.len() >= 2 {
        positionals(rest.skip(2))
    } else if is_option_word(rest[0]) {
        positionals(rest.drop_first())
    } else {
        seq![rest[0]] + positionals(rest.drop_first())
    }
}

/// A `--zarr` flag with its value is read before any positional path.
pub open spec fn zarr_flag_first(rest: Seq<Seq<char>>) -> bool
    decreases rest.len(),
{
    if rest.len() == 0 {
        false
    } else if takes_value(rest[0]) && rest.len() >= 2 {
        rest[0] == "--zarr"@ || zarr_flag_first(rest.skip(2))
    } else if is_option_word(rest[0]) {
        zarr_flag_first(rest.drop_first())
    } else {
        false
    }
}

proof fn lemma_option_words_differ()
    ensures
        "-h"@ != "--help"@,
        "-h"@ != "-v"@,
        "-h"@ != "--verbose"@,
        "-h"@ != "--zarr"@,
        "-h"@ != "--vector"@,
        "--help"@ != "-v"@,
        "--help"@ != "--verbose"@,
        "--help"@ != "--zarr"@,
        "--help"@ != "--vector"@,
        "-v"@ != "--verbose"@,
        "-v"@ != "--zarr"@,
        "-v"@ != "--vector"@,
        "--verbose"@ != "--zarr"@,
        "--verbose"@ != "--vector"@,
        "--zarr"@ != "--vector"@,
{
    reveal_strlit("-h");
    reveal_strlit("--help");
    reveal_strlit("-v");
    reveal_strlit("--verbose");
    reveal_strlit("--zarr");
    reveal_strlit("--vector");
    assert("-h"@[1] != "-v"@[1]);
    assert("--help"@[2] != "--zarr"@[2]);
    assert("--help"@[2] != "--vector"@[2]);
    assert("--zarr"@[2] != "--vector"@[2]);
    assert("--verbose"@.len() != "--zarr"@.len());
    assert("--verbose"@[4] != "--vector"@[4]);
}

proof fn lemma_contains_front(x: Seq<char>, s: Seq<Seq<char>>, w: Seq<char>)
    ensures
        (seq![x] + s).contains(w) <==> (x == w || s.contains(w)),
{
    let t = seq![x] + s;
    if t.contains(w) {
        let i = choose|i: int| 0 <= i < t.len() && t[i] == w;
        if i > 0 {
            assert(s[i - 1] == w);
        }
    }
    if x == w {
        assert(t[0] == w);
    }
    if s.contains(w) {
        let i = choose|i: int| 0 <= i < s.len() && s[i] == w;
        assert(t[i + 1] == w);
    }
}

/// What a successful reading yields, from the arguments themselves:
/// - verbose is on when it was on already or `-v` / `--verbose` is read as a word;
/// - the raster store path is the last `--zarr` value, or else the path already
///   known, or else the first positional path;
/// - the vector path is the last `--vector` value, or else the path already
///   known, or else the first positional path read while the raster store path
///   is known (the first positional when that path was already known or a
///   `--zarr` flag comes before any positional, the second otherwise).
proof fn lemma_parse_result(
    rest: Seq<Seq<char>>,
    program: Seq<char>,
    zarr: Option<Seq<char>>,
    vector: Option<Seq<char>>,
    verbose: bool,
)
    ensures
        parse_args(rest, program, zarr, vector, verbose) matches Ok(c) ==> {
            let fz = flag_values(rest, "--zarr"@);
            let fv = flag_values(rest, "--vector"@);
            let pos = positionals(rest);
            &&& c.verbose == (verbose || scanned(rest).contains("-v"@) || scanned(rest).contains("--verbose"@))
            &&& fz.len() == 0 && zarr is None ==> pos.len() >= 1
            &&& c.zarr_path == (if fz.len() > 0 {
                fz.last()
            } else if zarr is Some {
                zarr->0
            } else {
                pos[0]
            })
            &&& fv.len() == 0 && vector is None && (zarr is Some || zarr_flag_first(rest)) ==> pos.len() >= 1
            &&& fv.len() == 0 && vector is None && !(zarr is Some || zarr_flag_first(rest)) ==> pos.len() >= 2
            &&& c.vector_path == (if fv.len() > 0 {
                fv.last()
            } else if vector is Some {
                vector->0
            } else if zarr is Some || zarr_flag_first(rest) {
                pos[0]
            } else {
                pos[1]
            })
        },
    decreases rest.len(),
{
    lemma_option_words_differ();
    if rest.len() == 0 {
        return;
    }
    let arg = rest[0];
    let tail = rest.drop_first();
    if arg == "-h"@ || arg == "--help"@ {
        return;
    }
    if arg == "-v"@ || arg == "--verbose"@ {
        lemma_parse_result(tail, program, zarr, vector, true);
        lemma_contains_front(arg, scanned(tail), "-v"@);
        lemma_contains_front(arg, scanned(tail), "--verbose"@);
        return;
    }
    if takes_value(arg) {
        if tail.len() == 0 {
            return;
        }
        let after = tail.drop_first();
        assert(rest.skip(2) =~= after);
        assert(rest[1] == tail[0]);
        lemma_contains_front(arg, scanned(after), "-v"@);
        lemma_contains_front(arg, scanned(after), "--verbose"@);
        if arg == "--zarr"@ {
            lemma_parse_result(after, program, Some(tail[0]), vector, verbose);
            let fz = flag_values(after, "--zarr"@);
            assert(flag_values(rest, "--zarr"@) == seq![tail[0]] + fz);
            if fz.len() > 0 {
                assert((seq![tail[0]] + fz).last() == fz.last());
            }
        } else {
            lemma_parse_result(after, program, zarr, Some(tail[0]), verbose);
            let fv = flag_values(after, "--vector"@);
            assert(flag_values(rest, "--vector"@) == seq![tail[0]] + fv);
            if fv.len() > 0 {
                assert((seq![tail[0]] + fv).last() == fv.last());
            }
        }
        return;
    }
    assert(!is_option_word(arg));
    lemma_contains_front(arg, scanned(tail), "-v"@);
    lemma_contains_front(arg, scanned(tail), "--verbose"@);
    let pos = positionals(tail);
    assert(positionals(rest) == seq![arg] + pos);
    if zarr is None {
        lemma_parse_result(tail, program, Some(arg), vector, verbose);
        assert((seq![arg] + pos)[0] == arg);
        if pos.len() >= 1 {
            assert((seq![arg] + pos)[1] == pos[0]);
        }
    } else if vector is None {
        lemma_parse_result(tail, program, zarr, Some(arg), verbose);
        assert((seq![arg] + pos)[0] == arg);
    }
}

/// Which arguments a successful command line takes:
/// - verbose is on exactly when `-v` or `--verbose` is read as a word, not as
///   the value of `--zarr` or `--vector`;
/// - the raster store path is the last `--zarr` value, or, with no `--zarr`
///   flag, the first positional path;
/// - the vector path is the last `--vector` value, or, with no `--vector`
///   flag, the first positional path when a `--zarr` flag comes before any
///   positional path, and the second positional path otherwise.
pub proof fn law_paths_and_flag_of_a_command_line(args: Seq<Seq<char>>)
    ensures
        build_spec(args) matches Ok(c) ==> {
            let rest = option_args(args);
            let fz = flag_values(rest, "--zarr"@);
            let fv = flag_values(rest, "--vector"@);
            let pos = positionals(rest);
            &&& c.verbose == (scanned(rest).contains("-v"@) || scanned(rest).contains("--verbose"@))
            &&& c.zarr_path == (if fz.len() > 0 { fz.last() } else { pos[0] })
            &&& fz.len() == 0 ==> pos.len() >= 1
            &&& c.vector_path == (if fv.len() > 0 {
                fv.last()
            } else if zarr_flag_first(rest) {
                pos[0]
            } else {
                pos[1]
            })
            &&& fv.len() == 0 ==> pos.len() >= (if zarr_flag_first(rest) { 1int } else { 2int })
        },
{
    lemma_parse_result(option_args(args), program_name(args), None, None, false);
}

/// What reading `pre` from the given paths and flag leaves, when it raises no
/// error and leaves no flag waiting for its value: the paths and flag then.
pub open spec fn read_prefix(
    pre: Seq<Seq<char>>,
    zarr: Option<Seq<char>>,
    vector: Option<Seq<char>>,
    verbose: bool,
) -> Option<(Option<Seq<char>>, Option<Seq<char>>, bool)>
    decreases pre.len(),
{
    if pre.len() == 0 {
        Some((zarr, vector, verbose))
    } else {
        let arg = pre[0];
        let tail = pre.drop_first();
        if arg == "-h"@ || arg == "--help"@ {
            None
        } else if arg == "-v"@ || arg == "--verbose"@ {
            read_prefix(tail, zarr, vector, true)
        } else if arg == "--zarr"@ {
            if tail.len() == 0 { None } else { read_prefix(tail.drop_first(), Some(tail[0]), vector, verbose) }
        } else if arg == "--vector"@ {
            if tail.len() == 0 { None } else { read_prefix(tail.drop_first(), zarr, Some(tail[0]), verbose) }
        } else if zarr is None {
            read_prefix(tail, Some(arg), vector, verbose)
        } else if vector is None {
            read_prefix(tail, zarr, Some(arg), verbose)
        } else {
            None
        }
    }
}

/// Reading a command line in two parts: when the first part reads without an
/// error and leaves no flag waiting, the rest is read from where it left off.
pub proof fn law_read_in_parts(
    pre: Seq<Seq<char>>,
    rest: Seq<Seq<char>>,
    program: Seq<char>,
    zarr: Option<Seq<char>>,
    vector: Option<Seq<char>>,
    verbose: bool,
)
    ensures
        read_prefix(pre, zarr, vector, verbose) matches Some((z, v, b)) ==> parse_args(
            pre + rest,
            program,
            zarr,
            vector,
            verbose,
        ) == parse_args(rest, program, z, v, b),
    decreases pre.len(),
{
    if pre.len() == 0 {
        assert(pre + rest =~= rest);
        return;
    }
    let s = pre + rest;
    let arg = pre[0];
    let tail = pre.drop_first();
    assert(s[0] == arg);
    assert(s.drop_first() =~= tail + rest);
    if arg == "-h"@ || arg == "--help"@ {
    } else if arg == "-v"@ || arg == "--verbose"@ {
        law_read_in_parts(tail, rest, program, zarr, vector, true);
    } else if arg == "--zarr"@ || arg == "--vector"@ {
        if tail.len() > 0 {
            assert((tail + rest)[0] == tail[0]);
            assert((tail + rest).drop_first() =~= tail.drop_first() + rest);
            law_read_in_parts(tail.drop_first(), rest, program, Some(tail[0]), vector, verbose);
            law_read_in_parts(tail.drop_first(), rest, program, zarr, Some(tail[0]), verbose);
        }
    } else {
        law_read_in_parts(tail, rest, program, Some(arg), vector, verbose);
        law_read_in_parts(tail, rest, program, zarr, Some(arg), verbose);
    }
}

/// Asking for help is answered with exactly the help text, wherever the help
/// word is read: once the arguments before it read without an error and leave
/// no flag waiting for its value, nothing after it is looked at.
pub proof fn law_help_anywhere(
    program: Seq<char>,
    pre: Seq<Seq<char>>,
    help: Seq<char>,
    post: Seq<Seq<char>>,
)
    requires
        help == "-h"@ || help == "--help"@,
        read_prefix(pre, None, None, false) is Some,
    ensures
        build_spec(seq![program] + pre + seq![help] + post) == Err::<ConfigView, Seq<char>>(
            usage_text(program),
        ),
{
    let args = seq![program] + pre + seq![help] + post;
    assert(option_args(args) =~= pre + (seq![help] + post));
    assert(program_name(args) == program);
    law_read_in_parts(pre, seq![help] + post, program, None, None, false);
    assert((seq![help] + post)[0] == help);
}

/// The help text starts with `Usage:` and then the two ways to call the
/// program, each on its own line, indented by four spaces; it lists the
/// `-v, --verbose` and `-h, --help` options.
pub proof fn law_usage_shape(program: Seq<char>)
    ensures
        usage_text(program).take(11) == "Usage:\n    "@,
        usage_text(program).subrange(11int, 11 + program.len() as int) == program,
        usage_text(program).subrange(11 + program.len() as int, 11 + program.len() as int + 41)
            == " [OPTIONS] <ZARR_PATH> <VECTOR_PATH>\n    "@,
        usage_text(program).subrange(11 + 2 * program.len() as int + 41, 11 + 2 * program.len() as int + 41 + 41)
            == " [OPTIONS] --zarr <PATH> --vector <PATH>\n"@,
        usage_text(program).subrange(11 + 2 * program.len() as int + 41 + 184, 11 + 2 * program.len() as int + 41 + 197)
            == "-v, --verbose"@,
        usage_text(program).subrange(11 + 2 * program.len() as int + 41 + 231, 11 + 2 * program.len() as int + 41 + 241)
            == "-h, --help"@,
{
    reveal_strlit("-v, --verbose");
    reveal_strlit("-h, --help");
    reveal_strlit("Usage:\n    ");
    reveal_strlit(" [OPTIONS] <ZARR_PATH> <VECTOR_PATH>\n    ");
    reveal_strlit(" [OPTIONS] --zarr <PATH> --vector <PATH>\n");
    reveal_strlit(" [OPTIONS] --zarr <PATH> --vector <PATH>\n\n    Options:\n    --zarr <PATH>      Path to Zarr store directory\n    --vector <PATH>    Path to vector feature (we'll define format soon)\n    -v, --verbose      Extra logging to stderr\n    -h, --help         Show this help\n    ");
    let u = usage_text(program);
    let a = "Usage:\n    "@;
    let b = " [OPTIONS] <ZARR_PATH> <VECTOR_PATH>\n    "@;
    let c = " [OPTIONS] --zarr <PATH> --vector <PATH>\n\n    Options:\n    --zarr <PATH>      Path to Zarr store directory\n    --vector <PATH>    Path to vector feature (we'll define format soon)\n    -v, --verbose      Extra logging to stderr\n    -h, --help         Show this help\n    "@;
    assert(u == a + program + b + program + c);
    assert(u.take(11) =~= a);
    assert(u.subrange(11int, 11 + program.len() as int) =~= program);
    assert(u.subrange(11 + program.len() as int, 11 + program.len() as int + 41) =~= b);
    assert(u.subrange(11 + 2 * program.len() as int + 41, 11 + 2 * program.len() as int + 41 + 41)
        =~= " [OPTIONS] --zarr <PATH> --vector <PATH>\n"@);
    let k = 11 + 2 * program.len() as int + 41;
    assert(u.subrange(k + 184, k + 197) =~= "-v, --verbose"@);
    assert(u.subrange(k + 231, k + 241) =~= "-h, --help"@);
}

} // verus!
