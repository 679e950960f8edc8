use vstd::prelude::*;
use crate::text::str_eq;

verus! {

/// The help text printed for `program`.
pub open spec fn usage_text(program: Seq<char>) -> Seq<char> {
    "Usage:\n    "@ + program + " [OPTIONS] <ZARR_PATH> <VECTOR_PATH>\n    "@ + program
        + " [OPTIONS] --zarr <PATH> --vector <PATH>\n\n    Options:\n    --zarr <PATH>      Path to Zarr store directory\n    --vector <PATH>    Path to vector feature (we'll define format soon)\n    -v, --verbose      Extra logging to stderr\n    -h, --help         Show this help\n    "@
}

/// The settings of one run: where the raster store and the vector file are,
/// and whether to log extra detail.
#[derive(Debug)]
pub struct Config {
    zarr_path: String,
    vector_path: String,
    verbose: bool,
}

/// What a `Config` holds, as plain values.
pub struct ConfigView {
    pub zarr_path: Seq<char>,
    pub vector_path: Seq<char>,
    pub verbose: bool,
}

impl View for Config {
    type V = ConfigView;

    closed spec fn view(&self) -> ConfigView {
        ConfigView { zarr_path: self.zarr_path@, vector_path: self.vector_path@, verbose: self.verbose }
    }
}

/// The error for a flag that is not followed by its value.
pub open spec fn missing_value_error(flag: Seq<char>, program: Seq<char>) -> Seq<char> {
    "Expected a value after "@ + flag + "\n"@ + usage_text(program)
}

/// The error for a positional argument after both paths are known.
pub open spec fn extra_argument_error(arg: Seq<char>, program: Seq<char>) -> Seq<char> {
    "Unexpected extra argument: "@ + arg + "\n"@ + usage_text(program)
}

/// The error when no raster store path was given.
pub open spec fn missing_zarr_error(program: Seq<char>) -> Seq<char> {
    "Missing Zarr path\n"@ + usage_text(program)
}

/// The error when no vector path was given.
pub open spec fn missing_vector_error(program: Seq<char>) -> Seq<char> {
    "Missing vector path \n"@ + usage_text(program)
}

/// Reading the arguments `rest` from left to right, starting from the paths and
/// flag seen so far: what the command line means, or the error it is refused with.
pub open spec fn parse_args(
    rest: Seq<Seq<char>>,
    program: Seq<char>,
    zarr: Option<Seq<char>>,
    vector: Option<Seq<char>>,
    verbose: bool,
) -> Result<ConfigView, Seq<char>>
    decreases rest.len(),
{
    if rest.len() == 0 {
        match zarr {
            None => Err(missing_zarr_error(program)),
            Some(z) => match vector {
                None => Err(missing_vector_error(program)),
                Some(v) => Ok(ConfigView { zarr_path: z, vector_path: v, verbose }),
            },
        }
    } else {
        let arg = rest[0];
        let tail = rest.drop_first();
        if arg == "-h"@ || arg == "--help"@ {
            Err(usage_text(program))
        } else if arg == "-v"@ || arg == "--verbose"@ {
            parse_args(tail, program, zarr, vector, true)
        } else if arg == "--zarr"@ {
            if tail.len() == 0 {
                Err(missing_value_error("--zarr"@, program))
            } else {
                parse_args(tail.drop_first(), program, Some(tail[0]), vector, verbose)
            }
        } else if arg == "--vector"@ {
            if tail.len() == 0 {
                Err(missing_value_error("--vector"@, program))
            } else {
                parse_args(tail.drop_first(), program, zarr, Some(tail[0]), verbose)
            }
        } else if zarr is None {
            parse_args(tail, program, Some(arg), vector, verbose)
        } else if vector is None {
            parse_args(tail, program, zarr, Some(arg), verbose)
        } else {
            Err(extra_argument_error(arg, program))
        }
    }
}

/// The argument at `pos`, which follows `flag`, or the error for a flag given
/// with no value after it.
fn next_or(flag: &str, args: &Vec<String>, pos: usize, program: &str) -> (res: Result<String, String>)
    ensures
        pos < args.len() ==> (res matches Ok(v) && v@ == args[pos as int]@),
        pos >= args.len() ==> (res matches Err(e) && e@ == missing_value_error(flag@, program@)),
{
    if pos < args.len() {
        Ok(args[pos].clone())
    } else {
        let mut e = String::from_str("Expected a value after ");
        e.append(flag);
        e.append("\n");
        let u = Config::usage(program);
        e.append(u.as_str());
        Err(e)
    }
}

/// The program name: the first argument, or "zonalrust" when there is none.
pub open spec fn program_name(args: Seq<Seq<char>>) -> Seq<char> {
    if args.len() == 0 {
        "zonalrust"@
    } else {
        args[0]
    }
}

/// The arguments after the program name.
pub open spec fn option_args(args: Seq<Seq<char>>) -> Seq<Seq<char>> {
    if args.len() == 0 {
        seq![]
    } else {
        args.drop_first()
    }
}

/// What the whole command line `args` (program name first) means.
pub open spec fn build_spec(args: Seq<Seq<char>>) -> Result<ConfigView, Seq<char>> {
    parse_args(option_args(args), program_name(args), None, None, false)
}

impl Config {
    /// Builds the help text for `program`.
    fn usage(program: &str) -> (res: String)
        ensures
            res@ == usage_text(program@),
    {
        let mut s = String::from_str("Usage:\n    ");
        s.append(program);
        s.append(" [OPTIONS] <ZARR_PATH> <VECTOR_PATH>\n    ");
        s.append(program);
        s.append(
            " [OPTIONS] --zarr <PATH> --vector <PATH>\n\n    Options:\n    --zarr <PATH>      Path to Zarr store directory\n    --vector <PATH>    Path to vector feature (we'll define format soon)\n    -v, --verbose      Extra logging to stderr\n    -h, --help         Show this help\n    ",
        );
        s
    }

    /// Reads the command line `args`, program name first.
    pub fn build(args: Vec<String>) -> (res: Result<Config, String>)
        ensures
            match res {
                Ok(cfg) => build_spec(args.deep_view()) == Ok::<ConfigView, Seq<char>>(cfg@),
                Err(e) => build_spec(args.deep_view()) == Err::<ConfigView, Seq<char>>(e@),
            },
    {
        let ghost dv = args.deep_view();
        let n = args.len();
        let program: String = if n == 0 {
            String::from_str("zonalrust")
        } else {
            args[0].clone()
        };
        let mut zarr: Option<String> = None;
        let mut vector: Option<String> = None;
        let mut verbose = false;
        let mut i: usize = if n == 0 { 0 } else { 1 };
        assert(dv.skip(i as int) =~= option_args(dv));
        while i < n
            invariant
                n == args.len(),
                dv == args.deep_view(),
                program@ == program_name(dv),
                1 <= i <= n || (i == 0 && n == 0),
                build_spec(dv) == parse_args(dv.skip(i as int), program@, zarr.deep_view(), vector.deep_view(), verbose),
            decreases n - i,
        {
            let ghost rest = dv.skip(i as int);
            assert(rest[0] == args[i as int]@);
            assert(rest.drop_first() =~= dv.skip(i + 1));
            let arg = args[i].as_str();
            if str_eq(arg, "-h") || str_eq(arg, "--help") {
                return Err(Self::usage(program.as_str()));
            } else if str_eq(arg, "-v") || str_eq(arg, "--verbose") {
                verbose = true;
                i = i + 1;
            } else if str_eq(arg, "--zarr") || str_eq(arg, "--vector") {
                let is_zarr = str_eq(arg, "--zarr");
                let value = next_or(arg, &args, i + 1, program.as_str())?;
                assert(rest.drop_first()[0] == args[i + 1]@);
                assert(rest.drop_first().drop_first() =~= dv.skip(i + 2));
                if is_zarr {
                    zarr = Some(value);
                } else {
                    vector = Some(value);
                }
                i = i + 2;
            } else if zarr.is_none() {
                zarr = Some(args[i].clone());
                i = i + 1;
            } else if vector.is_none() {
                vector = Some(args[i].clone());
                i = i + 1;
            } else {
                let mut e = String::from_str("Unexpected extra argument: ");
                e.append(arg);
                e.append("\n");
                let u = Self::usage(program.as_str());
                e.append(u.as_str());
                return Err(e);
            }
        }
        assert(dv.skip(i as int) =~= seq![]);
        match zarr {
            None => {
                let mut e = String::from_str("Missing Zarr path\n");
                let u = Self::usage(program.as_str());
                e.append(u.as_str());
                Err(e)
            },
            Some(z) => match vector {
                None => {
                    let mut e = String::from_str("Missing vector path \n");
                    let u = Self::usage(program.as_str());
                    e.append(u.as_str());
                    Err(e)
                },
                Some(v) => Ok(Config { zarr_path: z, vector_path: v, verbose }),
            },
        }
    }

    /// Path to the raster store directory.
    pub fn zarr_path(&self) -> (res: &str)
        ensures
            res@ == self@.zarr_path,
    {
        self.zarr_path.as_str()
    }

    /// Path to the vector file.
    pub fn vector_path(&self) -> (res: &str)
        ensures
            res@ == self@.vector_path,
    {
        self.vector_path.as_str()
    }

    /// Whether extra logging was asked for.
    pub fn verbose(&self) -> (res: bool)
        ensures
            res == self@.verbose,
    {
        self.verbose
    }
}

} // verus!
