//! Collecting the required settings from the command-line arguments: the
//! logs directory (required) and the output formatter (optional, `stdout`
//! unless chosen otherwise).

use vstd::prelude::*;

verus! {

use vstd::string::StrSliceExecFns;
use vstd::string::StringExecFns;
use crate::formatters::FormatterFactory;
use crate::text::index_of_first;
use crate::text::lemma_index_of_first_at;
use crate::text::lemma_index_of_first_none;
use crate::text::str_eq;
use crate::text::str_to_string;
use crate::text::trim_spec;
use crate::text::trim_str;

/// The part of an argument before its first `=`; the whole argument when
/// there is no `=`.
pub open spec fn arg_name(arg: Seq<char>) -> Seq<char> {
    match index_of_first(arg, '=') {
        Some(i) => arg.take(i),
        None => arg,
    }
}

/// The part of an argument between its first `=` and its second `=` (or the
/// end); nothing when the argument has no `=` at all.
pub open spec fn arg_value(arg: Seq<char>) -> Option<Seq<char>> {
    match index_of_first(arg, '=') {
        None => None,
        Some(i) => {
            let rest = arg.skip(i + 1);
            match index_of_first(rest, '=') {
                Some(j) => Some(rest.take(j)),
                None => Some(rest),
            }
        },
    }
}

/// Why building the settings failed.
pub enum CliFailure {
    /// An argument had no `=`, so no value could be read from it.
    NoValue,
    /// The formatter argument named no known formatter.
    UnknownFormatter,
    /// An argument nobody knows; carries the argument's name.
    UnknownParameter(Seq<char>),
    /// No argument set the logs directory.
    MissingLogsDir,
}

/// The effect of one argument on the pair (logs directory, formatter).
pub open spec fn build_step(state: (Seq<char>, Seq<char>), arg: Seq<char>) -> Result<
    (Seq<char>, Seq<char>),
    CliFailure,
> {
    match arg_value(arg) {
        None => Err(CliFailure::NoValue),
        Some(v) => {
            let name = arg_name(arg);
            if name == "--log_dir"@ || name == "-ld"@ {
                Ok((trim_spec(v), state.1))
            } else if name == "--formatter"@ || name == "-fmt"@ {
                if v == "json"@ || v == "stdout"@ {
                    Ok((state.0, v))
                } else {
                    Err(CliFailure::UnknownFormatter)
                }
            } else {
                Err(CliFailure::UnknownParameter(name))
            }
        },
    }
}

/// The arguments folded in order over the defaults: no logs directory yet,
/// formatter `stdout`.
pub open spec fn build_fold(args: Seq<Seq<char>>) -> Result<(Seq<char>, Seq<char>), CliFailure>
    decreases args.len(),
{
    if args.len() == 0 {
        Ok((Seq::empty(), "stdout"@))
    } else {
        match build_fold(args.drop_last()) {
            Ok(st) => build_step(st, args.last()),
            Err(e) => Err(e),
        }
    }
}

/// What building the settings from the whole argument list yields: the
/// folded pair, except that an empty logs directory is an error of its own.
pub open spec fn build_spec(args: Seq<Seq<char>>) -> Result<(Seq<char>, Seq<char>), CliFailure> {
    match build_fold(args) {
        Ok(st) => if st.0.len() == 0 {
            Err(CliFailure::MissingLogsDir)
        } else {
            Ok(st)
        },
        Err(e) => Err(e),
    }
}

/// Once an argument has failed, the remaining arguments change nothing.
proof fn lemma_build_fold_prefix_err(args: Seq<Seq<char>>, i: int)
    requires
        0 <= i <= args.len(),
        build_fold(args.take(i)) is Err,
    ensures
        build_fold(args) == build_fold(args.take(i)),
    decreases args.len() - i,
{
    if i < args.len() {
        assert(args.take(i + 1).drop_last() =~= args.take(i));
        lemma_build_fold_prefix_err(args, i + 1);
    } else {
        assert(args.take(i) =~= args);
    }
}

/// Which error message reports which failure.
pub open spec fn cli_err_matches(m: Seq<char>, k: CliFailure) -> bool {
    match k {
        CliFailure::NoValue => m
            == "Could not extract the second part from the argument. Check your input!"@,
        CliFailure::UnknownFormatter => m
            == "Unknown formatter. Run the CLI with the -h, to get the list of the available formatters"@,
        CliFailure::UnknownParameter(name) => m == "Unknown parameter: "@ + name,
        CliFailure::MissingLogsDir => m == "Logs directory parameter is missing! Check your input"@,
    }
}

/// Split one argument into its name and its value, as `arg_name` and
/// `arg_value` read them; `None` when the argument has no `=`.
fn split_arg<'x>(arg: &'x str) -> (r: Option<(&'x str, &'x str)>)
    ensures
        match r {
            Some(p) => p.0@ == arg_name(arg@) && arg_value(arg@) == Some(p.1@),
            None => arg_value(arg@) is None,
        },
{
    let n = arg.unicode_len();
    let mut i: usize = 0;
    while i < n
        invariant
            0 <= i <= n,
            n == arg@.len(),
            forall|k: int| 0 <= k < i ==> arg@[k] != '=',
        decreases n - i,
    {
        if arg.get_char(i) == '=' {
            proof {
                lemma_index_of_first_at(arg@, '=', i as int);
            }
            let name = arg.substring_char(0, i);
            proof {
                assert(name@ =~= arg@.take(i as int));
            }
            let ghost rest = arg@.skip(i + 1);
            let mut j: usize = i + 1;
            while j < n
                invariant
                    i + 1 <= j <= n,
                    n == arg@.len(),
                    rest == arg@.skip(i + 1),
                    index_of_first(arg@, '=') == Some(i as int),
                    name@ == arg_name(arg@),
                    forall|k: int| 0 <= k < j - i - 1 ==> rest[k] != '=',
                decreases n - j,
            {
                proof {
                    assert(rest[j - i - 1] == arg@[j as int]);
                }
                if arg.get_char(j) == '=' {
                    proof {
                        lemma_index_of_first_at(rest, '=', j - i - 1);
                        assert(rest.take(j - i - 1) =~= arg@.subrange(i + 1, j as int));
                    }
                    let value = arg.substring_char(i + 1, j);
                    return Some((name, value));
                }
                j += 1;
            }
            proof {
                lemma_index_of_first_none(rest, '=');
                assert(rest =~= arg@.subrange(i + 1, n as int));
            }
            let value = arg.substring_char(i + 1, n);
            return Some((name, value));
        }
        i += 1;
    }
    proof {
        lemma_index_of_first_none(arg@, '=');
    }
    None
}

/// The settings read from the command line.
#[derive(Debug)]
pub struct CLIArgs {
    logs_dir: String,
    formatter: String,
}

impl CLIArgs {
    /// The directory that was chosen, for contracts.
    pub closed spec fn spec_logs_dir(&self) -> Seq<char> {
        self.logs_dir@
    }

    /// The formatter that was chosen, for contracts.
    pub closed spec fn spec_formatter(&self) -> Seq<char> {
        self.formatter@
    }

    /// The directory holding the log files.
    pub fn get_logs_dir(&self) -> (r: &String)
        ensures
            r@ == self.spec_logs_dir(),
    {
        &self.logs_dir
    }

    /// The name of the chosen formatter.
    pub fn get_formatter(&self) -> (r: &String)
        ensures
            r@ == self.spec_formatter(),
    {
        &self.formatter
    }

    /// Read the settings out of the given argument list.  Each argument is
    /// `name=value`; `--log_dir` (or `-ld`) is required, `--formatter` (or
    /// `-fmt`) optional but must name a known formatter.  The first bad
    /// argument stops the build with its message.
    pub fn build(env_args: &Vec<String>) -> (r: Result<CLIArgs, String>)
        ensures
            match build_spec(env_args.deep_view()) {
                Ok(st) => r matches Ok(c) && c.spec_logs_dir() == st.0 && c.spec_formatter()
                    == st.1,
                Err(k) => r matches Err(m) && cli_err_matches(m@, k),
            },
    {
        let ghost aseq = env_args.deep_view();
        let mut logs_dir = String::new();
        let mut formatter = str_to_string("stdout");
        let n = env_args.len();
        let mut i: usize = 0;
        proof {
            assert(aseq.take(0) =~= Seq::<Seq<char>>::empty());
        }
        while i < n
            invariant
                0 <= i <= n,
                n == env_args.len(),
                aseq == env_args.deep_view(),
                build_fold(aseq.take(i as int)) == Ok::<(Seq<char>, Seq<char>), CliFailure>(
                    (logs_dir@, formatter@),
                ),
            decreases n - i,
        {
            let arg = &env_args[i];
            proof {
                assert(aseq[i as int] == arg@);
                assert(aseq.take(i + 1).drop_last() =~= aseq.take(i as int));
                assert(aseq.take(i + 1).last() == arg@);
            }
            match split_arg(arg.as_str()) {
                None => {
                    proof {
                        lemma_build_fold_prefix_err(aseq, i + 1);
                    }
                    return Err(
                        str_to_string(
                            "Could not extract the second part from the argument. Check your input!",
                        ),
                    );
                }
                Some(parts) => {
                    let name = parts.0;
                    let value = parts.1;
                    if str_eq(name, "--log_dir") || str_eq(name, "-ld") {
                        logs_dir = trim_str(value);
                    } else if str_eq(name, "--formatter") || str_eq(name, "-fmt") {
                        if FormatterFactory::resolve_formatter(value).is_err() {
                            proof {
                                lemma_build_fold_prefix_err(aseq, i + 1);
                            }
                            return Err(
                                str_to_string(
                                    "Unknown formatter. Run the CLI with the -h, to get the list of the available formatters",
                                ),
                            );
                        }
                        formatter = str_to_string(value);
                    } else {
                        proof {
                            lemma_build_fold_prefix_err(aseq, i + 1);
                        }
                        let mut m = String::new();
                        m.append("Unknown parameter: ");
                        m.append(name);
                        proof {
                            assert(m@ =~= "Unknown parameter: "@ + name@);
                        }
                        return Err(m);
                    }
                }
            }
            i += 1;
        }
        proof {
            assert(aseq.take(n as int) =~= aseq);
        }
        if logs_dir.as_str().is_empty() {
            return Err(str_to_string("Logs directory parameter is missing! Check your input"));
        }
        let cli_args = CLIArgs { logs_dir, formatter };
        Ok(cli_args)
    }
}

} // verus!
