//! Command-line arguments: which file to compile, for which target, and the
//! name of the output it yields.

use vstd::prelude::*;

use crate::target::{lower_of, Target};
use crate::text::{chars_of, push_char};

verus! {

/// What can go wrong between the command line and the output files.
#[derive(Debug)]
pub enum InputError {
    NotEnoughArgs,
    InvalidArg(String),
    FileNameParseError(String),
    FileNotFound(String),
    InvalidTarget(String),
    ContentWriteFailure(String),
    ExecutableGenerationFailure(String),
}

impl InputError {
    pub open spec fn text(self) -> Seq<char> {
        match self {
            InputError::NotEnoughArgs => "Not enough arguments provided, use -h flag to see expected usage"@,
            InputError::InvalidArg(x) => "Invalid argument "@ + x@ + ", use -h flag to see expected usage"@,
            InputError::FileNotFound(x) => "Unable to find file path: "@ + x@,
            InputError::FileNameParseError(x) => "Unable to split file path: "@ + x@,
            InputError::InvalidTarget(x) => "Invalid target argument "@ + x@ + ", available values are: ["@
                + Target::values_text() + "]"@,
            InputError::ContentWriteFailure(x) => "Failed to write output to file, caused by: "@ + x@,
            InputError::ExecutableGenerationFailure(x) => "Failed to generate executable file due to "@ + x@,
        }
    }

    pub fn to_string(&self) -> (r: String)
        ensures
            r@ == self.text(),
    {
        match self {
            InputError::NotEnoughArgs => String::from_str(
                "Not enough arguments provided, use -h flag to see expected usage",
            ),
            InputError::InvalidArg(x) => {
                let mut out = String::from_str("Invalid argument ");
                out.append(x.as_str());
                out.append(", use -h flag to see expected usage");
                out
            },
            InputError::FileNotFound(x) => {
                let mut out = String::from_str("Unable to find file path: ");
                out.append(x.as_str());
                out
            },
            InputError::FileNameParseError(x) => {
                let mut out = String::from_str("Unable to split file path: ");
                out.append(x.as_str());
                out
            },
            InputError::InvalidTarget(x) => {
                let mut out = String::from_str("Invalid target argument ");
                out.append(x.as_str());
                out.append(", available values are: [");
                out.append(Target::get_values_string().as_str());
                out.append("]");
                out
            },
            InputError::ContentWriteFailure(x) => {
                let mut out = String::from_str("Failed to write output to file, caused by: ");
                out.append(x.as_str());
                out
            },
            InputError::ExecutableGenerationFailure(x) => {
                let mut out = String::from_str("Failed to generate executable file due to ");
                out.append(x.as_str());
                out
            },
        }
    }
}

/// The file to compile and the target to compile it for.
#[derive(Debug)]
pub struct CmdArgs {
    pub file_name: String,
    pub target: Target,
}

/// The index of the first `c` in `s`, if any.
pub open spec fn first_index_of(s: Seq<char>, c: char) -> Option<int> {
    if exists|i: int| 0 <= i < s.len() && s[i] == c {
        Some(choose|i: int| 0 <= i < s.len() && s[i] == c && forall|j: int| 0 <= j < i ==> s[j] != c)
    } else {
        None
    }
}

/// The index of the last `c` in `s`, if any.
pub open spec fn last_index_of(s: Seq<char>, c: char) -> Option<int> {
    if exists|i: int| 0 <= i < s.len() && s[i] == c {
        Some(choose|i: int| 0 <= i < s.len() && s[i] == c && forall|j: int| i < j < s.len() ==> s[j] != c)
    } else {
        None
    }
}

/// The output name for the path `s`: what lies between the last `/` and the
/// first `.`, when that first `.` stands past the second character and after
/// the last `/`.
pub open spec fn output_name(s: Seq<char>) -> Option<Seq<char>> {
    match first_index_of(s, '.') {
        Some(dot) => {
            let start = match last_index_of(s, '/') {
                Some(slash) => slash + 1,
                None => 0,
            };
            if dot > 1 && start <= dot {
                Some(s.subrange(start, dot))
            } else {
                None
            }
        },
        None => None,
    }
}

impl CmdArgs {
    /// The base name of the input file, without directories or extension.
    pub fn get_file_name(&self) -> (r: Result<String, InputError>)
        ensures
            match output_name(self.file_name@) {
                Some(name) => r matches Ok(t) && t@ == name,
                None => r == Err::<String, InputError>(InputError::FileNameParseError(self.file_name)),
            },
    {
        let ghost s = self.file_name@;
        let cs = chars_of(self.file_name.as_str());
        let n = cs.len();
        let mut dot: Option<usize> = None;
        let mut slash: Option<usize> = None;
        let mut i: usize = 0;
        while i < n
            invariant
                cs@ == s,
                n == s.len(),
                i <= n,
                dot is None ==> forall|j: int| 0 <= j < i ==> s[j] != '.',
                dot matches Some(d) ==> d < i && s[d as int] == '.' && forall|j: int| 0 <= j < d ==> s[j] != '.',
                slash is None ==> forall|j: int| 0 <= j < i ==> s[j] != '/',
                slash matches Some(d) ==> d < i && s[d as int] == '/' && forall|j: int| d < j < i ==> s[j] != '/',
            decreases n - i,
        {
            if cs[i] == '.' && dot.is_none() {
                dot = Some(i);
            }
            if cs[i] == '/' {
                slash = Some(i);
            }
            i = i + 1;
        }
        proof {
            match dot {
                Some(d) => {
                    assert(first_index_of(s, '.') == Some(d as int));
                },
                None => {
                    assert(first_index_of(s, '.') is None);
                },
            }
            match slash {
                Some(d) => {
                    assert(last_index_of(s, '/') == Some(d as int));
                },
                None => {
                    assert(last_index_of(s, '/') is None);
                },
            }
        }
        let split = match dot {
            Some(d) => d,
            None => return Err(InputError::FileNameParseError(self.file_name.clone())),
        };
        let start = match slash {
            Some(d) => d + 1,
            None => 0,
        };
        if split > 1 && start <= split {
            let mut out = String::new();
            let mut k = start;
            while k < split
                invariant
                    cs@ == s,
                    start <= k <= split < s.len(),
                    out@ == s.subrange(start as int, k as int),
                decreases split - k,
            {
                push_char(&mut out, cs[k]);
                k = k + 1;
                assert(out@ =~= s.subrange(start as int, k as int));
            }
            Ok(out)
        } else {
            Err(InputError::FileNameParseError(self.file_name.clone()))
        }
    }
}

/// Reads the arguments after the program name: one file name, and an optional
/// `-t TARGET`; the target is ARM64 when none is given.
pub open spec fn cmd_args_result(args: Seq<String>, i: int, file: Option<String>, target: Target) -> Result<(String, Target), InputError>
    decreases args.len() - i,
{
    if i >= args.len() {
        match file {
            Some(f) => Ok((f, target)),
            None => Err(InputError::NotEnoughArgs),
        }
    } else if args[i]@ == "-t"@ {
        if i == args.len() - 1 {
            Err(InputError::InvalidArg(args[i]))
        } else {
            match Target::from_lowered_spec(lower_of(args[i + 1]@)) {
                Ok(t) => cmd_args_result(args, i + 2, file, t),
                Err(_) => Err(InputError::InvalidTarget(args[i + 1])),
            }
        }
    } else if file is None {
        cmd_args_result(args, i + 1, Some(args[i]), target)
    } else {
        Err(InputError::InvalidArg(args[i]))
    }
}

/// Reads the arguments after the program name into a file name and a target.
pub fn read_to_cmd_args(args: &Vec<String>) -> (r: Result<CmdArgs, InputError>)
    ensures
        match cmd_args_result(args@, 0, None, Target::ARM64) {
            Ok((f, t)) => r matches Ok(c) && c.file_name == f && c.target == t,
            Err(e) => r == Err::<CmdArgs, InputError>(e),
        },
{
    let mut file_name: Option<String> = None;
    let mut target = Target::ARM64;
    let mut i: usize = 0;
    let flag = String::from_str("-t");
    while i < args.len()
        invariant
            i <= args@.len(),
            flag@ == "-t"@,
            cmd_args_result(args@, i as int, file_name, target) == cmd_args_result(args@, 0, None, Target::ARM64),
        decreases args.len() - i,
    {
        if args[i] == flag {
            if i == args.len() - 1 {
                return Err(InputError::InvalidArg(args[i].clone()));
            }
            match Target::parse_name(args[i + 1].as_str()) {
                Ok(t) => target = t,
                Err(_) => return Err(InputError::InvalidTarget(args[i + 1].clone())),
            }
            i = i + 2;
        } else if file_name.is_none() {
            file_name = Some(args[i].clone());
            i = i + 1;
        } else {
            return Err(InputError::InvalidArg(args[i].clone()));
        }
    }
    match file_name {
        Some(f) => Ok(CmdArgs { file_name: f, target }),
        None => Err(InputError::NotEnoughArgs),
    }
}

/// Whether the arguments name a target with `-t`.
pub fn has_target_flag(args: &Vec<String>) -> (r: bool)
    ensures
        r == exists|i: int| 0 <= i < args@.len() && args@[i]@ == "-t"@,
{
    let flag = String::from_str("-t");
    let mut i: usize = 0;
    while i < args.len()
        invariant
            i <= args@.len(),
            flag@ == "-t"@,
            forall|j: int| 0 <= j < i ==> args@[j]@ != "-t"@,
        decreases args.len() - i,
    {
        if args[i] == flag {
            return true;
        }
        i = i + 1;
    }
    false
}

} // verus!
