//! Command-line rules for the packer: one input path and exactly one
//! output path introduced by `-o` or `--output`, in any order.

use vstd::prelude::*;

verus! {

/// A usage error: what went wrong and which program to blame in the
/// usage line.
#[derive(Debug, Clone, PartialEq, Eq)]
pub struct Error {
    pub program_name: String,
    pub message: String,
}

impl Error {
    /// The two-line report: the message, then a usage line.
    pub fn display_string(&self) -> (r: String)
        ensures
            r@ == "Error: "@ + self.message@ + "\nUsage: "@ + self.program_name@
                + " input -o output\n"@,
    {
        let mut out = String::from_str("Error: ");
        out.append(self.message.as_str());
        out.append("\nUsage: ");
        out.append(self.program_name.as_str());
        out.append(" input -o output\n");
        out
    }
}

/// The parsed command line: the executable to pack and where to write
/// the packed result.
#[derive(Debug, Clone, PartialEq, Eq)]
pub struct Args {
    pub input: String,
    pub output: String,
}

/// What parsing the tokens from position `i` on yields, given the input
/// and output seen so far: the (input, output) pair, or the error
/// message. A token `-o` or `--output` takes the next token as the
/// output path; any other token starting with `-` is unknown; any other
/// token is the input path. Each may be given only once.
pub open spec fn spec_cli(
    args: Seq<String>,
    i: int,
    inp: Option<Seq<char>>,
    outp: Option<Seq<char>>,
) -> Result<(Seq<char>, Seq<char>), Seq<char>>
    decreases args.len() - i when i <= args.len()
{
    if i >= args.len() {
        if inp is None {
            Err("Missing input"@)
        } else if outp is None {
            Err("Missing output"@)
        } else {
            Ok((inp->0, outp->0))
        }
    } else {
        let a = args[i]@;
        if a == "-o"@ || a == "--output"@ {
            if i + 1 >= args.len() {
                Err("Missing output filename after "@ + a)
            } else if outp is Some {
                Err("Multiple output files specified"@)
            } else {
                spec_cli(args, i + 2, inp, Some(args[i + 1]@))
            }
        } else if a.len() > 0 && a[0] == '-' {
            Err("Unknown flag "@ + a)
        } else if inp is Some {
            Err("Multiple input files specified"@)
        } else {
            spec_cli(args, i + 1, Some(a), outp)
        }
    }
}

impl Args {
    /// Parse a command line. The first token is the program's name; the
    /// rest are the tokens `spec_cli` describes.
    ///
    /// Returns the input and output paths exactly when `spec_cli` does,
    /// and otherwise the error it names, with the program name carried
    /// for the usage line.
    pub fn parse(args: &Vec<String>) -> (r: Result<Args, Error>)
        requires
            args@.len() >= 1,
        ensures
            ({
                match spec_cli(args@, 1, None, None) {
                    Ok((inp, outp)) => r is Ok && r->Ok_0.input@ == inp
                        && r->Ok_0.output@ == outp,
                    Err(msg) => r is Err && r->Err_0.message@ == msg
                        && r->Err_0.program_name@ == args@[0]@,
                }
            }),
    {
        let program_name = args[0].clone();
        let o_short = String::from_str("-o");
        let o_long = String::from_str("--output");
        let n = args.len();

        let mut input: Option<String> = None;
        let mut output: Option<String> = None;
        let mut i: usize = 1;
        while i < n
            invariant
                1 <= i <= n,
                n == args@.len(),
                program_name@ == args@[0]@,
                o_short@ == "-o"@,
                o_long@ == "--output"@,
                (match input {
                    Some(s) => spec_cli(args@, i as int, Some(s@),
                        match output {
                            Some(t) => Some(t@),
                            None => None,
                        }) == spec_cli(args@, 1, None, None),
                    None => spec_cli(args@, i as int, None,
                        match output {
                            Some(t) => Some(t@),
                            None => None,
                        }) == spec_cli(args@, 1, None, None),
                }),
            decreases n - i,
        {
            let arg = &args[i];
            if *arg == o_short || *arg == o_long {
                if i + 1 >= n {
                    let mut msg = String::from_str("Missing output filename after ");
                    msg.append(arg.as_str());
                    return Err(Error { program_name, message: msg });
                }
                if output.is_some() {
                    return Err(Error {
                        program_name,
                        message: String::from_str("Multiple output files specified"),
                    });
                }
                output = Some(args[i + 1].clone());
                i += 2;
            } else {
                let is_flag = arg.as_str().unicode_len() > 0 && arg.as_str().get_char(0) == '-';
                if is_flag {
                    let mut msg = String::from_str("Unknown flag ");
                    msg.append(arg.as_str());
                    return Err(Error { program_name, message: msg });
                }
                if input.is_some() {
                    return Err(Error {
                        program_name,
                        message: String::from_str("Multiple input files specified"),
                    });
                }
                input = Some(arg.clone());
                i += 1;
            }
        }
        let input = match input {
            Some(s) => s,
            None => {
                return Err(Error {
                    program_name,
                    message: String::from_str("Missing input"),
                });
            },
        };
        let output = match output {
            Some(s) => s,
            None => {
                return Err(Error {
                    program_name,
                    message: String::from_str("Missing output"),
                });
            },
        };
        Ok(Args { input, output })
    }
}

} // verus!
