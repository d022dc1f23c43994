use vstd::prelude::*;

verus! {

/// The name of the output file when none is given.
pub open spec fn default_output() -> Seq<char> {
    "a.S"@
}

/// The message for a command line of the wrong length.
pub open spec fn usage() -> Seq<char> {
    "Wrong number of arguments: \n Usage: frustc input.fr output.S"@
}

/// The names of the input and the output file that a command line gives.
/// Its first word is the name of the program. With one more word the output
/// goes to the default file; with two more the second names it; any other
/// length is an error.
pub open spec fn arguments(args: Seq<Seq<char>>) -> Result<(Seq<char>, Seq<char>), Seq<char>> {
    if args.len() == 3 {
        Ok((args[1], args[2]))
    } else if args.len() == 2 {
        Ok((args[1], default_output()))
    } else {
        Err(usage())
    }
}

/// Reads the names of the input and the output file off a command line.
pub fn parse_args(args: Vec<String>) -> (res: Result<(String, String), String>)
    ensures
        match arguments(args.deep_view()) {
            Ok((input, output)) => res matches Ok((i, o)) && i@ == input && o@ == output,
            Err(message) => res matches Err(m) && m@ == message,
        },
{
    if args.len() == 3 {
        Ok((args[1].clone(), args[2].clone()))
    } else if args.len() == 2 {
        Ok((args[1].clone(), String::from_str("a.S")))
    } else {
        Err(String::from_str("Wrong number of arguments: \n Usage: frustc input.fr output.S"))
    }
}

} // verus!
