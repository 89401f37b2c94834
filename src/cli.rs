//! Reading the command line: a port and an optional verbosity flag.

use vstd::prelude::*;
use vstd::string::*;

verus! {

/// The host the server listens on.
pub const HOST: &'static str = "127.0.0.1";

/// What the command line asks for.
pub struct Options {
    pub port: String,
    pub verbose: bool,
}

pub open spec fn is_verbose_flag(s: Seq<char>) -> bool {
    s == "-v"@ || s == "--verbose"@
}

/// Whether two strings hold the same characters.
pub fn same_text(a: &str, b: &str) -> (r: bool)
    ensures
        r == (a@ == b@),
{
    let n = a.unicode_len();
    if n != b.unicode_len() {
        return false;
    }
    let mut i: usize = 0;
    while i < n
        invariant
            n == a@.len(),
            n == b@.len(),
            i <= n,
            a@.subrange(0, i as int) == b@.subrange(0, i as int),
        decreases n - i,
    {
        if a.get_char(i) != b.get_char(i) {
            return false;
        }
        assert(a@.subrange(0, i + 1) =~= a@.subrange(0, i as int).push(a@[i as int]));
        assert(b@.subrange(0, i + 1) =~= b@.subrange(0, i as int).push(b@[i as int]));
        i = i + 1;
    }
    assert(a@ =~= a@.subrange(0, n as int));
    assert(b@ =~= b@.subrange(0, n as int));
    true
}

/// The options given by the program's arguments, the program's name first:
/// `None` where the port is missing. A third argument turns verbose output
/// on where it is `-v` or `--verbose`; anything else is ignored.
pub fn parse_args(args: &Vec<String>) -> (r: Option<Options>)
    ensures
        r is None <==> args@.len() < 2,
        r matches Some(o) ==> o.port@ == args@[1]@ && o.verbose == (args@.len() == 3
            && is_verbose_flag(args@[2]@)),
{
    if args.len() < 2 {
        return None;
    }
    let verbose = args.len() == 3 && (same_text(args[2].as_str(), "-v") || same_text(
        args[2].as_str(),
        "--verbose",
    ));
    Some(Options { port: args[1].clone(), verbose })
}

/// The address to listen on for `port`.
pub fn bind_address(port: &str) -> (r: String)
    ensures
        r@ == HOST@ + ":"@ + port@,
{
    let mut s = HOST.to_owned();
    s.append(":");
    s.append(port);
    s
}

} // verus!
