//! Declaring command-line options and reading what was given for them.

use vstd::prelude::*;
use vstd::string::is_ascii;
use getopts::{Fail, Matches, Options};

verus! {

/// `getopts::Options`: the options that are declared.
#[verifier::external_type_specification]
#[verifier::external_body]
pub struct ExOptions(Options);

/// `getopts::Matches`: what parsing found on a command line.
#[verifier::external_type_specification]
#[verifier::external_body]
pub struct ExMatches(Matches);

/// `getopts::Fail`: why a command line could not be parsed. It is carried
/// through as it is.
#[verifier::external_type_specification]
#[verifier::external_body]
pub struct ExFail(Fail);

/// A declared option: its short and its long name, what the help text says
/// of it, the hint for its value, and whether it takes a value.
pub struct Declared {
    pub short: Seq<char>,
    pub long: Seq<char>,
    pub desc: Seq<char>,
    pub hint: Seq<char>,
    pub takes_value: bool,
}

/// What was given for each name under which an option can be asked for: one
/// entry for each time the option was given, with the value if it came with
/// one.
pub type Given = Map<Seq<char>, Seq<Option<Seq<char>>>>;

/// The declared option with these parts.
pub open spec fn declared(
    short: Seq<char>,
    long: Seq<char>,
    desc: Seq<char>,
    hint: Seq<char>,
    takes_value: bool,
) -> Declared {
    Declared { short, long, desc, hint, takes_value }
}

/// What a set of options holds: the options in the order in which they were
/// declared.
pub uninterp spec fn declared_options(opts: Options) -> Seq<Declared>;

/// Whether a set of options parses as `Options::new` sets it: arguments that
/// are no options may stand anywhere, and long names need two dashes.
pub uninterp spec fn parses_plainly(opts: Options) -> bool;

/// What the result of parsing holds for the options.
pub uninterp spec fn given_options(m: Matches) -> Map<Seq<char>, Seq<Option<Seq<char>>>>;

/// What the result of parsing holds besides: the arguments that are no
/// options, in the order in which they were given.
pub uninterp spec fn free_arguments(m: Matches) -> Seq<Seq<char>>;

/// What parsing the arguments finds for options declared like this and
/// parsed plainly: what was given for the options and the arguments that are
/// no options, or nothing if the arguments do not fit the options.
pub uninterp spec fn parse_outcome(declared: Seq<Declared>, args: Seq<Seq<char>>) -> Option<
    (Map<Seq<char>, Seq<Option<Seq<char>>>>, Seq<Seq<char>>),
>;

/// The help text for options declared like this, after the line `brief`.
pub uninterp spec fn usage_text(declared: Seq<Declared>, brief: Seq<char>) -> Seq<char>;

/// Whether a short and a long name can be declared together: both are plain
/// ASCII, the short name is at most one character, the long name is not
/// exactly one character, and they are not both empty.
pub open spec fn is_name_pair(short: &str, long: &str) -> bool {
    &&& is_ascii(short)
    &&& is_ascii(long)
    &&& short@.len() <= 1
    &&& long@.len() != 1
    &&& short@.len() + long@.len() > 0
}

/// The names that are not empty among those of the declared options.
pub open spec fn names_in(declared: Seq<Declared>) -> Set<Seq<char>> {
    Set::new(
        |name: Seq<char>|
            name.len() > 0 && exists|i: int|
                0 <= i < declared.len() && (name == (#[trigger] declared[i]).short || name
                    == declared[i].long),
    )
}

/// Whether every declared option has a name.
pub open spec fn all_named(declared: Seq<Declared>) -> bool {
    forall|i: int| 0 <= i < declared.len() ==> (#[trigger] declared[i]).short.len() + declared[i].long.len() > 0
}

/// The texts of a list of strings.
pub open spec fn texts(list: Seq<String>) -> Seq<Seq<char>> {
    list.map_values(|s: String| s@)
}

/// What was given first for an option: the value of its first entry, if that
/// entry has one.
pub open spec fn first_value(entries: Seq<Option<Seq<char>>>) -> Option<Seq<char>> {
    if entries.len() > 0 {
        entries[0]
    } else {
        None
    }
}

/// Calls `Options::new`: a set without options that parses plainly.
#[verifier::external_body]
pub(crate) fn options_new() -> (opts: Options)
    ensures
        declared_options(opts).len() == 0,
        parses_plainly(opts),
{
    Options::new()
}

/// Calls `Options::optopt`, which declares an option that takes a value. It
/// panics unless the short name is one byte or empty and the long name is
/// longer than one byte or empty.
#[verifier::external_body]
pub(crate) fn options_optopt(opts: &mut Options, short: &str, long: &str, desc: &str, hint: &str)
    requires
        is_name_pair(short, long),
    ensures
        declared_options(*final(opts)) == declared_options(*old(opts)).push(
            declared(short@, long@, desc@, hint@, true),
        ),
        parses_plainly(*final(opts)) == parses_plainly(*old(opts)),
{
    opts.optopt(short, long, desc, hint);
}

/// Calls `Options::optflag`, which declares an option without a value and
/// without a hint. It panics on the same names as `Options::optopt`.
#[verifier::external_body]
pub(crate) fn options_optflag(opts: &mut Options, short: &str, long: &str, desc: &str)
    requires
        is_name_pair(short, long),
    ensures
        declared_options(*final(opts)) == declared_options(*old(opts)).push(
            declared(short@, long@, desc@, Seq::empty(), false),
        ),
        parses_plainly(*final(opts)) == parses_plainly(*old(opts)),
{
    opts.optflag(short, long, desc);
}

/// Calls `Options::parse`, which panics if an option has neither a short nor
/// a long name. What it finds depends on the declared options, on how the
/// set parses and on the arguments, and on nothing else. Every name of a
/// declared option can be asked for in the result, and no other.
#[verifier::external_body]
pub(crate) fn options_parse(opts: &Options, args: &[String]) -> (r: Result<Matches, Fail>)
    requires
        all_named(declared_options(*opts)),
        parses_plainly(*opts),
    ensures
        r matches Ok(m) ==> parse_outcome(declared_options(*opts), texts(args@)) == Some(
            (given_options(m), free_arguments(m)),
        ),
        r is Err ==> parse_outcome(declared_options(*opts), texts(args@)) is None,
        r matches Ok(m) ==> given_options(m).dom() == names_in(declared_options(*opts)),
{
    opts.parse(args)
}

/// Calls `Options::usage`: the help text, which starts with `brief`. It
/// depends on the declared options, on how the set parses and on `brief`.
#[verifier::external_body]
pub(crate) fn options_usage(opts: &Options, brief: &str) -> (text: String)
    requires
        parses_plainly(*opts),
    ensures
        text@ == usage_text(declared_options(*opts), brief@),
{
    opts.usage(brief)
}

/// Calls `Matches::opt_present`, which panics if no option of that name is
/// defined: whether the option was given.
#[verifier::external_body]
pub(crate) fn matches_opt_present(m: &Matches, name: &str) -> (r: bool)
    requires
        given_options(*m).contains_key(name@),
    ensures
        r == (given_options(*m)[name@].len() > 0),
{
    m.opt_present(name)
}

/// Calls `Matches::opt_str`, which panics if no option of that name is
/// defined: the value that came with the option when it was given first, if
/// it was given and came with one.
#[verifier::external_body]
pub(crate) fn matches_opt_str(m: &Matches, name: &str) -> (r: Option<String>)
    requires
        given_options(*m).contains_key(name@),
    ensures
        r matches Some(value) ==> first_value(given_options(*m)[name@]) == Some(value@),
        r is None ==> first_value(given_options(*m)[name@]) is None,
{
    m.opt_str(name)
}

/// Copies the field `free` of the result of parsing: the arguments that are
/// no options, in the order in which they were given.
#[verifier::external_body]
pub(crate) fn matches_free(m: &Matches) -> (free: Vec<String>)
    ensures
        texts(free@) == free_arguments(*m),
{
    m.free.clone()
}

} // verus!
