//! What the command line asks for.

use vstd::prelude::*;
use vstd::string::StringExecFns;
use crate::convert::Quantizer;
use crate::options::{
    all_named,
    declared,
    declared_options,
    first_value,
    given_options,
    free_arguments,
    parse_outcome,
    texts,
    usage_text,
    Declared,
    Given,
    matches_free,
    matches_opt_present,
    matches_opt_str,
    names_in,
    options_new,
    options_optflag,
    options_optopt,
    options_parse,
    options_usage,
};
use crate::paths::{path_eq, path_file_name, path_from, path_is_empty, path_parent, path_text};
use std::path::PathBuf;
use std::str::FromStr;

verus! {

/// `std::num::ParseIntError`: why a text spells no number. It is carried
/// through as it is.
#[verifier::external_type_specification]
#[verifier::external_body]
pub struct ExParseIntError(std::num::ParseIntError);

/// Where the frames come from.
#[derive(Debug, Eq, PartialEq)]
pub enum SourceImages {
    /// All files of a directory from one file name to another: the
    /// directory, the first name and the last name.
    StartEnd(PathBuf, PathBuf, PathBuf),
    /// The files that are listed.
    List(Vec<String>),
}

/// Why the command line gives no `Args`.
#[derive(Debug, PartialEq)]
pub enum ArgsError {
    /// The options could not be parsed.
    Parse(getopts::Fail),
    /// A number was expected.
    ParseInt(std::num::ParseIntError),
    /// The range of files is not usable; holds the reason.
    ImageRange(String),
    /// Help was asked for; holds the text to show.
    DisplayHelp(String),
}

/// The `Debug` form of a text: the text between quotes, with what cannot be
/// printed written as an escape.
pub uninterp spec fn debug_form(text: Seq<char>) -> Seq<char>;

/// Calls `format!` with the `Debug` form of a text.
#[verifier::external_body]
fn quoted(text: &str) -> (r: String)
    ensures
        r@ == debug_form(text@),
{
    format!("{:?}", text)
}

/// The message for a name that is no file name; `name` is the name between
/// quotes.
pub fn invalid_filename_message(name: &str) -> (message: String)
    ensures
        message@ == "Invalid filename "@ + name@,
{
    "Invalid filename ".to_owned().concat(name)
}

/// The directory a file lies in, from what `Path::parent` found: `parent`, or
/// `here` if there is no parent or it is empty.
pub fn directory_of(parent: Option<PathBuf>, parent_is_empty: bool, here: PathBuf) -> (dir: PathBuf)
    ensures
        dir == match parent {
            Some(found) => if parent_is_empty { here } else { found },
            None => here,
        },
{
    match parent {
        Some(found) => if parent_is_empty { here } else { found },
        None => here,
    }
}

/// The directory and the file name of a file, from what `Path::parent` and
/// `Path::file_name` found in its name. A name that ends in a file name gives
/// that name and the directory that `directory_of` says; a name that ends in
/// none gives an `ImageRange` error that shows the name as `shown`.
pub fn split_from(
    parent: Option<PathBuf>,
    parent_is_empty: bool,
    name: Option<PathBuf>,
    here: PathBuf,
    shown: &str,
) -> (r: Result<(PathBuf, PathBuf), ArgsError>)
    ensures
        match name {
            Some(n) => r == Ok::<(PathBuf, PathBuf), ArgsError>(
                (
                    match parent {
                        Some(found) => if parent_is_empty { here } else { found },
                        None => here,
                    },
                    n,
                ),
            ),
            None => r matches Err(ArgsError::ImageRange(message)) && message@ == "Invalid filename "@
                + shown@,
        },
{
    match name {
        Some(n) => Ok((directory_of(parent, parent_is_empty, here), n)),
        None => Err(ArgsError::ImageRange(invalid_filename_message(shown))),
    }
}

/// Splits the name of a file into the directory it lies in and its file
/// name. A name without a directory lies in `.`, so the directory is never
/// the empty path. A name that does not end in a file name gives an
/// `ImageRange` error that shows the name.
///
/// Where a name splits, and whether it ends in a file name, is for
/// `std::path` to say and differs between platforms; `split_from` says what
/// is returned for whatever it found.
pub fn path_and_filename(input: &str) -> (r: Result<(PathBuf, PathBuf), ArgsError>)
    ensures
        r matches Ok(found) ==> path_text(found.0).len() > 0,
        r matches Err(e) ==> (e matches ArgsError::ImageRange(message) && message@
            == "Invalid filename "@ + debug_form(input@)),
{
    proof {
        reveal_strlit(".");
    }
    let parent = path_parent(input);
    let parent_is_empty = match &parent {
        Some(dir) => path_is_empty(dir),
        None => false,
    };
    let name = path_file_name(input);
    let shown = quoted(input);
    split_from(parent, parent_is_empty, name, path_from("."), shown.as_str())
}

/// What the command line asks for: where the frames come from, the frame
/// rate, the sampling stride if one was given, the file to write to if one
/// was given, and how the palette is chosen.
#[derive(Debug, Eq, PartialEq)]
pub struct Args {
    pub source: SourceImages,
    pub fps: usize,
    pub sample_rate: Option<u32>,
    pub out_file: Option<String>,
    pub quantizer: Quantizer,
}

/// The frame rate when none is given.
pub const DEFAULT_FPS: usize = 30;

/// The sampling stride when none is given.
pub const DEFAULT_SAMPLE_RATE: u32 = 1;

/// A text in lower case.
pub uninterp spec fn lower_case(text: Seq<char>) -> Seq<char>;

/// Calls `str::to_lowercase`: the text in lower case.
#[verifier::external_body]
fn lowercase(text: &str) -> (r: String)
    ensures
        r@ == lower_case(text@),
{
    text.to_lowercase()
}

/// The number that a sequence of the digits `0` to `9` spells in decimal, if
/// it holds nothing else.
pub open spec fn digits_value(digits: Seq<char>) -> Option<nat>
    decreases digits.len(),
{
    if digits.len() == 0 {
        Some(0)
    } else {
        match digits_value(digits.drop_last()) {
            Some(v) => if '0' <= digits.last() <= '9' {
                Some((10 * v + (digits.last() as int - '0' as int)) as nat)
            } else {
                None
            },
            None => None,
        }
    }
}

/// The number that a text spells in decimal: the text is a `+` or nothing,
/// followed by at least one digit and by nothing else.
pub open spec fn decimal_value(text: Seq<char>) -> Option<nat> {
    let digits = if text.len() > 0 && text[0] == '+' {
        text.drop_first()
    } else {
        text
    };
    if digits.len() == 0 {
        None
    } else {
        digits_value(digits)
    }
}

/// The number that a text spells in decimal, if it spells one that is at
/// most `most`.
pub open spec fn number_up_to(text: Seq<char>, most: nat) -> Option<nat> {
    match decimal_value(text) {
        Some(v) => if v <= most { Some(v) } else { None },
        None => None,
    }
}

/// Calls `usize::from_str`: the number that the text spells in decimal if it
/// spells one that a `usize` can hold, and else why it gives none.
#[verifier::external_body]
fn parse_usize(text: &str) -> (r: Result<usize, std::num::ParseIntError>)
    ensures
        r matches Ok(n) ==> number_up_to(text@, usize::MAX as nat) == Some(n as nat),
        r is Err ==> number_up_to(text@, usize::MAX as nat) is None,
{
    usize::from_str(text)
}

/// Calls `u32::from_str`: the number that the text spells in decimal if it
/// spells one that a `u32` can hold, and else why it gives none.
#[verifier::external_body]
fn parse_u32(text: &str) -> (r: Result<u32, std::num::ParseIntError>)
    ensures
        r matches Ok(n) ==> number_up_to(text@, u32::MAX as nat) == Some(n as nat),
        r is Err ==> number_up_to(text@, u32::MAX as nat) is None,
{
    u32::from_str(text)
}

/// The first line of the help text, which names the program.
pub fn usage_brief(program: &str) -> (brief: String)
    ensures
        brief@ == "Usage: "@ + program@ + " <files ...>"@,
{
    "Usage: ".to_owned().concat(program).concat(" <files ...>")
}

/// The quantizer that a name in lower case stands for: `naive` is the
/// frequency strategy, anything else and no name at all the trained one, with
/// the given stride or `DEFAULT_SAMPLE_RATE`.
pub fn choose_quantizer(name: Option<String>, sample_rate: Option<u32>) -> (q: Quantizer)
    ensures
        q == if name matches Some(text) && text@ == "naive"@ {
            Quantizer::Naive
        } else {
            Quantizer::NeuQuant(
                match sample_rate {
                    Some(n) => n,
                    None => DEFAULT_SAMPLE_RATE,
                },
            )
        },
{
    let stride: u32 = match sample_rate {
        Some(n) => n,
        None => DEFAULT_SAMPLE_RATE,
    };
    match name {
        Some(text) => {
            if text == "naive".to_owned() {
                Quantizer::Naive
            } else {
                Quantizer::NeuQuant(stride)
            }
        },
        None => Quantizer::NeuQuant(stride),
    }
}

/// The frame rate from what was given for it: `DEFAULT_FPS` if nothing was
/// given, the number if one was given, and a `ParseInt` error if what was
/// given is no number.
pub fn frame_rate(given: Option<Result<usize, std::num::ParseIntError>>) -> (r: Result<usize, ArgsError>)
    ensures
        r == match given {
            None => Ok(DEFAULT_FPS),
            Some(Ok(n)) => Ok(n),
            Some(Err(e)) => Err(ArgsError::ParseInt(e)),
        },
{
    match given {
        None => Ok(DEFAULT_FPS),
        Some(Ok(n)) => Ok(n),
        Some(Err(e)) => Err(ArgsError::ParseInt(e)),
    }
}

/// The sampling stride from what was given for it: none if nothing was
/// given, the number if one was given, and a `ParseInt` error if what was
/// given is no number.
pub fn sample_stride(given: Option<Result<u32, std::num::ParseIntError>>) -> (r: Result<Option<u32>, ArgsError>)
    ensures
        r == match given {
            None => Ok(None),
            Some(Ok(n)) => Ok(Some(n)),
            Some(Err(e)) => Err(ArgsError::ParseInt(e)),
        },
{
    match given {
        None => Ok(None),
        Some(Ok(n)) => Ok(Some(n)),
        Some(Err(e)) => Err(ArgsError::ParseInt(e)),
    }
}

/// The error for a range that lacks file names: `given` is how many were
/// given, and fewer than two are too few.
pub fn incomplete_range(given: usize) -> (e: ArgsError)
    requires
        given < 2,
    ensures
        e matches ArgsError::ImageRange(message) && message@ == if given == 1 {
            "missing end filename"@
        } else {
            "missing start and end filenames"@
        },
{
    if given == 1 {
        ArgsError::ImageRange("missing end filename".to_owned())
    } else {
        ArgsError::ImageRange("missing start and end filenames".to_owned())
    }
}

/// The range from the directory and file name of its first and of its last
/// file. The two files must lie in the same directory.
pub fn range_source(start: (PathBuf, PathBuf), end: (PathBuf, PathBuf), same_directory: bool) -> (r: Result<
    SourceImages,
    ArgsError,
>)
    ensures
        same_directory ==> r == Ok::<SourceImages, ArgsError>(SourceImages::StartEnd(start.0, start.1, end.1)),
        !same_directory ==> (r matches Err(ArgsError::ImageRange(message)) && message@
            == "start and end files are from different directories"@),
{
    if same_directory {
        Ok(SourceImages::StartEnd(start.0, start.1, end.1))
    } else {
        Err(ArgsError::ImageRange("start and end files are from different directories".to_owned()))
    }
}

/// The options of the command line, as they are declared.
pub open spec fn option_table() -> Seq<Declared> {
    seq![
        declared("o"@, "outfile"@, "engiffen to this filename"@, "FILE"@, true),
        declared("f"@, "framerate"@, "frames per second"@, "30"@, true),
        declared(
            "s"@,
            "sample-rate"@,
            "reduces how many pixels are analyzed when generating palette, higher means faster"@,
            "2"@,
            true,
        ),
        declared("q"@, "quantizer"@, "pick quantizer algorithm (default: neuquant)"@, "naive"@, true),
        declared("r"@, "range"@, "arguments specify start and end images"@, Seq::empty(), false),
        declared("h"@, "help"@, "display this help"@, Seq::empty(), false),
    ]
}

/// Whether the option of that name was given.
pub open spec fn is_given(given: Given, name: Seq<char>) -> bool {
    given[name].len() > 0
}

/// The value given for the option of that name, if one was given.
pub open spec fn value_of(given: Given, name: Seq<char>) -> Option<Seq<char>> {
    first_value(given[name])
}

/// The frame rate that is asked for: `DEFAULT_FPS` without `-f`, the number
/// given with it, and nothing if what is given is no number.
pub open spec fn wanted_fps(given: Given) -> Option<usize> {
    match value_of(given, "f"@) {
        Some(text) => match number_up_to(text, usize::MAX as nat) {
            Some(n) => Some(n as usize),
            None => None,
        },
        None => Some(DEFAULT_FPS),
    }
}

/// The sampling stride that is asked for: none without `-s`, the number
/// given with it, and nothing if what is given is no number.
pub open spec fn wanted_stride(given: Given) -> Option<Option<u32>> {
    match value_of(given, "s"@) {
        Some(text) => match number_up_to(text, u32::MAX as nat) {
            Some(n) => Some(Some(n as u32)),
            None => None,
        },
        None => Some(None),
    }
}

/// The quantizer that is asked for: the frequency strategy if `-q` comes
/// with `naive` in any case of the letters, else the trained one with the
/// stride that is asked for, or `DEFAULT_SAMPLE_RATE`.
pub open spec fn wanted_quantizer(given: Given, stride: Option<u32>) -> Quantizer {
    if value_of(given, "q"@) matches Some(text) && lower_case(text) == "naive"@ {
        Quantizer::Naive
    } else {
        Quantizer::NeuQuant(
            match stride {
                Some(n) => n,
                None => DEFAULT_SAMPLE_RATE,
            },
        )
    }
}

/// Whether `args` holds the frame rate, the stride, the quantizer and the
/// file to write to that are asked for.
pub open spec fn holds_settings(args: Args, given: Given) -> bool {
    &&& Some(args.fps) == wanted_fps(given)
    &&& Some(args.sample_rate) == wanted_stride(given)
    &&& args.quantizer == wanted_quantizer(given, args.sample_rate)
    &&& match args.out_file {
        Some(file) => value_of(given, "o"@) == Some(file@),
        None => value_of(given, "o"@) is None,
    }
}

/// Whether `message` says why the first two of the free arguments are no
/// range: one of them does not end in a file name, or their directories
/// differ.
pub open spec fn refuses_range(free: Seq<Seq<char>>, message: Seq<char>) -> bool {
    ||| message == "Invalid filename "@ + debug_form(free[0])
    ||| message == "Invalid filename "@ + debug_form(free[1])
    ||| message == "start and end files are from different directories"@
}

/// Whether `r` is what the command line of the program `program` asks for,
/// when parsing found `given` for the options and `free` besides.
///
/// Help comes first, then a frame rate or a stride that is no number. With
/// `-r` the first two free arguments are the ends of a range, and it is for
/// `std::path` to say where they split; fewer than two are too few. Without
/// `-r` the free arguments are the files.
pub open spec fn reads_as(program: Seq<char>, given: Given, free: Seq<Seq<char>>, r: Result<Args, ArgsError>) -> bool {
    if is_given(given, "h"@) {
        r matches Err(ArgsError::DisplayHelp(text)) && text@ == usage_text(
            option_table(),
            "Usage: "@ + program + " <files ...>"@,
        )
    } else if wanted_fps(given) is None || wanted_stride(given) is None {
        r matches Err(ArgsError::ParseInt(_))
    } else if !is_given(given, "r"@) {
        r matches Ok(args) && holds_settings(args, given) && (args.source matches SourceImages::List(files)
            && texts(files@) == free)
    } else if free.len() < 2 {
        r matches Err(ArgsError::ImageRange(message)) && message@ == if free.len() == 1 {
            "missing end filename"@
        } else {
            "missing start and end filenames"@
        }
    } else {
        match r {
            Ok(args) => holds_settings(args, given) && (args.source matches SourceImages::StartEnd(dir, _, _)
                && path_text(dir).len() > 0),
            Err(e) => e matches ArgsError::ImageRange(message) && refuses_range(free, message@),
        }
    }
}

/// Reads the command line. The first argument is the name of the program.
///
/// `-o FILE` names the file to write to, `-f N` gives the frame rate, `-s N`
/// the sampling stride and `-q NAME` the quantizer; `-r` says that the two
/// remaining arguments are the first and the last file of a range, and `-h`
/// asks for help. Each option also has a long name.
///
/// If the arguments do not fit the options the result is a `Parse` error;
/// otherwise it is what `reads_as` says.
pub fn parse_args(args: &[String]) -> (r: Result<Args, ArgsError>)
    requires
        args@.len() > 0,
    ensures
        match parse_outcome(option_table(), texts(args@.subrange(1, args@.len() as int))) {
            None => r matches Err(ArgsError::Parse(_)),
            Some((given, free)) => reads_as(args@[0]@, given, free, r),
        },
{
    let mut opts = options_new();
    proof {
        reveal_strlit("o");
        reveal_strlit("outfile");
        reveal_strlit("f");
        reveal_strlit("framerate");
        reveal_strlit("s");
        reveal_strlit("sample-rate");
        reveal_strlit("q");
        reveal_strlit("quantizer");
        reveal_strlit("r");
        reveal_strlit("range");
        reveal_strlit("h");
        reveal_strlit("help");
    }
    options_optopt(&mut opts, "o", "outfile", "engiffen to this filename", "FILE");
    options_optopt(&mut opts, "f", "framerate", "frames per second", "30");
    options_optopt(
        &mut opts,
        "s",
        "sample-rate",
        "reduces how many pixels are analyzed when generating palette, higher means faster",
        "2",
    );
    options_optopt(&mut opts, "q", "quantizer", "pick quantizer algorithm (default: neuquant)", "naive");
    options_optflag(&mut opts, "r", "range", "arguments specify start and end images");
    options_optflag(&mut opts, "h", "help", "display this help");
    let ghost table = declared_options(opts);
    proof {
        assert(table =~= option_table());
        assert(table[0].short == "o"@);
        assert(table[1].short == "f"@);
        assert(table[2].short == "s"@);
        assert(table[3].short == "q"@);
        assert(table[4].short == "r"@);
        assert(table[5].short == "h"@);
        assert(all_named(table));
        assert(names_in(table).contains("o"@));
        assert(names_in(table).contains("f"@));
        assert(names_in(table).contains("s"@));
        assert(names_in(table).contains("q"@));
        assert(names_in(table).contains("r"@));
        assert(names_in(table).contains("h"@));
    }
    let matches = match options_parse(&opts, args.split_at(1).1) {
        Ok(m) => m,
        Err(fail) => { return Err(ArgsError::Parse(fail)); },
    };
    let ghost given = given_options(matches);
    let ghost free_texts = free_arguments(matches);
    if matches_opt_present(&matches, "h") {
        let brief = usage_brief(args[0].as_str());
        return Err(ArgsError::DisplayHelp(options_usage(&opts, brief.as_str())));
    }
    let name: Option<String> = match matches_opt_str(&matches, "q") {
        Some(text) => Some(lowercase(text.as_str())),
        None => None,
    };
    let fps: usize = match frame_rate(
        match matches_opt_str(&matches, "f") {
            Some(text) => Some(parse_usize(text.as_str())),
            None => None,
        },
    ) {
        Ok(n) => n,
        Err(e) => { return Err(e); },
    };
    let sample_rate: Option<u32> = match sample_stride(
        match matches_opt_str(&matches, "s") {
            Some(text) => Some(parse_u32(text.as_str())),
            None => None,
        },
    ) {
        Ok(n) => n,
        Err(e) => { return Err(e); },
    };
    let quantizer = choose_quantizer(name, sample_rate);
    let out_file = matches_opt_str(&matches, "o");
    let free = matches_free(&matches);
    assert(Some(fps) == wanted_fps(given));
    assert(Some(sample_rate) == wanted_stride(given));
    assert(quantizer == wanted_quantizer(given, sample_rate));
    let source = if matches_opt_present(&matches, "r") {
        if free.len() >= 2 {
            assert(texts(free@)[0] == free@[0]@);
            assert(texts(free@)[1] == free@[1]@);
            let start = match path_and_filename(free[0].as_str()) {
                Ok(pair) => pair,
                Err(e) => { return Err(e); },
            };
            let end = match path_and_filename(free[1].as_str()) {
                Ok(pair) => pair,
                Err(e) => { return Err(e); },
            };
            let same_directory = path_eq(&start.0, &end.0);
            match range_source(start, end, same_directory) {
                Ok(source) => source,
                Err(e) => { return Err(e); },
            }
        } else {
            assert(texts(free@).len() == free@.len());
            return Err(incomplete_range(free.len()));
        }
    } else {
        SourceImages::List(free)
    };
    Ok(Args { source, fps, sample_rate, out_file, quantizer })
}

} // verus!
