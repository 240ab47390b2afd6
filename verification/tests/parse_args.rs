use engiffen::parse_args::{
    choose_quantizer, frame_rate, incomplete_range, parse_args, sample_stride, Args, ArgsError,
    SourceImages,
};
use engiffen::Quantizer;
use std::path::PathBuf;
use std::str::FromStr;

fn make_args(args: &str) -> Vec<String> {
    args.split(" ").map(|s| s.to_owned()).collect()
}

fn assert_err_eq(actual: Result<Args, ArgsError>, expected: ArgsError) {
    assert!(actual.is_err());
    assert_eq!(actual.err().unwrap(), expected);
}

#[test]
fn test_outfile() {
    let args = parse_args(&make_args("engiffen -o bees.gif"));
    assert!(args.is_ok());
    assert_eq!(args.unwrap().out_file, Some("bees.gif".to_owned()));
}

#[test]
fn test_fps() {
    let args = parse_args(&make_args("engiffen -f 45"));
    assert!(args.is_ok());
    assert_eq!(args.unwrap().fps, 45);
}

#[test]
fn test_fps_missing() {
    let args = parse_args(&make_args("engiffen -f barry"));
    let parse_error = usize::from_str("barry").err().unwrap();
    assert_err_eq(args, ArgsError::ParseInt(parse_error));
}

#[test]
fn test_sample_rate() {
    let args = parse_args(&make_args("engiffen -s 2"));
    assert!(args.is_ok());
    assert_eq!(args.unwrap().sample_rate, Some(2));
}

#[test]
fn test_sample_rate_missing() {
    let args = parse_args(&make_args("engiffen -s barry"));
    let parse_error = u32::from_str("barry").err().unwrap();
    assert_err_eq(args, ArgsError::ParseInt(parse_error));
}

#[test]
fn test_file_list() {
    let args = parse_args(&make_args("engiffen this.jpg that.jpg other.jpg"));
    assert!(args.is_ok());
    assert_eq!(
        args.unwrap().source,
        SourceImages::List(vec![
            "this.jpg".to_owned(),
            "that.jpg".to_owned(),
            "other.jpg".to_owned()
        ])
    );
}

#[test]
fn test_file_range() {
    let args = parse_args(&make_args("engiffen -r thing001.jpg thing010.jpg"));
    assert!(args.is_ok());
    assert_eq!(
        args.unwrap().source,
        SourceImages::StartEnd(
            PathBuf::from("."),
            PathBuf::from("thing001.jpg"),
            PathBuf::from("thing010.jpg")
        )
    );
}

#[test]
fn test_file_range_remote_directory() {
    let args = parse_args(&make_args("engiffen -r ../dir/thing001.jpg ../dir/thing010.jpg"));
    assert!(args.is_ok());
    assert_eq!(
        args.unwrap().source,
        SourceImages::StartEnd(
            PathBuf::from("../dir"),
            PathBuf::from("thing001.jpg"),
            PathBuf::from("thing010.jpg")
        )
    );
}

#[test]
fn test_file_range_different_directories() {
    let args = parse_args(&make_args("engiffen -r ./thing001.jpg ../thing010.jpg"));
    assert_err_eq(
        args,
        ArgsError::ImageRange("start and end files are from different directories".to_string()),
    );
}

#[test]
fn test_file_range_incomplete() {
    let args = parse_args(&make_args("engiffen -r ./thing001.jpg"));
    assert_err_eq(args, ArgsError::ImageRange("missing end filename".to_string()));
}

#[test]
fn test_file_range_missing() {
    let args = parse_args(&make_args("engiffen -r"));
    assert_err_eq(args, ArgsError::ImageRange("missing start and end filenames".to_string()));
}

#[test]
fn test_help() {
    let args = parse_args(&make_args("engiffen -h"));
    match args {
        Err(ArgsError::DisplayHelp(_)) => assert!(true),
        Err(_) => panic!("Wrong error type returned"),
        Ok(_) => panic!("Should not have returned an Ok args result"),
    }
}

#[test]
fn help_text_names_the_program_and_the_options() {
    match parse_args(&make_args("giffer --help")) {
        Err(ArgsError::DisplayHelp(text)) => {
            assert!(text.starts_with("Usage: giffer <files ...>"));
            assert!(text.contains("--outfile"));
            assert!(text.contains("--sample-rate"));
        }
        _ => panic!("help was asked for"),
    }
}

#[test]
fn defaults_without_options() {
    let args = parse_args(&make_args("engiffen a.png")).unwrap();
    assert_eq!(args.fps, 30);
    assert_eq!(args.sample_rate, None);
    assert_eq!(args.out_file, None);
    assert_eq!(args.quantizer, Quantizer::NeuQuant(1));
    assert_eq!(args.source, SourceImages::List(vec!["a.png".to_owned()]));
}

#[test]
fn quantizer_names_ignore_case() {
    let naive = parse_args(&make_args("engiffen -q NAIVE a.png")).unwrap();
    assert_eq!(naive.quantizer, Quantizer::Naive);
    let trained = parse_args(&make_args("engiffen -q NeuQuant -s 3 a.png")).unwrap();
    assert_eq!(trained.quantizer, Quantizer::NeuQuant(3));
    assert_eq!(trained.sample_rate, Some(3));
    let other = parse_args(&make_args("engiffen --quantizer median a.png")).unwrap();
    assert_eq!(other.quantizer, Quantizer::NeuQuant(1));
}

#[test]
fn unknown_option_is_a_parse_error() {
    match parse_args(&make_args("engiffen --bogus")) {
        Err(ArgsError::Parse(fail)) => {
            assert_eq!(fail, getopts::Fail::UnrecognizedOption("bogus".to_owned()));
        }
        _ => panic!("the option is not declared"),
    }
}

#[test]
fn frame_rate_error_comes_before_sample_rate_error() {
    let args = parse_args(&make_args("engiffen -s barry -f larry"));
    assert_err_eq(args, ArgsError::ParseInt(usize::from_str("larry").err().unwrap()));
}

#[test]
fn choose_quantizer_by_name() {
    assert_eq!(choose_quantizer(Some("naive".to_owned()), Some(4)), Quantizer::Naive);
    assert_eq!(choose_quantizer(Some("neuquant".to_owned()), Some(4)), Quantizer::NeuQuant(4));
    assert_eq!(choose_quantizer(Some("naive ".to_owned()), None), Quantizer::NeuQuant(1));
    assert_eq!(choose_quantizer(None, None), Quantizer::NeuQuant(1));
}

#[test]
fn frame_rate_and_stride_from_what_was_given() {
    assert_eq!(frame_rate(None), Ok(30));
    assert_eq!(frame_rate(Some(Ok(12))), Ok(12));
    let bad = usize::from_str("x").err().unwrap();
    assert_eq!(frame_rate(Some(Err(bad.clone()))), Err(ArgsError::ParseInt(bad)));
    assert_eq!(sample_stride(None), Ok(None));
    assert_eq!(sample_stride(Some(Ok(2))), Ok(Some(2)));
    let bad = u32::from_str("-1").err().unwrap();
    assert_eq!(sample_stride(Some(Err(bad.clone()))), Err(ArgsError::ParseInt(bad)));
}

#[test]
fn incomplete_range_messages() {
    assert_eq!(incomplete_range(1), ArgsError::ImageRange("missing end filename".to_owned()));
    assert_eq!(
        incomplete_range(0),
        ArgsError::ImageRange("missing start and end filenames".to_owned())
    );
}

#[test]
fn numbers_are_decimal_digits_with_an_optional_plus() {
    assert_eq!(parse_args(&make_args("engiffen -f +45")).unwrap().fps, 45);
    assert_eq!(parse_args(&make_args("engiffen -f 007")).unwrap().fps, 7);
    assert_eq!(parse_args(&make_args("engiffen -s 4294967295")).unwrap().sample_rate, Some(u32::MAX));
    for bad in ["-f=-1", "-f=+", "-f=", "-f=1_000", "-f=12a", "-f=++1", "-s=4294967296", "-s=-0"] {
        let line = format!("engiffen {}", bad.replace("=", " "));
        let args: Vec<String> = if bad == "-f=" {
            vec!["engiffen".to_owned(), "-f".to_owned(), "".to_owned()]
        } else {
            make_args(&line)
        };
        match parse_args(&args) {
            Err(ArgsError::ParseInt(_)) => {}
            other => panic!("{:?} is no number, got {:?}", bad, other),
        }
    }
}

#[test]
fn help_comes_before_everything_else() {
    assert!(matches!(
        parse_args(&make_args("engiffen -f barry -h -r")),
        Err(ArgsError::DisplayHelp(_))
    ));
}

#[test]
fn the_first_value_of_an_option_counts() {
    let args = parse_args(&make_args("engiffen -o a.gif --quantizer NaIvE x.png y.png")).unwrap();
    assert_eq!(args.out_file, Some("a.gif".to_owned()));
    assert_eq!(args.quantizer, Quantizer::Naive);
    assert_eq!(args.source, SourceImages::List(vec!["x.png".to_owned(), "y.png".to_owned()]));
}

#[test]
fn a_range_end_without_a_file_name_is_refused() {
    assert_err_eq(
        parse_args(&make_args("engiffen -r a.png ..")),
        ArgsError::ImageRange("Invalid filename \"..\"".to_owned()),
    );
    assert_err_eq(
        parse_args(&make_args("engiffen -r / b.png")),
        ArgsError::ImageRange("Invalid filename \"/\"".to_owned()),
    );
}
