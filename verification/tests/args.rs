use msegen::args::{
    insert_name, output, verbose, Args, ArgsRegular, Color, Error, HandleShortArgResult, Output,
    RawArgs,
};

fn raw(items: &[&str]) -> RawArgs {
    RawArgs::new(items.iter().map(|item| item.to_string()).collect())
}

fn message(res: Result<impl std::fmt::Debug, Error>) -> String {
    match res {
        Err(Error::Args(text)) => text,
        Ok(value) => panic!("no error, but {:?}", value),
    }
}

fn regular(items: &[&str]) -> ArgsRegular {
    match Args::new(raw(items)) {
        Ok(Args::Regular(args)) => args,
        other => panic!("not regular: {:?}", other),
    }
}

fn is_stdout(output: &Output) -> bool {
    matches!(output, Output::Stdout)
}

fn path(output: &Output) -> &str {
    match output {
        Output::File(path) => path,
        Output::Stdout => panic!("the output is the standard output"),
    }
}

#[test]
fn settings_without_arguments() {
    let args = ArgsRegular::default();
    assert!(!args.all_command);
    assert!(!args.auto_card_numbers);
    assert_eq!(args.border_color, Color { r: 0, g: 0, b: 0, opaque: true });
    assert!(args.cards.is_empty());
    assert_eq!(args.copyright, "NOT FOR SALE");
    assert!(is_stdout(&args.output));
    assert!(args.planes_output.is_none());
    assert!(args.schemes_output.is_none());
    assert_eq!(args.set_code, "PROXY");
    assert!(args.vanguards_output.is_none());
    assert!(!args.verbose);
}

#[test]
fn output_from_a_path_or_an_equals_sign() {
    assert!(is_stdout(&Output::from_str("=").unwrap()));
    assert_eq!(path(&Output::from_str("out.mse-set").unwrap()), "out.mse-set");
    assert_eq!(path(&Output::from_str("==").unwrap()), "==");
    assert_eq!(path(&Output::from_str("").unwrap()), "");
}

#[test]
fn handlers_set_their_field() {
    let mut args = ArgsRegular::default();
    assert!(verbose(&mut args).is_ok());
    assert!(args.verbose);
    assert!(output(&mut args, "a/b").is_ok());
    assert_eq!(path(&args.output), "a/b");
    assert!(output(&mut args, "=").is_ok());
    assert!(is_stdout(&args.output));
    assert!(args.verbose);
}

#[test]
fn names_are_kept_in_order_and_once() {
    let mut names = Vec::new();
    for name in ["Shock", "Opt", "Shock", "Æther Vial", "Opt ", "", "Shoc", "opt", "Opt"] {
        insert_name(&mut names, name.to_string());
    }
    assert_eq!(names, vec!["", "Opt", "Opt ", "Shoc", "Shock", "opt", "Æther Vial"]);
    let mut sorted = names.clone();
    sorted.sort();
    assert_eq!(names, sorted);
}

#[test]
fn line_that_is_a_card() {
    let mut args = ArgsRegular::default();
    assert!(args.handle_line("Lightning Bolt".to_string()).is_ok());
    assert!(args.handle_line("Counterspell\n".to_string()).is_ok());
    assert!(args.handle_line(String::new()).is_ok());
    assert!(args.handle_line("Lightning Bolt".to_string()).is_ok());
    assert_eq!(args.cards, vec!["", "Counterspell\n", "Lightning Bolt"]);
    assert!(!args.verbose);
}

#[test]
fn line_with_a_flag_in_full() {
    let mut args = ArgsRegular::default();
    assert!(args.handle_line("--verbose".to_string()).is_ok());
    assert!(args.verbose);
    assert!(args.cards.is_empty());
    let mut args = ArgsRegular::default();
    assert_eq!(
        message(args.handle_line("--verbose\n".to_string())),
        "unknown option in stdin: --verbose\n"
    );
    assert!(!args.verbose);
}

#[test]
fn line_with_a_setting_in_full() {
    let mut args = ArgsRegular::default();
    assert!(args.handle_line("--output out.mse-set".to_string()).is_ok());
    assert_eq!(path(&args.output), "out.mse-set");
    assert!(args.handle_line("--output=a b=c".to_string()).is_ok());
    assert_eq!(path(&args.output), "a b=c");
    assert!(args.handle_line("--output =".to_string()).is_ok());
    assert!(is_stdout(&args.output));
    assert!(args.handle_line("--output=".to_string()).is_ok());
    assert_eq!(path(&args.output), "");
}

#[test]
fn line_with_an_unknown_argument_in_full() {
    let mut args = ArgsRegular::default();
    assert_eq!(message(args.handle_line("--output".to_string())), "unknown option in stdin: --output");
    assert_eq!(message(args.handle_line("--outputs x".to_string())), "unknown option in stdin: --outputs x");
    assert_eq!(message(args.handle_line("--help".to_string())), "unknown option in stdin: --help");
    assert_eq!(message(args.handle_line("--".to_string())), "unknown option in stdin: --");
    assert!(is_stdout(&args.output));
    assert!(args.cards.is_empty());
}

#[test]
fn line_with_letters() {
    let mut args = ArgsRegular::default();
    assert!(args.handle_line("-v".to_string()).is_ok());
    assert!(args.verbose);
    let mut args = ArgsRegular::default();
    assert!(args.handle_line("-vvoout v".to_string()).is_ok());
    assert!(args.verbose);
    assert_eq!(path(&args.output), "out v");
    let mut args = ArgsRegular::default();
    assert!(args.handle_line("-o".to_string()).is_ok());
    assert_eq!(path(&args.output), "");
    assert!(!args.verbose);
    assert!(args.handle_line("-o=".to_string()).is_ok());
    assert!(is_stdout(&args.output));
    assert!(args.handle_line("-".to_string()).is_ok());
    assert!(args.cards.is_empty());
}

#[test]
fn line_with_an_unknown_letter_keeps_what_came_before() {
    let mut args = ArgsRegular::default();
    assert_eq!(message(args.handle_line("-vxv".to_string())), "unknown option: -x");
    assert!(args.verbose);
    let mut args = ArgsRegular::default();
    assert_eq!(message(args.handle_line("-hv".to_string())), "unknown option: -h");
    assert!(!args.verbose);
    assert_eq!(message(args.handle_line("-é".to_string())), "unknown option: -é");
}

#[test]
fn raw_args_hand_out_in_order() {
    let mut args = raw(&["a", "b"]);
    assert_eq!(args.next(), Some("a".to_string()));
    assert_eq!(args.remaining, vec!["b"]);
    assert_eq!(args.next(), Some("b".to_string()));
    assert_eq!(args.next(), None);
    assert_eq!(args.next(), None);
}

#[test]
fn long_argument_that_is_a_flag() {
    let mut rest = raw(&["x"]);
    let mut args = ArgsRegular::default();
    assert_eq!(Args::handle_long_arg("--verbose", &mut rest, &mut args).unwrap(), true);
    assert!(args.verbose);
    assert_eq!(rest.remaining, vec!["x"]);
}

#[test]
fn long_argument_that_is_a_setting() {
    let mut rest = raw(&["x", "y"]);
    let mut args = ArgsRegular::default();
    assert_eq!(Args::handle_long_arg("--output", &mut rest, &mut args).unwrap(), true);
    assert_eq!(path(&args.output), "x");
    assert_eq!(rest.remaining, vec!["y"]);
    assert_eq!(Args::handle_long_arg("--output=z=1", &mut rest, &mut args).unwrap(), true);
    assert_eq!(path(&args.output), "z=1");
    assert_eq!(rest.remaining, vec!["y"]);
    assert_eq!(Args::handle_long_arg("--output==", &mut rest, &mut args).unwrap(), true);
    assert!(is_stdout(&args.output));
}

#[test]
fn long_argument_without_its_value() {
    let mut rest = raw(&[]);
    let mut args = ArgsRegular::default();
    assert_eq!(
        message(Args::handle_long_arg("--output", &mut rest, &mut args)),
        "missing value for option: --output"
    );
    assert!(is_stdout(&args.output));
}

#[test]
fn long_argument_that_is_not_known() {
    let mut rest = raw(&["x"]);
    let mut args = ArgsRegular::default();
    for arg in ["--help", "--output x", "--verbos", "--verbose=1", "--", "-v", "output"] {
        assert_eq!(Args::handle_long_arg(arg, &mut rest, &mut args).unwrap(), false);
    }
    assert!(!args.verbose);
    assert!(is_stdout(&args.output));
    assert_eq!(rest.remaining, vec!["x"]);
}

#[test]
fn short_argument_that_is_a_flag() {
    let mut rest = raw(&["x"]);
    let mut args = ArgsRegular::default();
    assert_eq!(
        Args::handle_short_arg('v', "o", &mut rest, &mut args).unwrap(),
        HandleShortArgResult::Continue
    );
    assert!(args.verbose);
    assert!(is_stdout(&args.output));
    assert_eq!(rest.remaining, vec!["x"]);
}

#[test]
fn short_argument_that_is_a_setting() {
    let mut rest = raw(&["x", "y"]);
    let mut args = ArgsRegular::default();
    assert_eq!(
        Args::handle_short_arg('o', "here", &mut rest, &mut args).unwrap(),
        HandleShortArgResult::Break
    );
    assert_eq!(path(&args.output), "here");
    assert_eq!(rest.remaining, vec!["x", "y"]);
    assert_eq!(
        Args::handle_short_arg('o', "", &mut rest, &mut args).unwrap(),
        HandleShortArgResult::Break
    );
    assert_eq!(path(&args.output), "x");
    assert_eq!(rest.remaining, vec!["y"]);
}

#[test]
fn short_argument_without_its_value() {
    let mut rest = raw(&[]);
    let mut args = ArgsRegular::default();
    assert_eq!(
        message(Args::handle_short_arg('o', "", &mut rest, &mut args)),
        "missing value for option: -o"
    );
    assert!(is_stdout(&args.output));
}

#[test]
fn short_argument_that_is_not_known() {
    let mut rest = raw(&["x"]);
    let mut args = ArgsRegular::default();
    assert_eq!(
        Args::handle_short_arg('h', "v", &mut rest, &mut args).unwrap(),
        HandleShortArgResult::NoMatch
    );
    assert_eq!(
        Args::handle_short_arg('V', "", &mut rest, &mut args).unwrap(),
        HandleShortArgResult::NoMatch
    );
    assert!(!args.verbose);
    assert_eq!(rest.remaining, vec!["x"]);
}

#[test]
fn command_line_of_cards_and_settings() {
    let args = regular(&["Shock", "-vo", "out", "Opt", "--output=last", "--verbose", "Shock"]);
    assert_eq!(args.cards, vec!["Opt", "Shock"]);
    assert!(args.verbose);
    assert_eq!(path(&args.output), "last");
    let args = regular(&["--output", "--help", "-o", "-v", "-o=", "x"]);
    assert!(is_stdout(&args.output));
    assert!(!args.verbose);
    assert_eq!(args.cards, vec!["x"]);
    let args = regular(&[]);
    assert!(args.cards.is_empty());
    let args = regular(&["-", ""]);
    assert_eq!(args.cards, vec![""]);
}

#[test]
fn command_line_that_asks_for_help_or_the_version() {
    assert!(matches!(Args::new(raw(&["x", "--help", "--nonsense"])), Ok(Args::Help)));
    assert!(matches!(Args::new(raw(&["--version", "-x"])), Ok(Args::Version)));
    assert!(matches!(Args::new(raw(&["-vh", "-x"])), Ok(Args::Help)));
    assert!(matches!(Args::new(raw(&["-h"])), Ok(Args::Help)));
}

#[test]
fn command_line_that_fails() {
    assert_eq!(message(Args::new(raw(&["--nonsense", "--help"]))), "unknown option: --nonsense");
    assert_eq!(message(Args::new(raw(&["--output x"]))), "unknown option: --output x");
    assert_eq!(message(Args::new(raw(&["-vx", "--help"]))), "unknown option: -x");
    assert_eq!(message(Args::new(raw(&["x", "--output"]))), "missing value for option: --output");
    assert_eq!(message(Args::new(raw(&["-vo"]))), "missing value for option: -o");
    assert_eq!(message(Args::new(raw(&["-oh", "-V"]))), "unknown option: -V");
}
