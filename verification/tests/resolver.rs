use vcat::options::CommandOptions;
use vcat::options::CommandPriority;
use vcat::resolve::resolve_args;
use vcat::resolve::ParseError;

fn toks(ts: &[&str]) -> Vec<String> {
    ts.iter().map(|t| t.to_string()).collect()
}

#[test]
fn zero_tokens_is_an_error() {
    let r = resolve_args(&toks(&[]));
    assert!(matches!(r, Err(ParseError::MissingArguments)));
}

#[test]
fn unknown_flag_aborts() {
    let r = resolve_args(&toks(&["-z", "file.txt"]));
    match r {
        Err(ParseError::UnknownFlag(t)) => assert_eq!(t, "-z"),
        _ => panic!("expected an unknown-flag error"),
    }
}

#[test]
fn help_short_circuits() {
    let r = resolve_args(&toks(&["-h", "file.txt"]));
    assert!(matches!(r, Err(ParseError::HelpRequested)));
    let r = resolve_args(&toks(&["--help"]));
    assert!(matches!(r, Err(ParseError::HelpRequested)));
}

#[test]
fn help_anywhere_among_option_tokens_short_circuits() {
    let r = resolve_args(&toks(&["-n", "-h", "file"]));
    assert!(matches!(r, Err(ParseError::HelpRequested)));
}

#[test]
fn unknown_flag_beats_later_help() {
    let r = resolve_args(&toks(&["-z", "-h"]));
    match r {
        Err(ParseError::UnknownFlag(t)) => assert_eq!(t, "-z"),
        _ => panic!("expected an unknown-flag error"),
    }
}

#[test]
fn duplicate_flags_collapse() {
    let r = resolve_args(&toks(&["-n", "--number", "-n", "a"])).unwrap();
    assert_eq!(r.options, vec![CommandOptions::Number]);
    assert_eq!(r.file_paths, vec!["a".to_string()]);
}

#[test]
fn resolution_is_order_independent() {
    let a = resolve_args(&toks(&["-n", "-b", "a"])).unwrap();
    let b = resolve_args(&toks(&["-b", "-n", "a"])).unwrap();
    assert_eq!(a.options, b.options);
    assert_eq!(a.options, vec![CommandOptions::Number, CommandOptions::NumberNonBlank]);
}

#[test]
fn options_sorted_by_priority_rank() {
    let r = resolve_args(&toks(&["-b", "-E", "-n", "x"])).unwrap();
    assert_eq!(
        r.options,
        vec![CommandOptions::ShowEnds, CommandOptions::Number, CommandOptions::NumberNonBlank]
    );
    for w in r.options.windows(2) {
        assert!(w[0].priority() <= w[1].priority());
    }
}

#[test]
fn long_spellings_resolve() {
    let r = resolve_args(&toks(&["--show-ends", "--show-tabs", "--number-nonblank", "f"]))
        .unwrap();
    assert_eq!(
        r.options,
        vec![CommandOptions::ShowEnds, CommandOptions::ShowTabs, CommandOptions::NumberNonBlank]
    );
}

#[test]
fn first_non_flag_token_ends_option_scan() {
    let r = resolve_args(&toks(&["-n", "file", "-E"])).unwrap();
    assert_eq!(r.options, vec![CommandOptions::Number]);
    assert_eq!(r.file_paths, vec!["file".to_string(), "-E".to_string()]);
}

#[test]
fn file_paths_keep_order_and_repeats() {
    let r = resolve_args(&toks(&["a", "b", "a"])).unwrap();
    assert_eq!(r.options, Vec::<CommandOptions>::new());
    assert_eq!(r.file_paths, vec!["a".to_string(), "b".to_string(), "a".to_string()]);
}

#[test]
fn flags_without_paths_are_accepted() {
    let r = resolve_args(&toks(&["-E"])).unwrap();
    assert_eq!(r.options, vec![CommandOptions::ShowEnds]);
    assert!(r.file_paths.is_empty());
}

#[test]
fn token_matching_is_exact() {
    assert_eq!(CommandOptions::from_token("-E"), Some(CommandOptions::ShowEnds));
    assert_eq!(CommandOptions::from_token("-n"), Some(CommandOptions::Number));
    assert_eq!(CommandOptions::from_token("-h"), Some(CommandOptions::Help));
    assert_eq!(CommandOptions::from_token("-T"), Some(CommandOptions::ShowTabs));
    assert_eq!(CommandOptions::from_token("-b"), Some(CommandOptions::NumberNonBlank));
    assert_eq!(CommandOptions::from_token("--number"), Some(CommandOptions::Number));
    assert_eq!(CommandOptions::from_token("-N"), None);
    assert_eq!(CommandOptions::from_token("--Number"), None);
    assert_eq!(CommandOptions::from_token("-En"), None);
    assert_eq!(CommandOptions::from_token(""), None);
}

#[test]
fn priority_ranks() {
    assert_eq!(CommandPriority::LOW.value(), 0);
    assert_eq!(CommandPriority::MIDDLE.value(), 1);
    assert_eq!(CommandPriority::HIGH.value(), 2);
    assert_eq!(CommandOptions::ShowEnds.priority(), 0);
    assert_eq!(CommandOptions::ShowTabs.priority(), 0);
    assert_eq!(CommandOptions::Help.priority(), 0);
    assert_eq!(CommandOptions::Number.priority(), 1);
    assert_eq!(CommandOptions::NumberNonBlank.priority(), 2);
}

#[test]
fn descriptor_holds_spellings_and_description() {
    let d = CommandOptions::Help.value();
    assert_eq!(d.name, "Help");
    assert_eq!(d.commands, vec!["-h".to_string(), "--help".to_string()]);
    assert_eq!(d.description, "display this help and exit");
    assert_eq!(d.priority.value(), 0);
    let d = CommandOptions::NumberNonBlank.value();
    assert_eq!(d.name, "NumberNonBlank");
    assert_eq!(d.commands, vec!["-b".to_string(), "--number-nonblank".to_string()]);
    assert_eq!(d.description, "number nonblank output lines");
    assert_eq!(d.priority.value(), 2);
}
