use vcat::options::CommandOptions;
use vcat::resolve::resolve_args;
use vcat::text::concat_strings;
use vcat::transform::process_string;

fn run(text: &str, options: &[CommandOptions]) -> String {
    process_string(text.to_string(), &options.to_vec())
}

#[test]
fn no_options_change_nothing() {
    assert_eq!(run("abc", &[]), "abc");
    assert_eq!(run("abc\n", &[]), "abc\n");
    assert_eq!(run("", &[]), "");
}

#[test]
fn help_is_a_no_op_in_the_transformer() {
    assert_eq!(run("a\tb\n", &[CommandOptions::Help]), "a\tb\n");
}

#[test]
fn show_ends_appends_dollar_to_each_line() {
    assert_eq!(run("abc", &[CommandOptions::ShowEnds]), "abc$\n");
    assert_eq!(run("abc\n", &[CommandOptions::ShowEnds]), "abc$\n");
    assert_eq!(run("\n", &[CommandOptions::ShowEnds]), "$\n");
    assert_eq!(run("a\nb", &[CommandOptions::ShowEnds]), "a$\nb$\n");
    assert_eq!(run("", &[CommandOptions::ShowEnds]), "");
}

#[test]
fn show_tabs_rewrites_every_tab() {
    assert_eq!(run("a\tb", &[CommandOptions::ShowTabs]), "a^Ib");
    assert_eq!(run("\t\t", &[CommandOptions::ShowTabs]), "^I^I");
    assert_eq!(run("no tabs", &[CommandOptions::ShowTabs]), "no tabs");
}

#[test]
fn show_tabs_is_idempotent() {
    let once = run("a\tb\t\n\tc", &[CommandOptions::ShowTabs]);
    let twice = run(&once, &[CommandOptions::ShowTabs]);
    assert_eq!(twice, once);
}

#[test]
fn number_counts_every_line() {
    assert_eq!(run("x\n\ny\n", &[CommandOptions::Number]), "1 x\n2 \n3 y\n");
}

#[test]
fn number_goes_past_nine() {
    let text = "a\na\na\na\na\na\na\na\na\na\na\na";
    let out = run(text, &[CommandOptions::Number]);
    let expected =
        "1 a\n2 a\n3 a\n4 a\n5 a\n6 a\n7 a\n8 a\n9 a\n10 a\n11 a\n12 a\n";
    assert_eq!(out, expected);
}

#[test]
fn number_nonblank_aligns_blank_lines() {
    assert_eq!(run("a\n\nb", &[CommandOptions::NumberNonBlank]), "1 a\n  \n2 b\n");
}

#[test]
fn number_nonblank_skips_blank_lines_in_the_count() {
    assert_eq!(
        run("\na\n\n\nb\n", &[CommandOptions::NumberNonBlank]),
        " \n1 a\n  \n  \n2 b\n"
    );
}

#[test]
fn number_nonblank_pad_widens_with_the_counter() {
    let text = "a\na\na\na\na\na\na\na\na\na\n\nb";
    let out = run(text, &[CommandOptions::NumberNonBlank]);
    let expected =
        "1 a\n2 a\n3 a\n4 a\n5 a\n6 a\n7 a\n8 a\n9 a\n10 a\n   \n11 b\n";
    assert_eq!(out, expected);
}

#[test]
fn number_is_suppressed_by_number_nonblank() {
    let text = "x\n\ny\n";
    let both = run(text, &[CommandOptions::Number, CommandOptions::NumberNonBlank]);
    let only = run(text, &[CommandOptions::NumberNonBlank]);
    assert_eq!(both, only);
    assert_eq!(both, "1 x\n  \n2 y\n");
}

#[test]
fn later_options_see_earlier_output() {
    assert_eq!(
        run("x\n", &[CommandOptions::ShowTabs, CommandOptions::ShowEnds]),
        "x$\n"
    );
    assert_eq!(
        run("a\tb", &[CommandOptions::ShowEnds, CommandOptions::ShowTabs]),
        "a^Ib$\n"
    );
}

#[test]
fn end_to_end_number_and_show_ends() {
    let resolved = resolve_args(&vec!["-n".to_string(), "-E".to_string(), "a.txt".to_string()])
        .unwrap();
    assert_eq!(resolved.file_paths, vec!["a.txt".to_string()]);
    let out = process_string("x\n\ny\n".to_string(), &resolved.options);
    assert_eq!(out, "1 x$\n2 $\n3 y$\n");
}

#[test]
fn all_four_options_compose_in_priority_order() {
    let resolved = resolve_args(&vec![
        "-b".to_string(),
        "-n".to_string(),
        "-T".to_string(),
        "-E".to_string(),
        "f".to_string(),
    ])
    .unwrap();
    assert_eq!(
        resolved.options,
        vec![
            CommandOptions::ShowEnds,
            CommandOptions::ShowTabs,
            CommandOptions::Number,
            CommandOptions::NumberNonBlank,
        ]
    );
    // Show-ends runs first, so the blank line has already become `$` and is
    // no longer blank by the time Number-Non-Blank counts it.
    let out = process_string("a\tb\n\nc".to_string(), &resolved.options);
    assert_eq!(out, "1 a^Ib$\n2 $\n3 c$\n");
}

#[test]
fn concat_joins_parts_in_order() {
    let parts = vec!["x\n".to_string(), "".to_string(), "\ny\n".to_string()];
    assert_eq!(concat_strings(&parts), "x\n\ny\n");
    assert_eq!(concat_strings(&Vec::new()), "");
}
