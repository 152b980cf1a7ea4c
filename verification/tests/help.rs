use vcat::options::help_text;

#[test]
fn help_text_is_aligned_and_complete() {
    let header = "Usage: cat [OPTION]... [FILE]...\n\
                  Concatenate FILE(s), or standard input, to standard output.\n\n\
                  With no FILE, or when FILE is -, read standard input\n\n";
    // The longest long spelling is `--number-nonblank` (17 characters); each
    // line pads to that width plus a margin of 10.
    let lines = [
        format!("  -b, --number-nonblank{}number nonblank output lines", " ".repeat(10)),
        format!("  -E, --show-ends{}display $ at end of each line", " ".repeat(16)),
        format!("  -n, --number{}number all output lines", " ".repeat(19)),
        format!("  -T, --show-tabs{}display TAB characters as ^I", " ".repeat(16)),
        format!("  -h, --help{}display this help and exit", " ".repeat(21)),
    ];
    let expected = format!("{}{}\n", header, lines.join("\n"));
    assert_eq!(help_text(), expected);
}
