//! The closed set of recognized command-line options, their canonical
//! spellings, descriptions and priority ranks, and the help text built from
//! them.
//!
//! Priority ranks order the application of options when several are active at
//! once; ties are broken by enumeration order, giving one canonical total
//! order over options (`sort_key`).

use crate::text::str_eq;
use vstd::prelude::*;

verus! {

/// A recognized command-line option.
#[derive(Debug, Clone, Copy, PartialEq, Eq, Structural)]
pub enum CommandOptions {
    NumberNonBlank,
    ShowEnds,
    Number,
    ShowTabs,
    Help,
}

/// The priority rank of an option: higher-ranked options are applied later
/// and win conflicts against lower-ranked ones.
#[derive(Debug, Clone, Copy, PartialEq, Eq, Structural)]
pub enum CommandPriority {
    LOW,
    MIDDLE,
    HIGH,
}

/// The static descriptor of one option: its name, its accepted spellings,
/// its help description and its priority.
pub struct CommandStruct {
    pub name: String,
    pub commands: Vec<String>,
    pub description: String,
    pub priority: CommandPriority,
}

impl CommandPriority {
    /// The numeric value of a priority rank.
    pub open spec fn value_spec(self) -> u8 {
        match self {
            CommandPriority::LOW => 0,
            CommandPriority::MIDDLE => 1,
            CommandPriority::HIGH => 2,
        }
    }

    pub fn value(&self) -> (v: u8)
        ensures
            v == self.value_spec(),
    {
        match self {
            CommandPriority::LOW => 0,
            CommandPriority::MIDDLE => 1,
            CommandPriority::HIGH => 2,
        }
    }
}

impl CommandOptions {
    /// The display name of the option.
    pub open spec fn name_spec(self) -> Seq<char> {
        match self {
            CommandOptions::NumberNonBlank => "NumberNonBlank"@,
            CommandOptions::ShowEnds => "ShowEnds"@,
            CommandOptions::Number => "Number"@,
            CommandOptions::ShowTabs => "ShowTabs"@,
            CommandOptions::Help => "Help"@,
        }
    }

    /// The short spelling of the option.
    pub open spec fn short_spelling(self) -> Seq<char> {
        match self {
            CommandOptions::NumberNonBlank => "-b"@,
            CommandOptions::ShowEnds => "-E"@,
            CommandOptions::Number => "-n"@,
            CommandOptions::ShowTabs => "-T"@,
            CommandOptions::Help => "-h"@,
        }
    }

    /// The long spelling of the option.
    pub open spec fn long_spelling(self) -> Seq<char> {
        match self {
            CommandOptions::NumberNonBlank => "--number-nonblank"@,
            CommandOptions::ShowEnds => "--show-ends"@,
            CommandOptions::Number => "--number"@,
            CommandOptions::ShowTabs => "--show-tabs"@,
            CommandOptions::Help => "--help"@,
        }
    }

    /// The help description of the option.
    pub open spec fn description_spec(self) -> Seq<char> {
        match self {
            CommandOptions::NumberNonBlank => "number nonblank output lines"@,
            CommandOptions::ShowEnds => "display $ at end of each line"@,
            CommandOptions::Number => "number all output lines"@,
            CommandOptions::ShowTabs => "display TAB characters as ^I"@,
            CommandOptions::Help => "display this help and exit"@,
        }
    }

    /// The priority of the option.
    pub open spec fn priority_of(self) -> CommandPriority {
        match self {
            CommandOptions::NumberNonBlank => CommandPriority::HIGH,
            CommandOptions::ShowEnds => CommandPriority::LOW,
            CommandOptions::Number => CommandPriority::MIDDLE,
            CommandOptions::ShowTabs => CommandPriority::LOW,
            CommandOptions::Help => CommandPriority::LOW,
        }
    }

    /// The numeric priority rank of the option.
    pub open spec fn rank(self) -> u8 {
        self.priority_of().value_spec()
    }

    /// A canonical total order over options: ascending priority rank, with
    /// ties broken by enumeration order. Distinct options have distinct keys.
    pub open spec fn sort_key(self) -> int {
        match self {
            CommandOptions::ShowEnds => 0,
            CommandOptions::ShowTabs => 1,
            CommandOptions::Help => 2,
            CommandOptions::Number => 3,
            CommandOptions::NumberNonBlank => 4,
        }
    }

    /// The full descriptor of the option.
    pub fn value(&self) -> (r: CommandStruct)
        ensures
            r.name@ == self.name_spec(),
            r.commands@.len() == 2,
            r.commands@[0]@ == self.short_spelling(),
            r.commands@[1]@ == self.long_spelling(),
            r.description@ == self.description_spec(),
            r.priority == self.priority_of(),
    {
        match self {
            CommandOptions::Help => CommandStruct {
                name: String::from_str("Help"),
                commands: vec![String::from_str("-h"), String::from_str("--help")],
                description: String::from_str("display this help and exit"),
                priority: CommandPriority::LOW,
            },
            CommandOptions::ShowEnds => CommandStruct {
                name: String::from_str("ShowEnds"),
                commands: vec![String::from_str("-E"), String::from_str("--show-ends")],
                description: String::from_str("display $ at end of each line"),
                priority: CommandPriority::LOW,
            },
            CommandOptions::ShowTabs => CommandStruct {
                name: String::from_str("ShowTabs"),
                commands: vec![String::from_str("-T"), String::from_str("--show-tabs")],
                description: String::from_str("display TAB characters as ^I"),
                priority: CommandPriority::LOW,
            },
            CommandOptions::Number => CommandStruct {
                name: String::from_str("Number"),
                commands: vec![String::from_str("-n"), String::from_str("--number")],
                description: String::from_str("number all output lines"),
                priority: CommandPriority::MIDDLE,
            },
            CommandOptions::NumberNonBlank => CommandStruct {
                name: String::from_str("NumberNonBlank"),
                commands: vec![String::from_str("-b"), String::from_str("--number-nonblank")],
                description: String::from_str("number nonblank output lines"),
                priority: CommandPriority::HIGH,
            },
        }
    }

    /// The numeric priority rank of the option.
    pub fn priority(&self) -> (v: u8)
        ensures
            v == self.rank(),
    {
        self.value().priority.value()
    }

    /// All options, in enumeration order.
    pub open spec fn all_spec() -> Seq<CommandOptions> {
        seq![
            CommandOptions::NumberNonBlank,
            CommandOptions::ShowEnds,
            CommandOptions::Number,
            CommandOptions::ShowTabs,
            CommandOptions::Help,
        ]
    }

    /// All options, in enumeration order.
    pub fn all() -> (r: Vec<CommandOptions>)
        ensures
            r@ == CommandOptions::all_spec(),
    {
        let r = vec![
            CommandOptions::NumberNonBlank,
            CommandOptions::ShowEnds,
            CommandOptions::Number,
            CommandOptions::ShowTabs,
            CommandOptions::Help,
        ];
        proof {
            assert(r@ =~= CommandOptions::all_spec());
        }
        r
    }

    /// The option a token spells, if any; matching is exact and
    /// case-sensitive.
    pub open spec fn token_option(t: Seq<char>) -> Option<CommandOptions> {
        if t == "-E"@ || t == "--show-ends"@ {
            Some(CommandOptions::ShowEnds)
        } else if t == "-n"@ || t == "--number"@ {
            Some(CommandOptions::Number)
        } else if t == "-h"@ || t == "--help"@ {
            Some(CommandOptions::Help)
        } else if t == "-T"@ || t == "--show-tabs"@ {
            Some(CommandOptions::ShowTabs)
        } else if t == "-b"@ || t == "--number-nonblank"@ {
            Some(CommandOptions::NumberNonBlank)
        } else {
            None
        }
    }

    /// Parses one token into the option it spells.
    pub fn from_token(cmd: &str) -> (r: Option<CommandOptions>)
        ensures
            r == CommandOptions::token_option(cmd@),
    {
        if str_eq(cmd, "-E") || str_eq(cmd, "--show-ends") {
            Some(CommandOptions::ShowEnds)
        } else if str_eq(cmd, "-n") || str_eq(cmd, "--number") {
            Some(CommandOptions::Number)
        } else if str_eq(cmd, "-h") || str_eq(cmd, "--help") {
            Some(CommandOptions::Help)
        } else if str_eq(cmd, "-T") || str_eq(cmd, "--show-tabs") {
            Some(CommandOptions::ShowTabs)
        } else if str_eq(cmd, "-b") || str_eq(cmd, "--number-nonblank") {
            Some(CommandOptions::NumberNonBlank)
        } else {
            None
        }
    }
}

/// Blanks between a help line's spellings and its description, beyond the
/// alignment width.
pub const HELP_MARGIN: usize = 10;

/// The width of the longest long spelling among the given options.
pub open spec fn spelling_width(opts: Seq<CommandOptions>) -> nat
    decreases opts.len(),
{
    if opts.len() == 0 {
        0
    } else {
        let rest = spelling_width(opts.drop_first());
        if opts[0].long_spelling().len() > rest {
            opts[0].long_spelling().len()
        } else {
            rest
        }
    }
}

/// The introductory lines of the help text.
pub open spec fn help_header() -> Seq<char> {
    "Usage: cat [OPTION]... [FILE]...\n"@
        + "Concatenate FILE(s), or standard input, to standard output.\n\n"@
        + "With no FILE, or when FILE is -, read standard input\n\n"@
}

/// One option's help line: its spellings joined by a comma, padded so the
/// descriptions align at `width` plus the margin, then its description.
pub open spec fn help_line_spec(o: CommandOptions, width: nat) -> Seq<char> {
    "  "@ + o.short_spelling() + ", "@ + o.long_spelling() + crate::numeral::spaces(
        (width + HELP_MARGIN - o.long_spelling().len()) as nat,
    ) + o.description_spec() + "\n"@
}

/// The help lines of the given options, in order.
pub open spec fn help_lines(opts: Seq<CommandOptions>, width: nat) -> Seq<char>
    decreases opts.len(),
{
    if opts.len() == 0 {
        Seq::empty()
    } else {
        help_line_spec(opts[0], width) + help_lines(opts.drop_first(), width)
    }
}

/// The whole help text: the header, then one aligned line per option, in
/// enumeration order.
pub open spec fn help_text_spec() -> Seq<char> {
    help_header() + help_lines(
        CommandOptions::all_spec(),
        spelling_width(CommandOptions::all_spec()),
    )
}

proof fn lemma_spelling_width_member(s: Seq<CommandOptions>, i: int)
    requires
        0 <= i < s.len(),
    ensures
        s[i].long_spelling().len() <= spelling_width(s),
    decreases s.len(),
{
    if i > 0 {
        lemma_spelling_width_member(s.drop_first(), i - 1);
    }
}

proof fn lemma_spelling_width_bound(s: Seq<CommandOptions>)
    ensures
        spelling_width(s) <= 17,
    decreases s.len(),
{
    if s.len() > 0 {
        lemma_spelling_width_bound(s.drop_first());
        reveal_strlit("--number-nonblank");
        reveal_strlit("--show-ends");
        reveal_strlit("--number");
        reveal_strlit("--show-tabs");
        reveal_strlit("--help");
        assert(s[0].long_spelling().len() <= 17);
    }
}

proof fn lemma_spelling_width_snoc(s: Seq<CommandOptions>, o: CommandOptions)
    ensures
        spelling_width(s.push(o)) == (if o.long_spelling().len() > spelling_width(s) {
            o.long_spelling().len()
        } else {
            spelling_width(s)
        }),
    decreases s.len(),
{
    if s.len() == 0 {
        assert(s.push(o).drop_first() =~= Seq::<CommandOptions>::empty());
        assert(spelling_width(Seq::<CommandOptions>::empty()) == 0);
    } else {
        lemma_spelling_width_snoc(s.drop_first(), o);
        assert(s.push(o).drop_first() =~= s.drop_first().push(o));
    }
}

proof fn lemma_help_lines_snoc(opts: Seq<CommandOptions>, o: CommandOptions, width: nat)
    ensures
        help_lines(opts.push(o), width) == help_lines(opts, width) + help_line_spec(o, width),
    decreases opts.len(),
{
    if opts.len() == 0 {
        assert(opts.push(o).drop_first() =~= Seq::<CommandOptions>::empty());
        assert(help_lines(Seq::<CommandOptions>::empty(), width) == Seq::<char>::empty());
        assert(help_lines(opts.push(o), width) =~= help_lines(opts, width) + help_line_spec(
            o,
            width,
        ));
    } else {
        lemma_help_lines_snoc(opts.drop_first(), o, width);
        assert(opts.push(o).drop_first() =~= opts.drop_first().push(o));
        assert(help_lines(opts.push(o), width) =~= help_lines(opts, width) + help_line_spec(
            o,
            width,
        ));
    }
}

/// Appends `n` blank characters to the string.
fn append_spaces(out: &mut String, n: usize)
    ensures
        final(out)@ == old(out)@ + crate::numeral::spaces(n as nat),
{
    let mut i: usize = 0;
    proof {
        assert(out@ =~= old(out)@ + crate::numeral::spaces(0));
    }
    while i < n
        invariant
            i <= n,
            out@ == old(out)@ + crate::numeral::spaces(i as nat),
        decreases n - i,
    {
        out.push(' ');
        i = i + 1;
        proof {
            assert(out@ =~= old(out)@ + crate::numeral::spaces(i as nat));
        }
    }
}

/// The formatted help text: usage header, then each option's spellings,
/// aligned to the widest long spelling plus a fixed margin, and its
/// description, one line per option in enumeration order.
pub fn help_text() -> (r: String)
    ensures
        r@ == help_text_spec(),
{
    let all = CommandOptions::all();
    let ghost all_s = CommandOptions::all_spec();
    let mut max_len: usize = 0;
    let mut i: usize = 0;
    proof {
        assert(spelling_width(all_s.take(0)) == 0);
        lemma_spelling_width_bound(all_s);
    }
    while i < all.len()
        invariant
            all@ == all_s,
            all_s == CommandOptions::all_spec(),
            i <= all_s.len(),
            max_len == spelling_width(all_s.take(i as int)),
            max_len <= 17,
        decreases all_s.len() - i,
    {
        proof {
            lemma_spelling_width_snoc(all_s.take(i as int), all_s[i as int]);
            assert(all_s.take(i + 1) =~= all_s.take(i as int).push(all_s[i as int]));
            lemma_spelling_width_bound(all_s.take(i + 1));
        }
        let st = all[i].value();
        let cur = st.commands[1].as_str().unicode_len();
        if cur > max_len {
            max_len = cur;
        }
        i = i + 1;
    }
    proof {
        assert(all_s.take(all_s.len() as int) =~= all_s);
    }
    let ghost width = spelling_width(all_s);
    let mut out = String::new();
    out.append("Usage: cat [OPTION]... [FILE]...\n");
    out.append("Concatenate FILE(s), or standard input, to standard output.\n\n");
    out.append("With no FILE, or when FILE is -, read standard input\n\n");
    proof {
        assert(out@ =~= help_header());
        assert(out@ =~= help_header() + help_lines(all_s.take(0), width));
    }
    let mut j: usize = 0;
    while j < all.len()
        invariant
            all@ == all_s,
            all_s == CommandOptions::all_spec(),
            j <= all_s.len(),
            max_len == width,
            width == spelling_width(all_s),
            max_len <= 17,
            out@ == help_header() + help_lines(all_s.take(j as int), width),
        decreases all_s.len() - j,
    {
        proof {
            lemma_help_lines_snoc(all_s.take(j as int), all_s[j as int], width);
            assert(all_s.take(j + 1) =~= all_s.take(j as int).push(all_s[j as int]));
            lemma_spelling_width_member(all_s, j as int);
        }
        let st = all[j].value();
        out.append("  ");
        out.append(st.commands[0].as_str());
        out.append(", ");
        out.append(st.commands[1].as_str());
        let cur = st.commands[1].as_str().unicode_len();
        let space = max_len + HELP_MARGIN - cur;
        append_spaces(&mut out, space);
        out.append(st.description.as_str());
        out.append("\n");
        j = j + 1;
        proof {
            assert(out@ =~= help_header() + help_lines(all_s.take(j as int), width));
        }
    }
    proof {
        assert(all_s.take(all_s.len() as int) =~= all_s);
    }
    out
}

/// The canonical order refines priority rank: an option with a smaller sort
/// key never has a larger priority rank.
pub proof fn lemma_sort_key_refines_rank(a: CommandOptions, b: CommandOptions)
    ensures
        a.sort_key() < b.sort_key() ==> a.rank() <= b.rank(),
        a.sort_key() == b.sort_key() ==> a == b,
{
}

} // verus!
