//! The line transformer: applies a resolved option sequence, in order, to a
//! buffered text. Each option's rule is specified over the `Seq<char>` view
//! of the text and proved of the executable pass that implements it.

use crate::lines::lines_of;
use crate::lines::split_lines;
use crate::numeral::dec_rep;
use crate::numeral::push_dec;
use crate::numeral::push_spaces;
use crate::numeral::spaces;
use crate::options::CommandOptions;
use crate::text::chars_to_string;
use crate::text::str_to_chars;
use vstd::prelude::*;

verus! {

/// `s` with every horizontal-tab character replaced by the two characters
/// `^I`.
pub open spec fn replace_tabs(s: Seq<char>) -> Seq<char>
    decreases s.len(),
{
    if s.len() == 0 {
        Seq::empty()
    } else if s[0] == '\t' {
        seq!['^', 'I'] + replace_tabs(s.drop_first())
    } else {
        seq![s[0]] + replace_tabs(s.drop_first())
    }
}

/// The lines, each with `$` appended and closed by a newline.
pub open spec fn ends_render(ls: Seq<Seq<char>>) -> Seq<char>
    decreases ls.len(),
{
    if ls.len() == 0 {
        Seq::empty()
    } else {
        ls[0] + seq!['$', '\n'] + ends_render(ls.drop_first())
    }
}

/// The lines, each prefixed by its 1-based number (counting from `k`) and a
/// blank, and closed by a newline.
pub open spec fn number_render(ls: Seq<Seq<char>>, k: nat) -> Seq<char>
    decreases ls.len(),
{
    if ls.len() == 0 {
        Seq::empty()
    } else {
        dec_rep(k + 1) + seq![' '] + ls[0] + seq!['\n'] + number_render(ls.drop_first(), k + 1)
    }
}

/// How many of the lines are non-empty.
pub open spec fn nonblank_count(ls: Seq<Seq<char>>) -> nat
    decreases ls.len(),
{
    if ls.len() == 0 {
        0
    } else {
        (if ls[0].len() == 0 {
            0nat
        } else {
            1nat
        }) + nonblank_count(ls.drop_first())
    }
}

/// The blank prefix of an unnumbered line: as wide as the numeric prefix of
/// the last numbered line, or empty while no line has been numbered yet.
pub open spec fn nnb_pad(c: nat) -> Seq<char> {
    if c == 0 {
        Seq::empty()
    } else {
        spaces(dec_rep(c).len())
    }
}

/// The lines under non-blank numbering, starting from counter `c`: each
/// non-empty line is prefixed by the incremented counter and a blank, each
/// empty line by padding of the counter's width and a blank, and every line
/// is closed by a newline.
pub open spec fn nnb_render(ls: Seq<Seq<char>>, c: nat) -> Seq<char>
    decreases ls.len(),
{
    if ls.len() == 0 {
        Seq::empty()
    } else if ls[0].len() == 0 {
        nnb_pad(c) + seq![' ', '\n'] + nnb_render(ls.drop_first(), c)
    } else {
        dec_rep(c + 1) + seq![' '] + ls[0] + seq!['\n'] + nnb_render(ls.drop_first(), c + 1)
    }
}

/// One option's rule applied to the text `s`; `active` is the whole option
/// sequence of the invocation, which the Number rule consults to defer to
/// Number-Non-Blank.
pub open spec fn apply_option(
    s: Seq<char>,
    o: CommandOptions,
    active: Seq<CommandOptions>,
) -> Seq<char> {
    match o {
        CommandOptions::ShowTabs => replace_tabs(s),
        CommandOptions::ShowEnds => ends_render(lines_of(s)),
        CommandOptions::Number => if active.contains(CommandOptions::NumberNonBlank) {
            s
        } else {
            number_render(lines_of(s), 0)
        },
        CommandOptions::NumberNonBlank => nnb_render(lines_of(s), 0),
        CommandOptions::Help => s,
    }
}

/// The text after the remaining options `rest` have been applied in order;
/// `all` is the whole option sequence of the invocation.
pub open spec fn process_from(
    s: Seq<char>,
    rest: Seq<CommandOptions>,
    all: Seq<CommandOptions>,
) -> Seq<char>
    decreases rest.len(),
{
    if rest.len() == 0 {
        s
    } else {
        process_from(apply_option(s, rest[0], all), rest.drop_first(), all)
    }
}

/// The text after all options have been applied in order: later options see
/// the output of earlier ones.
pub open spec fn process_spec(s: Seq<char>, opts: Seq<CommandOptions>) -> Seq<char> {
    process_from(s, opts, opts)
}

proof fn lemma_replace_tabs_snoc(s: Seq<char>, c: char)
    ensures
        replace_tabs(s.push(c)) == replace_tabs(s) + (if c == '\t' {
            seq!['^', 'I']
        } else {
            seq![c]
        }),
    decreases s.len(),
{
    let piece = if c == '\t' {
        seq!['^', 'I']
    } else {
        seq![c]
    };
    if s.len() == 0 {
        assert(s.push(c).drop_first() =~= Seq::<char>::empty());
        assert(replace_tabs(Seq::<char>::empty()) == Seq::<char>::empty());
        assert(replace_tabs(s.push(c)) =~= replace_tabs(s) + piece);
    } else {
        lemma_replace_tabs_snoc(s.drop_first(), c);
        assert(s.push(c).drop_first() =~= s.drop_first().push(c));
        assert(replace_tabs(s.push(c)) =~= replace_tabs(s) + piece);
    }
}

proof fn lemma_ends_render_snoc(ls: Seq<Seq<char>>, l: Seq<char>)
    ensures
        ends_render(ls.push(l)) == ends_render(ls) + l + seq!['$', '\n'],
    decreases ls.len(),
{
    if ls.len() == 0 {
        assert(ls.push(l).drop_first() =~~= Seq::<Seq<char>>::empty());
        assert(ends_render(Seq::<Seq<char>>::empty()) == Seq::<char>::empty());
        assert(ends_render(ls.push(l)) =~= ends_render(ls) + l + seq!['$', '\n']);
    } else {
        lemma_ends_render_snoc(ls.drop_first(), l);
        assert(ls.push(l).drop_first() =~~= ls.drop_first().push(l));
        assert(ends_render(ls.push(l)) =~= ends_render(ls) + l + seq!['$', '\n']);
    }
}

proof fn lemma_number_render_snoc(ls: Seq<Seq<char>>, l: Seq<char>, k: nat)
    ensures
        number_render(ls.push(l), k) == number_render(ls, k) + dec_rep(k + ls.len() + 1) + seq![
            ' ',
        ] + l + seq!['\n'],
    decreases ls.len(),
{
    if ls.len() == 0 {
        assert(ls.push(l).drop_first() =~~= Seq::<Seq<char>>::empty());
        assert(number_render(Seq::<Seq<char>>::empty(), k + 1) == Seq::<char>::empty());
        assert(number_render(ls.push(l), k) =~= number_render(ls, k) + dec_rep(k + ls.len() + 1)
            + seq![' '] + l + seq!['\n']);
    } else {
        lemma_number_render_snoc(ls.drop_first(), l, k + 1);
        assert(ls.push(l).drop_first() =~~= ls.drop_first().push(l));
        assert(number_render(ls.push(l), k) =~= number_render(ls, k) + dec_rep(k + ls.len() + 1)
            + seq![' '] + l + seq!['\n']);
    }
}

proof fn lemma_nnb_render_snoc(ls: Seq<Seq<char>>, l: Seq<char>, c: nat)
    ensures
        nnb_render(ls.push(l), c) == nnb_render(ls, c) + (if l.len() == 0 {
            nnb_pad(c + nonblank_count(ls)) + seq![' ', '\n']
        } else {
            dec_rep(c + nonblank_count(ls) + 1) + seq![' '] + l + seq!['\n']
        }),
    decreases ls.len(),
{
    let piece = if l.len() == 0 {
        nnb_pad(c + nonblank_count(ls)) + seq![' ', '\n']
    } else {
        dec_rep(c + nonblank_count(ls) + 1) + seq![' '] + l + seq!['\n']
    };
    if ls.len() == 0 {
        assert(ls.push(l).drop_first() =~~= Seq::<Seq<char>>::empty());
        assert(nnb_render(Seq::<Seq<char>>::empty(), c) == Seq::<char>::empty());
        assert(nnb_render(Seq::<Seq<char>>::empty(), c + 1) == Seq::<char>::empty());
        assert(nnb_render(ls.push(l), c) =~= nnb_render(ls, c) + piece);
    } else {
        assert(ls.push(l).drop_first() =~~= ls.drop_first().push(l));
        if ls[0].len() == 0 {
            lemma_nnb_render_snoc(ls.drop_first(), l, c);
            assert(nnb_render(ls.push(l), c) =~= nnb_render(ls, c) + piece);
        } else {
            lemma_nnb_render_snoc(ls.drop_first(), l, c + 1);
            assert(nnb_render(ls.push(l), c) =~= nnb_render(ls, c) + piece);
        }
    }
}

/// Appends the characters of `src` to `dst`.
fn extend_chars(dst: &mut Vec<char>, src: &Vec<char>)
    ensures
        final(dst)@ == old(dst)@ + src@,
{
    let mut i: usize = 0;
    proof {
        assert(dst@ =~= old(dst)@ + src@.take(0));
    }
    while i < src.len()
        invariant
            i <= src@.len(),
            dst@ == old(dst)@ + src@.take(i as int),
        decreases src@.len() - i,
    {
        dst.push(src[i]);
        i = i + 1;
        proof {
            assert(dst@ =~= old(dst)@ + src@.take(i as int));
        }
    }
    proof {
        assert(src@.take(src@.len() as int) =~= src@);
    }
}

/// The Show-tabs pass: replaces every tab with `^I`.
pub fn show_tabs_pass(text: &Vec<char>) -> (r: Vec<char>)
    ensures
        r@ == replace_tabs(text@),
{
    let mut out: Vec<char> = Vec::new();
    let mut i: usize = 0;
    proof {
        assert(replace_tabs(text@.take(0)) == Seq::<char>::empty());
    }
    while i < text.len()
        invariant
            i <= text@.len(),
            out@ == replace_tabs(text@.take(i as int)),
        decreases text@.len() - i,
    {
        let c = text[i];
        proof {
            lemma_replace_tabs_snoc(text@.take(i as int), text@[i as int]);
            assert(text@.take(i + 1) =~= text@.take(i as int).push(text@[i as int]));
        }
        if c == '\t' {
            out.push('^');
            out.push('I');
        } else {
            out.push(c);
        }
        i = i + 1;
        proof {
            assert(out@ =~= replace_tabs(text@.take(i as int)));
        }
    }
    proof {
        assert(text@.take(text@.len() as int) =~= text@);
    }
    out
}

/// The Show-ends pass: appends `$` to every line, before its terminator.
pub fn show_ends_pass(text: &Vec<char>) -> (r: Vec<char>)
    ensures
        r@ == ends_render(lines_of(text@)),
{
    let lines = split_lines(text);
    let ghost ls = lines@.map_values(|l: Vec<char>| l@);
    let mut out: Vec<char> = Vec::new();
    let mut i: usize = 0;
    proof {
        assert(ends_render(ls.take(0)) == Seq::<char>::empty());
    }
    while i < lines.len()
        invariant
            i <= ls.len(),
            ls == lines@.map_values(|l: Vec<char>| l@),
            lines@.len() == ls.len(),
            out@ == ends_render(ls.take(i as int)),
        decreases ls.len() - i,
    {
        proof {
            lemma_ends_render_snoc(ls.take(i as int), ls[i as int]);
            assert(ls.take(i + 1) =~~= ls.take(i as int).push(ls[i as int]));
        }
        extend_chars(&mut out, &lines[i]);
        out.push('$');
        out.push('\n');
        i = i + 1;
        proof {
            assert(out@ =~= ends_render(ls.take(i as int)));
        }
    }
    proof {
        assert(ls.take(ls.len() as int) =~~= ls);
    }
    out
}

/// The Number pass: prefixes every line with its 1-based number and a blank.
pub fn number_pass(text: &Vec<char>) -> (r: Vec<char>)
    ensures
        r@ == number_render(lines_of(text@), 0),
{
    let lines = split_lines(text);
    let ghost ls = lines@.map_values(|l: Vec<char>| l@);
    let mut out: Vec<char> = Vec::new();
    let mut i: usize = 0;
    proof {
        assert(number_render(ls.take(0), 0) == Seq::<char>::empty());
    }
    while i < lines.len()
        invariant
            i <= ls.len(),
            ls == lines@.map_values(|l: Vec<char>| l@),
            lines@.len() == ls.len(),
            out@ == number_render(ls.take(i as int), 0),
        decreases ls.len() - i,
    {
        proof {
            lemma_number_render_snoc(ls.take(i as int), ls[i as int], 0);
            assert(ls.take(i + 1) =~~= ls.take(i as int).push(ls[i as int]));
        }
        push_dec(i + 1, &mut out);
        out.push(' ');
        extend_chars(&mut out, &lines[i]);
        out.push('\n');
        i = i + 1;
        proof {
            assert(out@ =~= number_render(ls.take(i as int), 0));
        }
    }
    proof {
        assert(ls.take(ls.len() as int) =~~= ls);
    }
    out
}

/// The Number-Non-Blank pass: numbers only non-empty lines, and pads empty
/// lines to the width the numeric prefix last occupied.
pub fn number_nonblank_pass(text: &Vec<char>) -> (r: Vec<char>)
    ensures
        r@ == nnb_render(lines_of(text@), 0),
{
    let lines = split_lines(text);
    let ghost ls = lines@.map_values(|l: Vec<char>| l@);
    let mut out: Vec<char> = Vec::new();
    let mut i: usize = 0;
    let mut count: usize = 0;
    proof {
        assert(nnb_render(ls.take(0), 0) == Seq::<char>::empty());
        assert(nonblank_count(ls.take(0)) == 0);
    }
    while i < lines.len()
        invariant
            i <= ls.len(),
            ls == lines@.map_values(|l: Vec<char>| l@),
            lines@.len() == ls.len(),
            count <= i,
            count == nonblank_count(ls.take(i as int)),
            out@ == nnb_render(ls.take(i as int), 0),
        decreases ls.len() - i,
    {
        proof {
            lemma_nnb_render_snoc(ls.take(i as int), ls[i as int], 0);
            assert(ls.take(i + 1) =~~= ls.take(i as int).push(ls[i as int]));
            lemma_nonblank_count_snoc(ls.take(i as int), ls[i as int]);
        }
        if lines[i].len() == 0 {
            if count > 0 {
                let mut width: Vec<char> = Vec::new();
                push_dec(count, &mut width);
                push_spaces(width.len(), &mut out);
            }
            out.push(' ');
            out.push('\n');
        } else {
            count = count + 1;
            push_dec(count, &mut out);
            out.push(' ');
            extend_chars(&mut out, &lines[i]);
            out.push('\n');
        }
        i = i + 1;
        proof {
            assert(out@ =~= nnb_render(ls.take(i as int), 0));
        }
    }
    proof {
        assert(ls.take(ls.len() as int) =~~= ls);
    }
    out
}

proof fn lemma_nonblank_count_snoc(ls: Seq<Seq<char>>, l: Seq<char>)
    ensures
        nonblank_count(ls.push(l)) == nonblank_count(ls) + (if l.len() == 0 {
            0nat
        } else {
            1nat
        }),
    decreases ls.len(),
{
    if ls.len() == 0 {
        assert(ls.push(l).drop_first() =~~= Seq::<Seq<char>>::empty());
        assert(nonblank_count(Seq::<Seq<char>>::empty()) == 0);
    } else {
        lemma_nonblank_count_snoc(ls.drop_first(), l);
        assert(ls.push(l).drop_first() =~~= ls.drop_first().push(l));
    }
}

/// Whether an option occurs in the sequence.
pub fn contains_option(options: &Vec<CommandOptions>, o: CommandOptions) -> (r: bool)
    ensures
        r == options@.contains(o),
{
    let mut i: usize = 0;
    while i < options.len()
        invariant
            i <= options@.len(),
            forall|k: int| 0 <= k < i ==> options@[k] != o,
        decreases options@.len() - i,
    {
        if options[i] == o {
            return true;
        }
        i = i + 1;
    }
    false
}

/// Applies the resolved options, in the order given, to the whole text.
/// Later options see the output of earlier ones; the Number rule defers to
/// Number-Non-Blank when both are active; the Help option changes nothing.
pub fn process_string(str: String, options: &Vec<CommandOptions>) -> (r: String)
    ensures
        r@ == process_spec(str@, options@),
{
    let ghost orig = str@;
    let ghost all = options@;
    let mut text: Vec<char> = str_to_chars(str.as_str());
    let mut i: usize = 0;
    proof {
        assert(all.skip(0) =~= all);
    }
    while i < options.len()
        invariant
            i <= all.len(),
            options@ == all,
            process_from(text@, all.skip(i as int), all) == process_spec(orig, all),
        decreases all.len() - i,
    {
        let o = options[i];
        proof {
            assert(all.skip(i as int)[0] == all[i as int]);
            assert(all.skip(i as int).drop_first() =~= all.skip(i + 1));
        }
        match o {
            CommandOptions::ShowTabs => {
                text = show_tabs_pass(&text);
            },
            CommandOptions::ShowEnds => {
                text = show_ends_pass(&text);
            },
            CommandOptions::Number => {
                if !contains_option(options, CommandOptions::NumberNonBlank) {
                    text = number_pass(&text);
                }
            },
            CommandOptions::NumberNonBlank => {
                text = number_nonblank_pass(&text);
            },
            CommandOptions::Help => {},
        }
        i = i + 1;
    }
    proof {
        assert(all.skip(all.len() as int) =~= Seq::<CommandOptions>::empty());
    }
    chars_to_string(&text)
}

/// No character of a Show-tabs output is a tab.
pub open spec fn tab_free(s: Seq<char>) -> bool {
    forall|i: int| 0 <= i < s.len() ==> s[i] != '\t'
}

proof fn lemma_replace_tabs_tab_free(s: Seq<char>)
    ensures
        tab_free(replace_tabs(s)),
    decreases s.len(),
{
    if s.len() > 0 {
        lemma_replace_tabs_tab_free(s.drop_first());
    }
}

proof fn lemma_replace_tabs_fixpoint(s: Seq<char>)
    requires
        tab_free(s),
    ensures
        replace_tabs(s) == s,
    decreases s.len(),
{
    if s.len() > 0 {
        assert(tab_free(s.drop_first()));
        lemma_replace_tabs_fixpoint(s.drop_first());
        assert(replace_tabs(s) =~= s);
    }
}

/// Show-tabs is idempotent: applying it twice yields the same text as
/// applying it once, since the rule only targets literal tab characters and
/// its output contains none.
pub proof fn lemma_show_tabs_idempotent(s: Seq<char>)
    ensures
        replace_tabs(replace_tabs(s)) == replace_tabs(s),
{
    lemma_replace_tabs_tab_free(s);
    lemma_replace_tabs_fixpoint(replace_tabs(s));
}

/// Show-tabs twice in the pipeline equals Show-tabs once.
pub proof fn lemma_show_tabs_twice(s: Seq<char>)
    ensures
        process_spec(s, seq![CommandOptions::ShowTabs, CommandOptions::ShowTabs]) == process_spec(
            s,
            seq![CommandOptions::ShowTabs],
        ),
{
    let twice = seq![CommandOptions::ShowTabs, CommandOptions::ShowTabs];
    let once = seq![CommandOptions::ShowTabs];
    lemma_show_tabs_idempotent(s);
    assert(twice.drop_first() =~= once);
    assert(once.drop_first() =~= Seq::<CommandOptions>::empty());
    assert(process_from(s, twice, twice) == process_from(replace_tabs(s), once, twice));
    assert(process_from(replace_tabs(s), once, twice) == process_from(
        replace_tabs(replace_tabs(s)),
        Seq::<CommandOptions>::empty(),
        twice,
    ));
    assert(process_from(replace_tabs(replace_tabs(s)), Seq::<CommandOptions>::empty(), twice)
        == replace_tabs(replace_tabs(s)));
    assert(process_from(s, once, once) == process_from(
        replace_tabs(s),
        Seq::<CommandOptions>::empty(),
        once,
    ));
    assert(process_from(replace_tabs(s), Seq::<CommandOptions>::empty(), once) == replace_tabs(s));
}

/// Number is fully suppressed wherever Number-Non-Blank is active: applying
/// any Number-free prefix `p` and then Number followed by Number-Non-Blank
/// yields the same text as applying `p` and then Number-Non-Blank alone,
/// whatever option sequences the two invocations carry, as long as the first
/// one activates Number-Non-Blank.
pub proof fn lemma_number_suppressed_after(
    s: Seq<char>,
    p: Seq<CommandOptions>,
    all1: Seq<CommandOptions>,
    all2: Seq<CommandOptions>,
)
    requires
        all1.contains(CommandOptions::NumberNonBlank),
        forall|k: int| 0 <= k < p.len() ==> p[k] != CommandOptions::Number,
    ensures
        process_from(s, p + seq![CommandOptions::Number, CommandOptions::NumberNonBlank], all1)
            == process_from(s, p + seq![CommandOptions::NumberNonBlank], all2),
    decreases p.len(),
{
    let suf1 = seq![CommandOptions::Number, CommandOptions::NumberNonBlank];
    let suf2 = seq![CommandOptions::NumberNonBlank];
    if p.len() == 0 {
        assert(p + suf1 =~= suf1);
        assert(p + suf2 =~= suf2);
        assert(apply_option(s, CommandOptions::Number, all1) == s);
        assert(suf1.drop_first() =~= suf2);
        assert(suf2.drop_first() =~= Seq::<CommandOptions>::empty());
        let out = nnb_render(lines_of(s), 0);
        assert(process_from(s, suf1, all1) == process_from(s, suf2, all1));
        assert(process_from(s, suf2, all1) == process_from(out, Seq::<CommandOptions>::empty(), all1));
        assert(process_from(s, suf2, all2) == process_from(out, Seq::<CommandOptions>::empty(), all2));
    } else {
        let o = p[0];
        assert(apply_option(s, o, all1) == apply_option(s, o, all2));
        let t = apply_option(s, o, all1);
        assert((p + suf1)[0] == o);
        assert((p + suf2)[0] == o);
        assert((p + suf1).drop_first() =~= p.drop_first() + suf1);
        assert((p + suf2).drop_first() =~= p.drop_first() + suf2);
        assert(forall|k: int| 0 <= k < p.drop_first().len() ==> p.drop_first()[k]
            != CommandOptions::Number);
        lemma_number_suppressed_after(t, p.drop_first(), all1, all2);
    }
}

/// Number and Number-Non-Blank together: the Number rule is fully
/// suppressed, and the output matches the Number-Non-Blank-only output
/// exactly.
pub proof fn lemma_number_suppressed(s: Seq<char>)
    ensures
        process_spec(s, seq![CommandOptions::Number, CommandOptions::NumberNonBlank])
            == process_spec(s, seq![CommandOptions::NumberNonBlank]),
{
    let both = seq![CommandOptions::Number, CommandOptions::NumberNonBlank];
    let only = seq![CommandOptions::NumberNonBlank];
    assert(both.contains(CommandOptions::NumberNonBlank)) by {
        assert(both[1] == CommandOptions::NumberNonBlank);
    }
    assert(apply_option(s, CommandOptions::Number, both) == s);
    assert(both.drop_first() =~= only);
    assert(only.drop_first() =~= Seq::<CommandOptions>::empty());
    let out = nnb_render(lines_of(s), 0);
    assert(process_from(out, Seq::<CommandOptions>::empty(), both) == out);
    assert(process_from(out, Seq::<CommandOptions>::empty(), only) == out);
    assert(process_from(s, only, both) == process_from(out, only.drop_first(), both));
    assert(process_spec(s, both) == out);
    assert(process_spec(s, only) == out);
}

} // verus!
