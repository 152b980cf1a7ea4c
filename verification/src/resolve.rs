//! The option resolver: turns the raw tokens after the program name into a
//! deduplicated option sequence in one canonical order, plus the list of file
//! paths, or reports why the run must stop first.
//!
//! Tokens are consumed strictly left to right. A token is an option token
//! exactly when it starts with `-`; classification stops at the first token
//! that does not, and everything from there on is a file path, dashes or not.
//! An unknown flag aborts the run; the help flag short-circuits it.

use crate::options::CommandOptions;
use vstd::prelude::*;

verus! {

/// Which non-terminal options an invocation has activated. Requesting a flag
/// twice has the same effect as once.
#[derive(Debug, Clone, Copy, PartialEq, Eq, Structural)]
pub struct ActiveFlags {
    pub show_ends: bool,
    pub show_tabs: bool,
    pub number: bool,
    pub number_nonblank: bool,
}

impl ActiveFlags {
    /// No option activated.
    pub open spec fn none_spec() -> ActiveFlags {
        ActiveFlags { show_ends: false, show_tabs: false, number: false, number_nonblank: false }
    }

    /// Whether the option is activated. Help is terminal and never
    /// accumulates.
    pub open spec fn active(self, o: CommandOptions) -> bool {
        match o {
            CommandOptions::ShowEnds => self.show_ends,
            CommandOptions::ShowTabs => self.show_tabs,
            CommandOptions::Number => self.number,
            CommandOptions::NumberNonBlank => self.number_nonblank,
            CommandOptions::Help => false,
        }
    }

    /// The flags with one more option activated.
    pub open spec fn activate(self, o: CommandOptions) -> ActiveFlags {
        match o {
            CommandOptions::ShowEnds => ActiveFlags { show_ends: true, ..self },
            CommandOptions::ShowTabs => ActiveFlags { show_tabs: true, ..self },
            CommandOptions::Number => ActiveFlags { number: true, ..self },
            CommandOptions::NumberNonBlank => ActiveFlags { number_nonblank: true, ..self },
            CommandOptions::Help => self,
        }
    }
}

/// The parsed, deduplicated, priority-ordered result of argument resolution.
pub struct Resolved {
    pub options: Vec<CommandOptions>,
    pub file_paths: Vec<String>,
}

/// Why a run stops before any file is processed. Help is terminal and
/// non-zero by convention, though not truly an error.
#[derive(Debug)]
pub enum ParseError {
    MissingArguments,
    UnknownFlag(String),
    HelpRequested,
}

/// The outcome of resolution, over the views of the tokens.
pub enum ResolutionSpec {
    MissingArguments,
    UnknownFlag(Seq<char>),
    HelpRequested,
    Proceed(Seq<CommandOptions>, Seq<Seq<char>>),
}

/// Whether a token is an option token.
pub open spec fn starts_with_dash(t: Seq<char>) -> bool {
    t.len() > 0 && t[0] == '-'
}

/// The activated options listed in the canonical order: ascending priority
/// rank, ties broken by enumeration order.
pub open spec fn canonical_order(f: ActiveFlags) -> Seq<CommandOptions> {
    (if f.show_ends {
        seq![CommandOptions::ShowEnds]
    } else {
        Seq::<CommandOptions>::empty()
    }) + (if f.show_tabs {
        seq![CommandOptions::ShowTabs]
    } else {
        Seq::<CommandOptions>::empty()
    }) + (if f.number {
        seq![CommandOptions::Number]
    } else {
        Seq::<CommandOptions>::empty()
    }) + (if f.number_nonblank {
        seq![CommandOptions::NumberNonBlank]
    } else {
        Seq::<CommandOptions>::empty()
    })
}

/// Scans the leading option tokens of `ts`, left to right, with the options
/// activated so far in `f`: the first unknown flag or help request is
/// terminal; the first non-flag token ends the scan and starts the file
/// paths.
pub open spec fn scan(ts: Seq<Seq<char>>, f: ActiveFlags) -> ResolutionSpec
    decreases ts.len(),
{
    if ts.len() == 0 || !starts_with_dash(ts[0]) {
        ResolutionSpec::Proceed(canonical_order(f), ts)
    } else {
        match CommandOptions::token_option(ts[0]) {
            Option::None => ResolutionSpec::UnknownFlag(ts[0]),
            Option::Some(o) => if o == CommandOptions::Help {
                ResolutionSpec::HelpRequested
            } else {
                scan(ts.drop_first(), f.activate(o))
            },
        }
    }
}

/// Resolution of the raw tokens after the program name: supplying no tokens
/// at all is a user error; otherwise the leading option tokens are scanned
/// and the remaining tokens are the file paths.
pub open spec fn resolve_spec(ts: Seq<Seq<char>>) -> ResolutionSpec {
    if ts.len() == 0 {
        ResolutionSpec::MissingArguments
    } else {
        scan(ts, ActiveFlags::none_spec())
    }
}

/// Whether a token is an option token.
pub fn token_is_flag(t: &str) -> (r: bool)
    ensures
        r == starts_with_dash(t@),
{
    if t.unicode_len() == 0 {
        false
    } else {
        t.get_char(0) == '-'
    }
}

/// Copies the tokens from position `start` on, in their original order.
fn clone_suffix(tokens: &Vec<String>, start: usize) -> (r: Vec<String>)
    requires
        start <= tokens@.len(),
    ensures
        r@.map_values(|p: String| p@) == tokens@.map_values(|t: String| t@).skip(start as int),
{
    let ghost ts = tokens@.map_values(|t: String| t@);
    let mut r: Vec<String> = Vec::new();
    let mut j: usize = start;
    proof {
        assert(r@.map_values(|p: String| p@) =~~= ts.subrange(start as int, start as int));
    }
    while j < tokens.len()
        invariant
            ts == tokens@.map_values(|t: String| t@),
            tokens@.len() == ts.len(),
            start <= j <= ts.len(),
            r@.map_values(|p: String| p@) == ts.subrange(start as int, j as int),
        decreases ts.len() - j,
    {
        let ghost pre = r@;
        r.push(tokens[j].clone());
        j = j + 1;
        proof {
            assert(r@ == pre.push(tokens@[j - 1]));
            assert(ts[j - 1] == tokens@[j - 1]@);
            assert(pre.map_values(|p: String| p@) == ts.subrange(start as int, j - 1));
            assert(pre.map_values(|p: String| p@).len() == pre.len());
            assert(ts.subrange(start as int, j - 1).len() == j - 1 - start);
            assert(pre.len() == j - 1 - start);
            assert forall|k: int| 0 <= k < r@.len() implies r@.map_values(|p: String| p@)[k]
                == #[trigger] ts.subrange(start as int, j as int)[k] by {
                if k < pre.len() {
                    assert(r@[k] == pre[k]);
                    assert(pre.map_values(|p: String| p@)[k] == pre[k]@);
                    assert(ts.subrange(start as int, j - 1)[k] == ts[start + k]);
                } else {
                    assert(r@[k] == tokens@[j - 1]);
                }
            }
            assert(r@.map_values(|p: String| p@) =~~= ts.subrange(start as int, j as int));
        }
    }
    proof {
        assert(ts.subrange(start as int, ts.len() as int) =~~= ts.skip(start as int));
    }
    r
}

/// Resolves the raw argument tokens into options and file paths, or reports
/// the terminal condition: missing arguments, the first unknown flag, or a
/// help request.
pub fn resolve_args(tokens: &Vec<String>) -> (r: Result<Resolved, ParseError>)
    ensures
        ({
            let ts = tokens@.map_values(|t: String| t@);
            match r {
                Result::Ok(res) => resolve_spec(ts) == ResolutionSpec::Proceed(
                    res.options@,
                    res.file_paths@.map_values(|p: String| p@),
                ),
                Result::Err(e) => match e {
                    ParseError::MissingArguments => resolve_spec(ts)
                        == ResolutionSpec::MissingArguments,
                    ParseError::UnknownFlag(t) => resolve_spec(ts) == ResolutionSpec::UnknownFlag(
                        t@,
                    ),
                    ParseError::HelpRequested => resolve_spec(ts)
                        == ResolutionSpec::HelpRequested,
                },
            }
        }),
{
    let ghost ts = tokens@.map_values(|t: String| t@);
    if tokens.len() == 0 {
        return Result::Err(ParseError::MissingArguments);
    }
    let mut flags = ActiveFlags {
        show_ends: false,
        show_tabs: false,
        number: false,
        number_nonblank: false,
    };
    let mut i: usize = 0;
    proof {
        assert(ts.skip(0) =~~= ts);
    }
    loop
        invariant
            ts == tokens@.map_values(|t: String| t@),
            tokens@.len() == ts.len(),
            i <= ts.len(),
            scan(ts.skip(i as int), flags) == scan(ts, ActiveFlags::none_spec()),
        ensures
            i <= ts.len(),
            scan(ts.skip(i as int), flags) == scan(ts, ActiveFlags::none_spec()),
            i == ts.len() || !starts_with_dash(ts[i as int]),
        decreases ts.len() - i,
    {
        if i >= tokens.len() {
            break ;
        }
        if !token_is_flag(tokens[i].as_str()) {
            proof {
                assert(ts[i as int] == tokens@[i as int]@);
            }
            break ;
        }
        proof {
            assert(ts.skip(i as int)[0] == ts[i as int]);
            assert(ts.skip(i as int).drop_first() =~~= ts.skip(i + 1));
        }
        match CommandOptions::from_token(tokens[i].as_str()) {
            Option::None => {
                return Result::Err(ParseError::UnknownFlag(tokens[i].clone()));
            },
            Option::Some(o) => {
                if let CommandOptions::Help = o {
                    return Result::Err(ParseError::HelpRequested);
                }
                let updated = match o {
                    CommandOptions::ShowEnds => ActiveFlags { show_ends: true, ..flags },
                    CommandOptions::ShowTabs => ActiveFlags { show_tabs: true, ..flags },
                    CommandOptions::Number => ActiveFlags { number: true, ..flags },
                    CommandOptions::NumberNonBlank => ActiveFlags {
                        number_nonblank: true,
                        ..flags
                    },
                    CommandOptions::Help => flags,
                };
                proof {
                    assert(updated == flags.activate(o));
                }
                flags = updated;
            },
        }
        i = i + 1;
    }
    proof {
        if i < ts.len() {
            assert(ts.skip(i as int)[0] == ts[i as int]);
        } else {
            assert(ts.skip(i as int) =~~= Seq::<Seq<char>>::empty());
        }
        assert(scan(ts.skip(i as int), flags) == ResolutionSpec::Proceed(
            canonical_order(flags),
            ts.skip(i as int),
        ));
    }
    let mut opts: Vec<CommandOptions> = Vec::new();
    if flags.show_ends {
        opts.push(CommandOptions::ShowEnds);
    }
    if flags.show_tabs {
        opts.push(CommandOptions::ShowTabs);
    }
    if flags.number {
        opts.push(CommandOptions::Number);
    }
    if flags.number_nonblank {
        opts.push(CommandOptions::NumberNonBlank);
    }
    proof {
        assert(opts@ =~= canonical_order(flags));
    }
    let paths = clone_suffix(tokens, i);
    proof {
        assert(paths@.map_values(|p: String| p@) == ts.skip(i as int));
    }
    Result::Ok(Resolved { options: opts, file_paths: paths })
}

/// A concatenation holds an element exactly when one of its parts does.
proof fn lemma_contains_add<A>(a: Seq<A>, b: Seq<A>, x: A)
    ensures
        (a + b).contains(x) <==> a.contains(x) || b.contains(x),
{
    if (a + b).contains(x) {
        let i = choose|i: int| 0 <= i < (a + b).len() && (a + b)[i] == x;
        if i < a.len() {
            assert(a[i] == x);
        } else {
            assert(b[i - a.len()] == x);
        }
    }
    if a.contains(x) {
        let i = choose|i: int| 0 <= i < a.len() && a[i] == x;
        assert((a + b)[i] == x);
    }
    if b.contains(x) {
        let i = choose|i: int| 0 <= i < b.len() && b[i] == x;
        assert((a + b)[a.len() + i] == x);
    }
}

/// The canonical order lists exactly the activated options.
pub proof fn lemma_canonical_order_members(f: ActiveFlags, o: CommandOptions)
    ensures
        canonical_order(f).contains(o) <==> f.active(o),
{
    let a = if f.show_ends {
        seq![CommandOptions::ShowEnds]
    } else {
        Seq::<CommandOptions>::empty()
    };
    let b = if f.show_tabs {
        seq![CommandOptions::ShowTabs]
    } else {
        Seq::<CommandOptions>::empty()
    };
    let c = if f.number {
        seq![CommandOptions::Number]
    } else {
        Seq::<CommandOptions>::empty()
    };
    let d = if f.number_nonblank {
        seq![CommandOptions::NumberNonBlank]
    } else {
        Seq::<CommandOptions>::empty()
    };
    lemma_contains_add(a + b + c, d, o);
    lemma_contains_add(a + b, c, o);
    lemma_contains_add(a, b, o);
    assert(f.show_ends ==> a[0] == CommandOptions::ShowEnds);
    assert(f.show_tabs ==> b[0] == CommandOptions::ShowTabs);
    assert(f.number ==> c[0] == CommandOptions::Number);
    assert(f.number_nonblank ==> d[0] == CommandOptions::NumberNonBlank);
}

/// The canonical order holds no duplicates and ascends strictly in the
/// canonical sort key, hence weakly in priority rank.
pub proof fn lemma_canonical_order_sorted(f: ActiveFlags)
    ensures
        canonical_order(f).no_duplicates(),
        forall|i: int, j: int|
            0 <= i < j < canonical_order(f).len() ==> canonical_order(f)[i].sort_key()
                < canonical_order(f)[j].sort_key(),
        forall|i: int, j: int|
            0 <= i < j < canonical_order(f).len() ==> canonical_order(f)[i].rank()
                <= canonical_order(f)[j].rank(),
{
    let co = canonical_order(f);
    assert forall|i: int, j: int| 0 <= i < j < co.len() implies co[i].sort_key()
        < co[j].sort_key() by {
        assert(co[i].sort_key() < co[j].sort_key());
    }
    assert forall|i: int, j: int| 0 <= i < j < co.len() implies co[i].rank() <= co[j].rank() by {
        crate::options::lemma_sort_key_refines_rank(co[i], co[j]);
    }
}

/// A scan that proceeds yields the canonical order of some activated set.
proof fn lemma_scan_proceed_shape(ts: Seq<Seq<char>>, f: ActiveFlags)
    ensures
        scan(ts, f) matches ResolutionSpec::Proceed(opts, paths) ==> exists|g: ActiveFlags|
            opts == canonical_order(g),
    decreases ts.len(),
{
    if ts.len() == 0 || !starts_with_dash(ts[0]) {
        assert(canonical_order(f) == canonical_order(f));
    } else {
        match CommandOptions::token_option(ts[0]) {
            Option::None => {},
            Option::Some(o) => {
                if o != CommandOptions::Help {
                    lemma_scan_proceed_shape(ts.drop_first(), f.activate(o));
                }
            },
        }
    }
}

/// A resolved invocation's option sequence holds no duplicates and is sorted
/// ascending by priority rank, whatever order the flags were typed in.
pub proof fn lemma_resolved_sorted(ts: Seq<Seq<char>>, opts: Seq<CommandOptions>, paths: Seq<
    Seq<char>,
>)
    requires
        resolve_spec(ts) == ResolutionSpec::Proceed(opts, paths),
    ensures
        opts.no_duplicates(),
        forall|i: int, j: int| 0 <= i < j < opts.len() ==> opts[i].rank() <= opts[j].rank(),
        forall|i: int, j: int| 0 <= i < j < opts.len() ==> opts[i].sort_key() < opts[j].sort_key(),
{
    lemma_scan_proceed_shape(ts, ActiveFlags::none_spec());
    let g = choose|g: ActiveFlags| opts == canonical_order(g);
    lemma_canonical_order_sorted(g);
}

/// In any invocation that activates both numbering flags, the pipeline's
/// output is exactly the output of the same invocation without the Number
/// flag: Number is fully suppressed by Number-Non-Blank.
pub proof fn lemma_number_suppressed_in_resolution(s: Seq<char>, f: ActiveFlags)
    requires
        f.number,
        f.number_nonblank,
    ensures
        crate::transform::process_spec(s, canonical_order(f)) == crate::transform::process_spec(
            s,
            canonical_order(ActiveFlags { number: false, ..f }),
        ),
{
    let g = ActiveFlags { number: false, ..f };
    let a = if f.show_ends {
        seq![CommandOptions::ShowEnds]
    } else {
        Seq::<CommandOptions>::empty()
    };
    let b = if f.show_tabs {
        seq![CommandOptions::ShowTabs]
    } else {
        Seq::<CommandOptions>::empty()
    };
    let p = a + b;
    assert(canonical_order(f) =~= p + seq![
        CommandOptions::Number,
        CommandOptions::NumberNonBlank,
    ]);
    assert(canonical_order(g) =~= p + seq![CommandOptions::NumberNonBlank]);
    lemma_canonical_order_members(f, CommandOptions::NumberNonBlank);
    assert forall|k: int| 0 <= k < p.len() implies p[k] != CommandOptions::Number by {
        if k < a.len() {
            assert(p[k] == a[k]);
        } else {
            assert(p[k] == b[k - a.len()]);
        }
    }
    crate::transform::lemma_number_suppressed_after(s, p, canonical_order(f), canonical_order(g));
}

/// Resolution is order-independent: two token lists whose scans proceed with
/// the same set of activated options yield the identical option sequence,
/// however their flags were ordered.
pub proof fn lemma_resolution_order_independent(
    ts1: Seq<Seq<char>>,
    ts2: Seq<Seq<char>>,
    opts1: Seq<CommandOptions>,
    paths1: Seq<Seq<char>>,
    opts2: Seq<CommandOptions>,
    paths2: Seq<Seq<char>>,
)
    requires
        resolve_spec(ts1) == ResolutionSpec::Proceed(opts1, paths1),
        resolve_spec(ts2) == ResolutionSpec::Proceed(opts2, paths2),
        forall|o: CommandOptions| opts1.contains(o) <==> opts2.contains(o),
    ensures
        opts1 == opts2,
{
    lemma_scan_proceed_shape(ts1, ActiveFlags::none_spec());
    lemma_scan_proceed_shape(ts2, ActiveFlags::none_spec());
    let g1 = choose|g: ActiveFlags| opts1 == canonical_order(g);
    let g2 = choose|g: ActiveFlags| opts2 == canonical_order(g);
    lemma_canonical_order_members(g1, CommandOptions::ShowEnds);
    lemma_canonical_order_members(g2, CommandOptions::ShowEnds);
    lemma_canonical_order_members(g1, CommandOptions::ShowTabs);
    lemma_canonical_order_members(g2, CommandOptions::ShowTabs);
    lemma_canonical_order_members(g1, CommandOptions::Number);
    lemma_canonical_order_members(g2, CommandOptions::Number);
    lemma_canonical_order_members(g1, CommandOptions::NumberNonBlank);
    lemma_canonical_order_members(g2, CommandOptions::NumberNonBlank);
    assert(g1 == g2);
}

} // verus!
