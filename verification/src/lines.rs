//! Splitting text into lines.
//!
//! The whole pipeline uses one canonical line terminator, the newline
//! character `'\n'`. `lines_of` mirrors how the transformer sees a text: the
//! pieces between newlines, where a trailing newline does not open a final
//! empty line, and the empty text has no lines at all.

use vstd::prelude::*;

verus! {

/// The pieces of `s` between newline characters, in order. There is always
/// at least one piece; a trailing newline yields a trailing empty piece.
pub open spec fn split_all(s: Seq<char>) -> Seq<Seq<char>>
    decreases s.len(),
{
    if s.len() == 0 {
        seq![Seq::<char>::empty()]
    } else if s[0] == '\n' {
        seq![Seq::<char>::empty()] + split_all(s.drop_first())
    } else {
        let rest = split_all(s.drop_first());
        seq![seq![s[0]] + rest[0]] + rest.drop_first()
    }
}

/// The lines of a text: the pieces between newlines, except that a trailing
/// newline closes the last line rather than opening an empty one, and the
/// empty text has no lines.
pub open spec fn lines_of(s: Seq<char>) -> Seq<Seq<char>> {
    let a = split_all(s);
    if a.last().len() == 0 {
        a.drop_last()
    } else {
        a
    }
}

/// A split has at least one piece.
pub proof fn lemma_split_all_len(s: Seq<char>)
    ensures
        split_all(s).len() >= 1,
    decreases s.len(),
{
    if s.len() > 0 {
        lemma_split_all_len(s.drop_first());
    }
}

/// Appending a newline appends one empty piece to the split.
pub proof fn lemma_split_all_snoc_nl(s: Seq<char>)
    ensures
        split_all(s + seq!['\n']) == split_all(s) + seq![Seq::<char>::empty()],
    decreases s.len(),
{
    let t = s + seq!['\n'];
    if s.len() == 0 {
        assert(t.drop_first() =~= Seq::<char>::empty());
        assert(t[0] == '\n');
        assert(split_all(Seq::<char>::empty()) == seq![Seq::<char>::empty()]);
        assert(split_all(t) =~~= split_all(s) + seq![Seq::<char>::empty()]);
    } else {
        lemma_split_all_snoc_nl(s.drop_first());
        assert(t.drop_first() =~= s.drop_first() + seq!['\n']);
        lemma_split_all_len(s.drop_first());
        if s[0] == '\n' {
            assert(split_all(t) =~~= split_all(s) + seq![Seq::<char>::empty()]);
        } else {
            let rest_t = split_all(t.drop_first());
            let rest_s = split_all(s.drop_first());
            assert(rest_t[0] == rest_s[0]);
            assert(rest_t.drop_first() =~~= rest_s.drop_first() + seq![
                Seq::<char>::empty(),
            ]);
            assert(split_all(t) =~~= split_all(s) + seq![Seq::<char>::empty()]);
        }
    }
}

/// Appending any other character extends the last piece of the split.
pub proof fn lemma_split_all_snoc_char(s: Seq<char>, c: char)
    requires
        c != '\n',
    ensures
        split_all(s + seq![c]) == split_all(s).drop_last() + seq![
            split_all(s).last() + seq![c],
        ],
    decreases s.len(),
{
    let t = s + seq![c];
    lemma_split_all_len(s);
    if s.len() == 0 {
        assert(t.drop_first() =~= Seq::<char>::empty());
        assert(t[0] == c);
        assert(split_all(Seq::<char>::empty()) == seq![Seq::<char>::empty()]);
        assert(split_all(t) =~~= seq![seq![c]]);
        assert(split_all(s).drop_last() + seq![split_all(s).last() + seq![c]] =~~= seq![
            seq![c],
        ]);
    } else {
        lemma_split_all_snoc_char(s.drop_first(), c);
        assert(t.drop_first() =~= s.drop_first() + seq![c]);
        lemma_split_all_len(s.drop_first());
        let rest_t = split_all(t.drop_first());
        let rest_s = split_all(s.drop_first());
        if s[0] == '\n' {
            assert(split_all(s).last() == rest_s.last());
            assert(split_all(t) =~~= split_all(s).drop_last() + seq![
                split_all(s).last() + seq![c],
            ]);
        } else {
            if rest_s.len() == 1 {
                assert(split_all(s).last() == seq![s[0]] + rest_s[0]);
                assert(rest_t[0] == rest_s[0] + seq![c]);
                assert((seq![s[0]] + rest_s[0]) + seq![c] =~= seq![s[0]] + (rest_s[0] + seq![
                    c,
                ]));
                assert(split_all(t) =~~= split_all(s).drop_last() + seq![
                    split_all(s).last() + seq![c],
                ]);
            } else {
                assert(rest_t[0] == rest_s[0]);
                assert(split_all(s).last() == rest_s.last());
                assert(rest_t.drop_first() =~~= rest_s.drop_first().drop_last() + seq![
                    rest_s.last() + seq![c],
                ]);
                assert(split_all(t) =~~= split_all(s).drop_last() + seq![
                    split_all(s).last() + seq![c],
                ]);
            }
        }
    }
}

/// Splits a text into its lines.
pub fn split_lines(text: &Vec<char>) -> (r: Vec<Vec<char>>)
    ensures
        r@.map_values(|l: Vec<char>| l@) == lines_of(text@),
{
    let mut done: Vec<Vec<char>> = Vec::new();
    let mut cur: Vec<char> = Vec::new();
    let mut i: usize = 0;
    proof {
        assert(done@.map_values(|l: Vec<char>| l@) + seq![cur@] =~~= split_all(
            text@.take(0),
        ));
    }
    while i < text.len()
        invariant
            i <= text@.len(),
            done@.map_values(|l: Vec<char>| l@) + seq![cur@] == split_all(
                text@.take(i as int),
            ),
        decreases text@.len() - i,
    {
        let c = text[i];
        let ghost pre_done = done@.map_values(|l: Vec<char>| l@);
        let ghost pre_cur = cur@;
        proof {
            assert(text@.take(i + 1) =~= text@.take(i as int) + seq![text@[i as int]]);
        }
        if c == '\n' {
            proof {
                lemma_split_all_snoc_nl(text@.take(i as int));
            }
            done.push(cur);
            cur = Vec::new();
            proof {
                assert(done@.map_values(|l: Vec<char>| l@) =~~= pre_done + seq![pre_cur]);
                assert(done@.map_values(|l: Vec<char>| l@) + seq![cur@] =~~= split_all(
                    text@.take(i + 1),
                ));
            }
        } else {
            proof {
                lemma_split_all_snoc_char(text@.take(i as int), c);
                assert((pre_done + seq![pre_cur]).drop_last() =~~= pre_done);
                assert((pre_done + seq![pre_cur]).last() == pre_cur);
            }
            cur.push(c);
            proof {
                assert(done@.map_values(|l: Vec<char>| l@) + seq![cur@] =~~= split_all(
                    text@.take(i + 1),
                ));
            }
        }
        i = i + 1;
    }
    proof {
        assert(text@.take(text@.len() as int) =~= text@);
    }
    let ghost all = split_all(text@);
    if cur.len() == 0 {
        proof {
            assert(all.last() == cur@);
            assert(done@.map_values(|l: Vec<char>| l@) =~~= all.drop_last());
        }
        done
    } else {
        proof {
            assert(all.last() == cur@);
        }
        let ghost pre_done = done@.map_values(|l: Vec<char>| l@);
        done.push(cur);
        proof {
            assert(done@.map_values(|l: Vec<char>| l@) =~~= all);
        }
        done
    }
}

} // verus!
