//! Conversions between strings and character vectors, and character-wise
//! string comparison. The rest of the crate works on `Vec<char>`, whose view
//! matches the `Seq<char>` view of the strings it came from.

use vstd::prelude::*;

verus! {

/// Relies on `String::push`: appends the given character to the end of the string.
pub assume_specification[ String::push ](s: &mut String, ch: char)
    ensures
        final(s)@ == old(s)@.push(ch),
;

/// The characters of a string slice, as a vector.
pub fn str_to_chars(s: &str) -> (r: Vec<char>)
    ensures
        r@ == s@,
{
    let n = s.unicode_len();
    let mut r: Vec<char> = Vec::new();
    let mut i: usize = 0;
    while i < n
        invariant
            n == s@.len(),
            i <= n,
            r@ == s@.take(i as int),
        decreases n - i,
    {
        r.push(s.get_char(i));
        i = i + 1;
        proof {
            assert(r@ =~= s@.take(i as int));
        }
    }
    proof {
        assert(s@.take(n as int) =~= s@);
    }
    r
}

/// A string holding exactly the given characters.
pub fn chars_to_string(v: &Vec<char>) -> (r: String)
    ensures
        r@ == v@,
{
    let mut r = String::new();
    let mut i: usize = 0;
    while i < v.len()
        invariant
            i <= v.len(),
            r@ == v@.take(i as int),
        decreases v.len() - i,
    {
        r.push(v[i]);
        i = i + 1;
        proof {
            assert(r@ =~= v@.take(i as int));
        }
    }
    proof {
        assert(v@.take(v.len() as int) =~= v@);
    }
    r
}

/// The concatenation of the parts, in order.
pub open spec fn concat_spec(parts: Seq<Seq<char>>) -> Seq<char>
    decreases parts.len(),
{
    if parts.len() == 0 {
        Seq::empty()
    } else {
        parts[0] + concat_spec(parts.drop_first())
    }
}

proof fn lemma_concat_spec_snoc(parts: Seq<Seq<char>>, x: Seq<char>)
    ensures
        concat_spec(parts.push(x)) == concat_spec(parts) + x,
    decreases parts.len(),
{
    if parts.len() == 0 {
        assert(parts.push(x).drop_first() =~~= Seq::<Seq<char>>::empty());
        assert(concat_spec(Seq::<Seq<char>>::empty()) == Seq::<char>::empty());
        assert(concat_spec(parts.push(x)) =~= concat_spec(parts) + x);
    } else {
        lemma_concat_spec_snoc(parts.drop_first(), x);
        assert(parts.push(x).drop_first() =~~= parts.drop_first().push(x));
        assert(concat_spec(parts.push(x)) =~= concat_spec(parts) + x);
    }
}

/// Concatenates the given parts into one text, in order.
pub fn concat_strings(parts: &Vec<String>) -> (r: String)
    ensures
        r@ == concat_spec(parts@.map_values(|p: String| p@)),
{
    let ghost ps = parts@.map_values(|p: String| p@);
    let mut r = String::new();
    let mut i: usize = 0;
    proof {
        assert(concat_spec(ps.take(0)) == Seq::<char>::empty());
    }
    while i < parts.len()
        invariant
            ps == parts@.map_values(|p: String| p@),
            parts@.len() == ps.len(),
            i <= ps.len(),
            r@ == concat_spec(ps.take(i as int)),
        decreases ps.len() - i,
    {
        proof {
            lemma_concat_spec_snoc(ps.take(i as int), ps[i as int]);
            assert(ps.take(i + 1) =~~= ps.take(i as int).push(ps[i as int]));
            assert(ps[i as int] == parts@[i as int]@);
        }
        r.append(parts[i].as_str());
        i = i + 1;
    }
    proof {
        assert(ps.take(ps.len() as int) =~~= ps);
    }
    r
}

/// Character-for-character equality of two string slices.
pub fn str_eq(a: &str, b: &str) -> (r: bool)
    ensures
        r == (a@ == b@),
{
    let n = a.unicode_len();
    if n != b.unicode_len() {
        return false;
    }
    let mut i: usize = 0;
    while i < n
        invariant
            n == a@.len(),
            n == b@.len(),
            i <= n,
            forall|k: int| 0 <= k < i ==> a@[k] == b@[k],
        decreases n - i,
    {
        if a.get_char(i) != b.get_char(i) {
            return false;
        }
        i = i + 1;
    }
    proof {
        assert(a@ =~= b@);
    }
    true
}

} // verus!
