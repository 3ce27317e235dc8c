//! Character-level helpers on strings: splitting on and joining with dots, and conversions
//! between strings, characters and UTF-8 bytes.

use vstd::prelude::*;

verus! {

broadcast use vstd::string::group_string_axioms;

/// The segments of `s` between dots, left to right; a string without dots is one segment.
pub open spec fn split_dots(s: Seq<char>) -> Seq<Seq<char>>
    decreases s.len(),
{
    if s.len() == 0 {
        seq![Seq::<char>::empty()]
    } else {
        let prev = split_dots(s.drop_last());
        if s.last() == '.' {
            prev.push(Seq::<char>::empty())
        } else {
            prev.update(prev.len() - 1, prev.last().push(s.last()))
        }
    }
}

/// The segments joined with a dot between each two.
pub open spec fn join_dots(parts: Seq<Seq<char>>) -> Seq<char>
    decreases parts.len(),
{
    if parts.len() == 0 {
        Seq::<char>::empty()
    } else if parts.len() == 1 {
        parts[0]
    } else {
        join_dots(parts.drop_last()) + seq!['.'] + parts.last()
    }
}

pub proof fn lemma_split_dots_nonempty(s: Seq<char>)
    ensures
        split_dots(s).len() >= 1,
    decreases s.len(),
{
    if s.len() > 0 {
        lemma_split_dots_nonempty(s.drop_last());
    }
}

/// Joining the dot-separated segments of a string gives the string back.
pub proof fn lemma_join_split_dots(s: Seq<char>)
    ensures
        join_dots(split_dots(s)) == s,
    decreases s.len(),
{
    if s.len() > 0 {
        let prev = split_dots(s.drop_last());
        lemma_split_dots_nonempty(s.drop_last());
        lemma_join_split_dots(s.drop_last());
        if s.last() == '.' {
            assert(prev.push(Seq::<char>::empty()).drop_last() =~= prev);
            assert(s =~= s.drop_last() + seq!['.'] + Seq::<char>::empty());
        } else {
            let cur = prev.update(prev.len() - 1, prev.last().push(s.last()));
            if prev.len() == 1 {
                assert(s =~= prev[0].push(s.last()));
            } else {
                assert(cur.drop_last() =~= prev.drop_last());
                assert(join_dots(prev) == join_dots(prev.drop_last()) + seq!['.'] + prev.last());
                assert(s =~= s.drop_last().push(s.last()));
                assert(s =~= join_dots(prev.drop_last()) + seq!['.'] + prev.last().push(s.last()));
            }
        }
    }
}

/// The characters of a string.
pub fn chars_of(s: &str) -> (r: Vec<char>)
    ensures
        r@ == s@,
{
    let mut r: Vec<char> = Vec::new();
    for c in it: s.chars()
        invariant
            r@ == it.seq().take(it.index() as int),
    {
        r.push(c);
    }
    r
}

/// Relies on String::push: the character is appended at the end.
#[verifier::external_body]
fn push_char(s: &mut String, c: char)
    ensures
        final(s)@ == old(s)@.push(c),
{
    s.push(c)
}

/// The string made of the given characters.
pub fn string_of(v: &[char]) -> (r: String)
    ensures
        r@ == v@,
{
    let mut r = String::new();
    let mut i: usize = 0;
    while i < v.len()
        invariant
            i <= v@.len(),
            r@ == v@.take(i as int),
        decreases v@.len() - i,
    {
        push_char(&mut r, v[i]);
        i = i + 1;
        assert(r@ =~= v@.take(i as int));
    }
    assert(v@.take(v@.len() as int) =~= v@);
    r
}

/// The string made of `v[from..to]`.
pub fn string_of_range(v: &Vec<char>, from: usize, to: usize) -> (r: String)
    requires
        from <= to <= v@.len(),
    ensures
        r@ == v@.subrange(from as int, to as int),
{
    let mut r = String::new();
    let mut i: usize = from;
    while i < to
        invariant
            from <= i <= to <= v@.len(),
            r@ == v@.subrange(from as int, i as int),
        decreases to - i,
    {
        push_char(&mut r, v[i]);
        i = i + 1;
        assert(r@ =~= v@.subrange(from as int, i as int));
    }
    r
}

/// `a`, a dot, then `b`.
pub fn dot_join(a: &str, b: &str) -> (r: String)
    ensures
        r@ == a@ + seq!['.'] + b@,
{
    let mut r = <String as vstd::string::StringExecFns>::from_str(a);
    push_char(&mut r, '.');
    r.append(b);
    r
}

} // verus!
