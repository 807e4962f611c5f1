//! Splitting and joining of sequences, and the string helpers built on them.

use vstd::prelude::*;

verus! {

/// The number of leading elements of `s` that differ from `sep`.
pub open spec fn run_len<T>(s: Seq<T>, sep: T) -> nat
    decreases s.len(),
{
    if s.len() == 0 || s[0] == sep {
        0
    } else {
        1 + run_len(s.drop_first(), sep)
    }
}

/// The pieces of `s` that lie between occurrences of `sep`, in order.
///
/// Nothing is collapsed or trimmed: two adjacent separators enclose an empty
/// piece, a leading or trailing separator gives an empty first or last piece,
/// and the empty sequence splits into one empty piece.
pub open spec fn split<T>(s: Seq<T>, sep: T) -> Seq<Seq<T>>
    decreases s.len(),
{
    let n = run_len(s, sep) as int;
    if n >= s.len() {
        seq![s]
    } else {
        seq![s.take(n)] + split(s.skip(n + 1), sep)
    }
}

/// The concatenation of `parts` with `sep` between each two neighbours.
pub open spec fn join<T>(parts: Seq<Seq<T>>, sep: Seq<T>) -> Seq<T>
    decreases parts.len(),
{
    if parts.len() == 0 {
        Seq::empty()
    } else if parts.len() == 1 {
        parts[0]
    } else {
        join(parts.drop_last(), sep) + sep + parts.last()
    }
}

/// The character content of each string of `v`.
pub open spec fn strings_view(v: Seq<String>) -> Seq<Seq<char>> {
    v.map_values(|s: String| s@)
}

/// A prefix of `k` elements free of `sep`, followed by `sep` or by the end of
/// `s`, is exactly the leading run of `s`.
pub proof fn lemma_run_len_is<T>(s: Seq<T>, sep: T, k: int)
    requires
        0 <= k <= s.len(),
        forall|j: int| 0 <= j < k ==> s[j] != sep,
        k < s.len() ==> s[k] == sep,
    ensures
        run_len(s, sep) == k,
    decreases k,
{
    if k > 0 {
        let t = s.drop_first();
        assert forall|j: int| 0 <= j < k - 1 implies t[j] != sep by {
            assert(t[j] == s[j + 1]);
        }
        lemma_run_len_is(t, sep, k - 1);
    }
}

/// Splitting always gives at least one piece.
pub proof fn lemma_split_nonempty<T>(s: Seq<T>, sep: T)
    ensures
        split(s, sep).len() >= 1,
{
}

/// The leading run holds no separator, and a separator follows it unless it
/// reaches the end.
pub proof fn lemma_run_len_stops<T>(s: Seq<T>, sep: T)
    ensures
        run_len(s, sep) <= s.len(),
        forall|j: int| 0 <= j < run_len(s, sep) ==> s[j] != sep,
        run_len(s, sep) < s.len() ==> s[run_len(s, sep) as int] == sep,
    decreases s.len(),
{
    if s.len() != 0 && s[0] != sep {
        let t = s.drop_first();
        lemma_run_len_stops(t, sep);
        assert forall|j: int| 0 <= j < run_len(s, sep) implies s[j] != sep by {
            if j > 0 {
                assert(s[j] == t[j - 1]);
            }
        }
        if run_len(s, sep) < s.len() {
            assert(s[run_len(s, sep) as int] == t[run_len(t, sep) as int]);
        }
    }
}

/// No piece holds the separator.
pub proof fn lemma_split_pieces_hold_no_sep<T>(s: Seq<T>, sep: T)
    ensures
        forall|i: int| 0 <= i < split(s, sep).len() ==> !(#[trigger] split(s, sep)[i]).contains(sep),
    decreases s.len(),
{
    lemma_run_len_stops(s, sep);
    let n = run_len(s, sep) as int;
    if n < s.len() {
        lemma_split_pieces_hold_no_sep(s.skip(n + 1), sep);
    }
    assert forall|i: int| 0 <= i < split(s, sep).len() implies !(#[trigger] split(s, sep)[i]).contains(
        sep,
    ) by {
        if i == 0 {
            let first = split(s, sep)[0];
            assert(first =~= s.take(n));
            if first.contains(sep) {
                let j = choose|j: int| 0 <= j < first.len() && first[j] == sep;
                assert(s[j] == sep);
            }
        } else {
            assert(split(s, sep)[i] == split(s.skip(n + 1), sep)[i - 1]);
        }
    }
}

/// Joining the pieces with the separator gives the sequence back.
pub proof fn lemma_join_of_split<T>(s: Seq<T>, sep: T)
    ensures
        join(split(s, sep), seq![sep]) == s,
    decreases s.len(),
{
    lemma_run_len_stops(s, sep);
    let n = run_len(s, sep) as int;
    if n < s.len() {
        let rest = s.skip(n + 1);
        lemma_join_of_split(rest, sep);
        lemma_split_nonempty(rest, sep);
        lemma_join_prepend(s.take(n), split(rest, sep), seq![sep]);
        assert(s.take(n) + seq![sep] + rest =~= s);
    } else {
        assert(s.take(n) =~= s);
    }
}

/// Joining with one more part in front puts that part and a separator before
/// the rest.
pub proof fn lemma_join_prepend<T>(first: Seq<T>, rest: Seq<Seq<T>>, sep: Seq<T>)
    requires
        rest.len() >= 1,
    ensures
        join(seq![first] + rest, sep) == first + sep + join(rest, sep),
    decreases rest.len(),
{
    let all = seq![first] + rest;
    assert(all.last() == rest.last());
    if rest.len() == 1 {
        assert(all.drop_last() =~= seq![first]);
        assert(join(seq![first], sep) == first);
        assert(join(rest, sep) == rest[0]);
    } else {
        assert(all.drop_last() =~= seq![first] + rest.drop_last());
        lemma_join_prepend(first, rest.drop_last(), sep);
        assert((first + sep + join(rest.drop_last(), sep)) + sep + rest.last() =~= first + sep + (
        join(rest.drop_last(), sep) + sep + rest.last()));
    }
}

/// Where the first separator of `s` stands at `k`, the pieces of `s` are what
/// precedes it and the pieces of what follows it.
proof fn lemma_split_at_sep<T>(s: Seq<T>, sep: T, k: int)
    requires
        0 <= k < s.len(),
        forall|j: int| 0 <= j < k ==> s[j] != sep,
        s[k] == sep,
    ensures
        split(s, sep) == seq![s.take(k)] + split(s.skip(k + 1), sep),
{
    lemma_run_len_is(s, sep, k);
}

/// A sequence without a separator is its own single piece.
proof fn lemma_split_no_sep<T>(s: Seq<T>, sep: T)
    requires
        forall|j: int| 0 <= j < s.len() ==> s[j] != sep,
    ensures
        split(s, sep) == seq![s],
{
    lemma_run_len_is(s, sep, s.len() as int);
}

/// `String::push` of the standard library appends the character to the end of
/// the string.
pub assume_specification[ String::push ](s: &mut String, c: char)
    ensures
        final(s)@ == old(s)@.push(c),
;

/// Joins `parts` with `sep` between each two neighbours.
pub fn join_strings(parts: &Vec<String>, sep: &str) -> (joined: String)
    ensures
        joined@ == join(strings_view(parts@), sep@),
{
    let mut joined = String::new();
    let ghost all = strings_view(parts@);
    let mut i: usize = 0;
    proof {
        assert(all.take(0) =~= Seq::<Seq<char>>::empty());
    }
    while i < parts.len()
        invariant
            i <= parts.len(),
            all == strings_view(parts@),
            joined@ == join(all.take(i as int), sep@),
        decreases parts.len() - i,
    {
        proof {
            let next = all.take(i + 1);
            assert(next.drop_last() =~= all.take(i as int));
            assert(next.last() == parts@[i as int]@);
            if i == 0 {
                assert(joined@ + parts@[i as int]@ =~= parts@[i as int]@);
            }
        }
        if i > 0 {
            joined.append(sep);
        }
        joined.append(parts[i].as_str());
        i += 1;
    }
    proof {
        assert(all.take(i as int) =~= all);
    }
    joined
}

/// The characters of `text`.
pub fn chars_of(text: &str) -> (chars: Vec<char>)
    ensures
        chars@ == text@,
{
    let mut chars: Vec<char> = Vec::new();
    for c in it: text.chars()
        invariant
            it.seq() == text@,
            chars@ == text@.take(it.index() as int),
    {
        chars.push(c);
        assert(text@.take(it.index() + 1) =~= text@.take(it.index() as int).push(c));
    }
    assert(text@.take(text@.len() as int) =~= text@);
    chars
}

/// Splits `text` at every space character.
pub fn split_spaces(text: &str) -> (tokens: Vec<String>)
    ensures
        strings_view(tokens@) == split(text@, ' '),
{
    let mut tokens: Vec<String> = Vec::new();
    let mut current = String::new();
    let ghost mut start: int = 0;
    proof {
        assert(text@.skip(0) == text@);
        assert(strings_view(tokens@) + split(text@, ' ') == split(text@, ' '));
    }
    for c in it: text.chars()
        invariant
            it.seq() == text@,
            0 <= start <= it.index(),
            current@ == text@.subrange(start, it.index() as int),
            forall|j: int| start <= j < it.index() ==> text@[j] != ' ',
            split(text@, ' ') == strings_view(tokens@) + split(text@.skip(start), ' '),
    {
        if c == ' ' {
            proof {
                let rest = text@.skip(start);
                let k = it.index() - start;
                lemma_split_at_sep(rest, ' ', k);
                assert(rest.take(k) == current@);
                assert(rest.skip(k + 1) == text@.skip(it.index() + 1));
                assert(strings_view(tokens@.push(current)) == strings_view(tokens@).push(current@));
                start = it.index() + 1;
            }
            tokens.push(current);
            current = String::new();
        } else {
            current.push(c);
        }
    }
    proof {
        let rest = text@.skip(start);
        lemma_split_no_sep(rest, ' ');
        assert(rest == current@);
        assert(strings_view(tokens@.push(current)) == strings_view(tokens@).push(current@));
    }
    tokens.push(current);
    tokens
}

} // verus!
