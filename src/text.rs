//! Character-level helpers: trailing-whitespace trimming and splitting on single spaces.
use vstd::prelude::*;
use vstd::string::StrSliceExecFns;
use vstd::string::StringExecFns;

verus! {

/// The characters that `char::is_whitespace` accepts (the Unicode `White_Space` property).
pub open spec fn is_ws(c: char) -> bool {
    let u = c as u32;
    u == 0x20 || (0x09 <= u && u <= 0x0d) || u == 0x85 || u == 0xa0 || u == 0x1680 || (0x2000 <= u
        && u <= 0x200a) || u == 0x2028 || u == 0x2029 || u == 0x202f || u == 0x205f || u == 0x3000
}

/// `s` without its trailing whitespace.
pub open spec fn trim_end(s: Seq<char>) -> Seq<char>
    decreases s.len(),
{
    if s.len() > 0 && is_ws(s.last()) {
        trim_end(s.drop_last())
    } else {
        s
    }
}

/// The pieces of `s` between occurrences of `sep`, as `str::split(sep)` yields
/// them (empty pieces included; always at least one piece).
pub open spec fn split_by(s: Seq<char>, sep: char) -> Seq<Seq<char>>
    decreases s.len(),
{
    if s.len() == 0 {
        seq![Seq::empty()]
    } else {
        let init = split_by(s.drop_last(), sep);
        if s.last() == sep {
            init.push(Seq::empty())
        } else {
            init.update(init.len() - 1, init.last().push(s.last()))
        }
    }
}

/// The pieces of `s` between single spaces.
pub open spec fn split_spaces(s: Seq<char>) -> Seq<Seq<char>> {
    split_by(s, ' ')
}

/// The character sequences held by a sequence of strings.
pub open spec fn views(v: Seq<String>) -> Seq<Seq<char>> {
    v.map_values(|x: String| x@)
}

/// Every element of `needles` occurs somewhere in `hay`.
pub open spec fn contains_all(hay: Seq<Seq<char>>, needles: Seq<Seq<char>>) -> bool {
    forall|i: int| 0 <= i < needles.len() ==> #[trigger] hay.contains(needles[i])
}

pub proof fn lemma_trim_end_idempotent(s: Seq<char>)
    ensures
        trim_end(trim_end(s)) == trim_end(s),
    decreases s.len(),
{
    if s.len() > 0 && is_ws(s.last()) {
        lemma_trim_end_idempotent(s.drop_last());
    }
}

pub proof fn lemma_split_nonempty(s: Seq<char>, sep: char)
    ensures
        split_by(s, sep).len() >= 1,
    decreases s.len(),
{
    if s.len() > 0 {
        lemma_split_nonempty(s.drop_last(), sep);
    }
}

pub proof fn lemma_views_push(v: Seq<String>, x: String)
    ensures
        views(v.push(x)) == views(v).push(x@),
{
    assert(views(v.push(x)) =~= views(v).push(x@));
}

/// Whether `c` is whitespace in the sense of `char::is_whitespace`.
pub fn is_whitespace(c: char) -> (r: bool)
    ensures
        r == is_ws(c),
{
    let u = c as u32;
    u == 0x20 || (0x09 <= u && u <= 0x0d) || u == 0x85 || u == 0xa0 || u == 0x1680 || (0x2000 <= u
        && u <= 0x200a) || u == 0x2028 || u == 0x2029 || u == 0x202f || u == 0x205f || u == 0x3000
}

/// Copies `s` without its trailing whitespace.
pub fn trim_trailing(s: &str) -> (r: String)
    ensures
        r@ == trim_end(s@),
{
    let n = s.unicode_len();
    let mut k: usize = n;
    assert(s@.take(n as int) =~= s@);
    while k > 0
        invariant
            n == s@.len(),
            k <= n,
            trim_end(s@) == trim_end(s@.take(k as int)),
        ensures
            k == 0 || !is_ws(s@[k - 1]),
            trim_end(s@) == trim_end(s@.take(k as int)),
        decreases k,
    {
        if !is_whitespace(s.get_char(k - 1)) {
            break ;
        }
        assert(s@.take(k as int).drop_last() =~= s@.take(k - 1));
        k -= 1;
    }
    assert(s@.take(k as int) =~= s@.subrange(0, k as int));
    String::from_str(s.substring_char(0, k))
}

/// Splits `s` at every single space, as `str::split(' ')` does.
pub fn split_on_spaces(s: &str) -> (r: Vec<String>)
    ensures
        views(r@) == split_spaces(s@),
{
    split_on(s, ' ')
}

/// Splits `s` at every occurrence of `sep`, as `str::split(sep)` does.
pub fn split_on(s: &str, sep: char) -> (r: Vec<String>)
    ensures
        views(r@) == split_by(s@, sep),
{
    let n = s.unicode_len();
    let mut toks: Vec<String> = Vec::new();
    let mut start: usize = 0;
    let mut i: usize = 0;
    assert(s@.take(0) =~= Seq::<char>::empty());
    assert(views(toks@).push(s@.subrange(0, 0)) =~= seq![Seq::<char>::empty()]);
    assert(split_by(s@.take(0), sep) == seq![Seq::<char>::empty()]);
    while i < n
        invariant
            n == s@.len(),
            start <= i <= n,
            views(toks@).push(s@.subrange(start as int, i as int)) == split_by(
                s@.take(i as int),
                sep,
            ),
        decreases n - i,
    {
        let c = s.get_char(i);
        assert(s@.take(i + 1).drop_last() =~= s@.take(i as int));
        assert(s@.take(i + 1).last() == c);
        if c == sep {
            let ghost init = views(toks@).push(s@.subrange(start as int, i as int));
            assert(split_by(s@.take(i + 1), sep) == init.push(Seq::empty()));
            let t = String::from_str(s.substring_char(start, i));
            proof {
                lemma_views_push(toks@, t);
            }
            toks.push(t);
            start = i + 1;
            assert(s@.subrange(start as int, (i + 1) as int) =~= Seq::<char>::empty());
            assert(views(toks@).push(s@.subrange(start as int, (i + 1) as int)) =~= split_by(
                s@.take(i + 1),
                sep,
            ));
        } else {
            let ghost init = views(toks@).push(s@.subrange(start as int, i as int));
            assert(split_by(s@.take(i + 1), sep) == init.update(init.len() - 1, init.last().push(c)));
            assert(s@.subrange(start as int, i as int).push(c) =~= s@.subrange(
                start as int,
                (i + 1) as int,
            ));
            assert(init.update(init.len() - 1, init.last().push(c)) =~= views(toks@).push(
                s@.subrange(start as int, (i + 1) as int),
            ));
            assert(views(toks@).push(s@.subrange(start as int, (i + 1) as int)) =~= split_by(
                s@.take(i + 1),
                sep,
            ));
        }
        i += 1;
    }
    let t = String::from_str(s.substring_char(start, n));
    proof {
        lemma_views_push(toks@, t);
        assert(s@.take(n as int) =~= s@);
    }
    toks.push(t);
    toks
}

/// Whether one of `hay` holds the same characters as `x`.
pub fn contains_string(hay: &Vec<String>, x: &String) -> (r: bool)
    ensures
        r == views(hay@).contains(x@),
{
    let mut i: usize = 0;
    while i < hay.len()
        invariant
            i <= hay@.len(),
            forall|j: int| 0 <= j < i ==> hay@[j]@ != x@,
        decreases hay@.len() - i,
    {
        if hay[i] == *x {
            assert(views(hay@)[i as int] == x@);
            return true;
        }
        i += 1;
    }
    assert forall|j: int| 0 <= j < views(hay@).len() implies views(hay@)[j] != x@ by {
        assert(hay@[j]@ != x@);
    }
    false
}

/// Whether every string of `needles` occurs in `hay`.
pub fn contains_every(hay: &Vec<String>, needles: &Vec<String>) -> (r: bool)
    ensures
        r == contains_all(views(hay@), views(needles@)),
{
    let mut i: usize = 0;
    while i < needles.len()
        invariant
            i <= needles@.len(),
            forall|j: int| 0 <= j < i ==> views(hay@).contains(#[trigger] views(needles@)[j]),
        decreases needles@.len() - i,
    {
        if !contains_string(hay, &needles[i]) {
            assert(!views(hay@).contains(views(needles@)[i as int]));
            return false;
        }
        i += 1;
    }
    true
}

/// Splitting at a separator between two parts splits each part.
pub proof fn lemma_split_concat(a: Seq<char>, b: Seq<char>, sep: char)
    ensures
        split_by(a + seq![sep] + b, sep) == split_by(a, sep) + split_by(b, sep),
    decreases b.len(),
{
    let s = a + seq![sep] + b;
    if b.len() == 0 {
        assert(s.drop_last() =~= a);
        assert(split_by(s, sep) =~= split_by(a, sep) + split_by(b, sep));
    } else {
        lemma_split_concat(a, b.drop_last(), sep);
        lemma_split_nonempty(b.drop_last(), sep);
        assert(s.drop_last() =~= a + seq![sep] + b.drop_last());
        assert(s.last() == b.last());
        let x = split_by(a, sep);
        let y = split_by(b.drop_last(), sep);
        if b.last() == sep {
            assert(split_by(s, sep) =~= x + split_by(b, sep));
        } else {
            assert((x + y).update((x + y).len() - 1, (x + y).last().push(b.last())) =~= x + y.update(
                y.len() - 1,
                y.last().push(b.last()),
            ));
        }
    }
}

/// A piece without the separator is not split.
pub proof fn lemma_split_single(t: Seq<char>, sep: char)
    requires
        !t.contains(sep),
    ensures
        split_by(t, sep) == seq![t],
    decreases t.len(),
{
    if t.len() > 0 {
        assert(!t.drop_last().contains(sep)) by {
            if t.drop_last().contains(sep) {
                let i = choose|i: int| 0 <= i < t.drop_last().len() && t.drop_last()[i] == sep;
                assert(t[i] == sep);
            }
        }
        lemma_split_single(t.drop_last(), sep);
        assert(t.last() != sep) by {
            assert(t[t.len() - 1] == t.last());
        }
        assert(t.drop_last().push(t.last()) =~= t);
        assert(seq![t.drop_last()].update(0, t) =~= seq![t]);
    } else {
        assert(t =~= Seq::<char>::empty());
    }
}

/// No piece holds the separator.
pub proof fn lemma_split_pieces_free(s: Seq<char>, sep: char)
    ensures
        forall|i: int|
            0 <= i < split_by(s, sep).len() ==> !(#[trigger] split_by(s, sep)[i]).contains(sep),
    decreases s.len(),
{
    if s.len() > 0 {
        lemma_split_pieces_free(s.drop_last(), sep);
        lemma_split_nonempty(s.drop_last(), sep);
        let init = split_by(s.drop_last(), sep);
        if s.last() != sep {
            let last = init.last().push(s.last());
            assert(!last.contains(sep)) by {
                if last.contains(sep) {
                    let j = choose|j: int| 0 <= j < last.len() && last[j] == sep;
                    if j < init.last().len() {
                        assert(init[init.len() - 1][j] == sep);
                        assert(init[init.len() - 1].contains(sep));
                    }
                }
            }
        }
    }
}

} // verus!
