//! Properties of extraction and splicing that hold across calls.
use vstd::prelude::*;
use crate::syncer::extracted;
use crate::syncer::extracted_all;
use crate::syncer::has_region;
use crate::syncer::is_region;
use crate::syncer::lemma_region_unique;
use crate::syncer::line_role;
use crate::syncer::marker_line;
use crate::syncer::region_of;
use crate::syncer::role_of;
use crate::syncer::spliced;
use crate::syncer::trimmed;
use crate::syncer::LineRole;
use crate::syncer::joined_prefix;
use crate::text::contains_all;
use crate::text::is_ws;
use crate::text::lemma_split_concat;
use crate::text::lemma_split_nonempty;
use crate::text::lemma_split_pieces_free;
use crate::text::lemma_split_single;
use crate::text::lemma_trim_end_idempotent;
use crate::text::split_spaces;
use crate::text::trim_end;
use vstd::seq_lib::lemma_flatten_concat;

verus! {

/// A file whose region is bounded by lines `s` and `e` contributes exactly the
/// lines strictly between them, in order, without trailing whitespace.
pub proof fn lemma_extract_between(lines: Seq<Seq<char>>, label: Seq<char>, s: int, e: int)
    requires
        is_region(lines, label, "start"@, "end"@, s, e),
    ensures
        extracted(lines, label) == trimmed(lines.subrange(s + 1, e)),
        extracted(lines, label).len() == e - s - 1,
{
    lemma_region_unique(lines, label, "start"@, "end"@, s, e);
}

/// Extraction keeps the order of the source list: extracting from `xs` followed
/// by `ys` gives what `xs` gives followed by what `ys` gives.
pub proof fn lemma_extract_all_concat(xs: Seq<Seq<Seq<char>>>, ys: Seq<Seq<Seq<char>>>, label: Seq<char>)
    ensures
        extracted_all(xs + ys, label) == extracted_all(xs, label) + extracted_all(ys, label),
{
    let g = |x: Seq<Seq<char>>| extracted(x, label);
    assert((xs + ys).map_values(g) =~= xs.map_values(g) + ys.map_values(g));
    lemma_flatten_concat(xs.map_values(g), ys.map_values(g));
}

/// Two sources `a` then `b` stage what `a` gives followed by what `b` gives;
/// in the other order, the other way round.
pub proof fn lemma_extract_two_sources(a: Seq<Seq<char>>, b: Seq<Seq<char>>, label: Seq<char>)
    ensures
        extracted_all(seq![a, b], label) == extracted(a, label) + extracted(b, label),
        extracted_all(seq![b, a], label) == extracted(b, label) + extracted(a, label),
{
    let g = |x: Seq<Seq<char>>| extracted(x, label);
    assert(seq![a, b].map_values(g) =~= seq![g(a), g(b)]);
    assert(seq![b, a].map_values(g) =~= seq![g(b), g(a)]);
    assert(seq![g(a), g(b)].drop_first() =~= seq![g(b)]);
    assert(seq![g(b), g(a)].drop_first() =~= seq![g(a)]);
    assert(seq![g(b)].drop_first() =~= Seq::<Seq<Seq<char>>>::empty());
    assert(seq![g(a)].drop_first() =~= Seq::<Seq<Seq<char>>>::empty());
    seq![g(b)].lemma_flatten_singleton();
    seq![g(a)].lemma_flatten_singleton();
    assert(seq![g(a), g(b)].flatten() == g(a) + seq![g(b)].flatten());
    assert(seq![g(b), g(a)].flatten() == g(b) + seq![g(a)].flatten());
}

/// The new marker lines read back as the start and end of a destination region.
pub open spec fn markers_read_back(label: Seq<char>) -> bool {
    &&& role_of(trim_end(marker_line(label, "autogen start"@)), label, "autogen start"@, "autogen end"@)
        == LineRole::Start
    &&& role_of(trim_end(marker_line(label, "autogen end"@)), label, "autogen start"@, "autogen end"@)
        == LineRole::End
}

/// No staged line reads as a destination end marker.
pub open spec fn no_end_marker(staged: Seq<Seq<char>>, label: Seq<char>) -> bool {
    forall|i: int|
        0 <= i < staged.len() ==> role_of(
            trim_end(#[trigger] staged[i]),
            label,
            "autogen start"@,
            "autogen end"@,
        ) != LineRole::End
}

proof fn lemma_trimmed_idempotent(ls: Seq<Seq<char>>)
    ensures
        trimmed(trimmed(ls)) == trimmed(ls),
{
    assert forall|i: int| 0 <= i < ls.len() implies #[trigger] trimmed(trimmed(ls))[i] == trimmed(
        ls,
    )[i] by {
        lemma_trim_end_idempotent(ls[i]);
    }
    assert(trimmed(trimmed(ls)) =~= trimmed(ls));
}

/// The label's last token is not empty and does not end in whitespace, and no
/// token of the label is `start`: then the synthesized markers read back as markers.
pub open spec fn label_fits_markers(label: Seq<char>) -> bool {
    let lb = split_spaces(label);
    &&& lb.last().len() > 0
    &&& !is_ws(lb.last().last())
    &&& !lb.contains("start"@)
}

proof fn lemma_split_joined(p: Seq<Seq<char>>, x: Seq<char>)
    requires
        forall|i: int| 0 <= i < p.len() ==> !(#[trigger] p[i]).contains(' '),
    ensures
        split_spaces(joined_prefix(p) + x) == p + split_spaces(x),
    decreases p.len(),
{
    if p.len() == 0 {
        assert(joined_prefix(p) + x =~= x);
        assert(p + split_spaces(x) =~= split_spaces(x));
    } else {
        let q = p.drop_last();
        let t = p.last();
        let x2 = t + seq![' '] + x;
        assert(joined_prefix(p) + x =~= joined_prefix(q) + x2);
        assert forall|i: int| 0 <= i < q.len() implies !(#[trigger] q[i]).contains(' ') by {
            assert(q[i] == p[i]);
        }
        lemma_split_joined(q, x2);
        lemma_split_concat(t, x, ' ');
        assert(!p[p.len() - 1].contains(' '));
        lemma_split_single(t, ' ');
        assert(q + (seq![t] + split_spaces(x)) =~= p + split_spaces(x));
    }
}

proof fn lemma_word_split(w: Seq<char>)
    requires
        forall|i: int| 0 <= i < w.len() ==> w[i] != ' ',
    ensures
        split_spaces(w) == seq![w],
{
    assert(!w.contains(' '));
    lemma_split_single(w, ' ');
}

proof fn lemma_phrases_split()
    ensures
        split_spaces("autogen start"@) == seq!["autogen"@, "start"@],
        split_spaces("autogen end"@) == seq!["autogen"@, "end"@],
        "autogen"@ != "start"@,
        "end"@ != "start"@,
{
    reveal_strlit("autogen start");
    reveal_strlit("autogen end");
    reveal_strlit("autogen");
    reveal_strlit("start");
    reveal_strlit("end");
    assert("autogen start"@ =~= "autogen"@ + seq![' '] + "start"@);
    assert("autogen end"@ =~= "autogen"@ + seq![' '] + "end"@);
    lemma_split_concat("autogen"@, "start"@, ' ');
    lemma_split_concat("autogen"@, "end"@, ' ');
    lemma_word_split("autogen"@);
    lemma_word_split("start"@);
    lemma_word_split("end"@);
    assert(seq!["autogen"@] + seq!["start"@] =~= seq!["autogen"@, "start"@]);
    assert(seq!["autogen"@] + seq!["end"@] =~= seq!["autogen"@, "end"@]);
}

/// The tokens of a marker line: the label's tokens but the last, the phrase's
/// tokens, and the label's last token.
proof fn lemma_marker_tokens(label: Seq<char>, phrase: Seq<char>)
    ensures
        split_spaces(marker_line(label, phrase)) == split_spaces(label).drop_last() + split_spaces(
            phrase,
        ) + seq![split_spaces(label).last()],
{
    let lb = split_spaces(label);
    lemma_split_nonempty(label, ' ');
    lemma_split_pieces_free(label, ' ');
    let p = lb.drop_last();
    let last = lb.last();
    assert forall|i: int| 0 <= i < p.len() implies !(#[trigger] p[i]).contains(' ') by {
        assert(p[i] == lb[i]);
    }
    let x = phrase + seq![' '] + last;
    assert(marker_line(label, phrase) =~= joined_prefix(p) + x);
    lemma_split_joined(p, x);
    lemma_split_concat(phrase, last, ' ');
    assert(!lb[lb.len() - 1].contains(' '));
    lemma_split_single(last, ' ');
    assert(p + (split_spaces(phrase) + seq![last]) =~= p + split_spaces(phrase) + seq![last]);
}

proof fn lemma_markers_read_back(label: Seq<char>)
    requires
        label_fits_markers(label),
    ensures
        markers_read_back(label),
{
    let st = "autogen start"@;
    let en = "autogen end"@;
    let lb = split_spaces(label);
    lemma_split_nonempty(label, ' ');
    lemma_phrases_split();
    let p = lb.drop_last();
    let last = lb.last();
    let n = p.len() as int;
    lemma_marker_tokens(label, st);
    lemma_marker_tokens(label, en);
    let ms = marker_line(label, st);
    let me = marker_line(label, en);
    assert(ms.len() > 0 && ms.last() == last.last());
    assert(me.len() > 0 && me.last() == last.last());
    assert(trim_end(ms) == ms);
    assert(trim_end(me) == me);
    let ls = split_spaces(ms);
    let le = split_spaces(me);
    assert(ls == p + seq!["autogen"@, "start"@] + seq![last]);
    assert(le == p + seq!["autogen"@, "end"@] + seq![last]);
    assert(ls.len() == n + 3 && le.len() == n + 3 && lb.len() == n + 1);
    assert forall|i: int| 0 <= i < lb.len() implies #[trigger] ls.contains(lb[i]) by {
        if i < n {
            assert(ls[i] == lb[i]);
        } else {
            assert(ls[n + 2] == lb[i]);
        }
    }
    assert forall|i: int| 0 <= i < lb.len() implies #[trigger] le.contains(lb[i]) by {
        if i < n {
            assert(le[i] == lb[i]);
        } else {
            assert(le[n + 2] == lb[i]);
        }
    }
    assert(contains_all(ls, lb));
    assert(contains_all(le, lb));
    let sp = split_spaces(st);
    let ep = split_spaces(en);
    assert forall|i: int| 0 <= i < sp.len() implies #[trigger] ls.contains(sp[i]) by {
        assert(ls[n + i] == sp[i]);
    }
    assert forall|i: int| 0 <= i < ep.len() implies #[trigger] le.contains(ep[i]) by {
        assert(le[n + i] == ep[i]);
    }
    assert(!le.contains("start"@)) by {
        if le.contains("start"@) {
            let j = choose|j: int| 0 <= j < le.len() && le[j] == "start"@;
            if j < n {
                assert(lb[j] == "start"@);
            } else if j == n + 2 {
                assert(lb[lb.len() - 1] == "start"@);
            }
        }
    }
    assert(sp[1] == "start"@);
    assert(!contains_all(le, sp));
}

/// Splicing the same staged lines a second time changes nothing, where the
/// label's markers read back as markers and no staged line reads as an end marker.
pub proof fn lemma_splice_idempotent(lines: Seq<Seq<char>>, label: Seq<char>, staged: Seq<Seq<char>>)
    requires
        spliced(lines, label, staged) is Some,
        label_fits_markers(label),
        no_end_marker(staged, label),
    ensures
        spliced(spliced(lines, label, staged)->0, label, staged) == spliced(lines, label, staged),
{
    lemma_markers_read_back(label);
    let st = "autogen start"@;
    let en = "autogen end"@;
    assert(has_region(lines, label, st, en));
    let (s, e) = choose|s: int, e: int| is_region(lines, label, st, en, s, e);
    assert(is_region(lines, label, st, en, s, e));
    lemma_region_unique(lines, label, st, en, s, e);
    let o = spliced(lines, label, staged)->0;
    let n = staged.len() as int;
    let pre = trimmed(lines.take(s));
    let post = trimmed(lines.skip(e + 1));
    assert(o == pre + seq![marker_line(label, st)] + staged + seq![marker_line(label, en)] + post);
    assert forall|k: int| 0 <= k < s implies line_role(o, k, label, st, en) != LineRole::Start by {
        assert(o[k] == trim_end(lines[k]));
        lemma_trim_end_idempotent(lines[k]);
        assert(line_role(lines, k, label, st, en) != LineRole::Start);
    }
    assert(o[s] == marker_line(label, st));
    assert(o[s + 1 + n] == marker_line(label, en));
    assert forall|k: int| s < k < s + 1 + n implies line_role(o, k, label, st, en) != LineRole::End by {
        assert(o[k] == staged[k - s - 1]);
    }
    assert(is_region(o, label, st, en, s, s + 1 + n));
    lemma_region_unique(o, label, st, en, s, s + 1 + n);
    assert(o.take(s) =~= pre);
    assert(o.skip(s + 1 + n + 1) =~= post);
    lemma_trimmed_idempotent(lines.take(s));
    lemma_trimmed_idempotent(lines.skip(e + 1));
}

/// Splicing keeps every line before and after the region, trimmed of trailing
/// whitespace, and puts the staged lines between the new markers.
pub proof fn lemma_splice_keeps_outside(
    lines: Seq<Seq<char>>,
    label: Seq<char>,
    staged: Seq<Seq<char>>,
    s: int,
    e: int,
)
    requires
        is_region(lines, label, "autogen start"@, "autogen end"@, s, e),
    ensures
        spliced(lines, label, staged) is Some,
        spliced(lines, label, staged)->0.take(s) == trimmed(lines.take(s)),
        spliced(lines, label, staged)->0.subrange(s + 1, s + 1 + staged.len()) == staged,
        spliced(lines, label, staged)->0.skip(s + staged.len() + 2) == trimmed(lines.skip(e + 1)),
{
    lemma_region_unique(lines, label, "autogen start"@, "autogen end"@, s, e);
    let o = spliced(lines, label, staged)->0;
    assert(o.take(s) =~= trimmed(lines.take(s)));
    assert(o.subrange(s + 1, s + 1 + staged.len()) =~= staged);
    assert(o.skip(s + staged.len() + 2) =~= trimmed(lines.skip(e + 1)));
}

/// A destination with a start marker but no end marker is not spliced.
pub proof fn lemma_malformed_destination_skipped(
    lines: Seq<Seq<char>>,
    label: Seq<char>,
    staged: Seq<Seq<char>>,
    s: int,
)
    requires
        0 <= s < lines.len(),
        line_role(lines, s, label, "autogen start"@, "autogen end"@) == LineRole::Start,
        forall|k: int|
            0 <= k < lines.len() ==> line_role(lines, k, label, "autogen start"@, "autogen end"@)
                != LineRole::End,
    ensures
        spliced(lines, label, staged) is None,
{
    assert forall|a: int, b: int| !is_region(lines, label, "autogen start"@, "autogen end"@, a, b) by {
        if 0 <= b < lines.len() {
            assert(line_role(lines, b, label, "autogen start"@, "autogen end"@) != LineRole::End);
        }
    }
}

} // verus!
