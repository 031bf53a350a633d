//! Finding a marked region in a file's lines, extracting it from source files
//! and splicing the gathered lines into the marked region of destination files.
use vstd::prelude::*;
use vstd::string::StringExecFns;
use crate::text::contains_all;
use crate::text::contains_every;
use crate::text::split_on_spaces;
use crate::text::split_spaces;
use crate::text::trim_end;
use crate::text::trim_trailing;
use crate::text::views;
use crate::text::lemma_split_nonempty;
use crate::text::lemma_views_push;

verus! {

/// What a line marks, for a given label and pair of phrases.
#[derive(Debug, Clone, Copy, PartialEq, Eq, Structural)]
pub enum LineRole {
    Start,
    End,
    Neither,
}

/// The role of `line`. Matching is by containment: every label token and every
/// phrase token must occur among the line's tokens, in any order, and the line
/// must have exactly as many tokens as the label and the phrase together.
/// The start phrase is tried before the end phrase.
pub open spec fn role_of(line: Seq<char>, label: Seq<char>, start: Seq<char>, end: Seq<char>) -> LineRole {
    let lt = split_spaces(line);
    let lb = split_spaces(label);
    let st = split_spaces(start);
    let et = split_spaces(end);
    if !contains_all(lt, lb) {
        LineRole::Neither
    } else if st.len() + lb.len() == lt.len() && contains_all(lt, st) {
        LineRole::Start
    } else if et.len() + lb.len() == lt.len() && contains_all(lt, et) {
        LineRole::End
    } else {
        LineRole::Neither
    }
}

/// The role of line `k` of a file, read without its trailing whitespace.
pub open spec fn line_role(
    lines: Seq<Seq<char>>,
    k: int,
    label: Seq<char>,
    start: Seq<char>,
    end: Seq<char>,
) -> LineRole {
    role_of(trim_end(lines[k]), label, start, end)
}

/// Lines `s` and `e` bound the region: `s` is the first start line of the file,
/// and `e` the first end line after it.
pub open spec fn is_region(
    lines: Seq<Seq<char>>,
    label: Seq<char>,
    start: Seq<char>,
    end: Seq<char>,
    s: int,
    e: int,
) -> bool {
    &&& 0 <= s < e < lines.len()
    &&& line_role(lines, s, label, start, end) == LineRole::Start
    &&& forall|k: int| 0 <= k < s ==> line_role(lines, k, label, start, end) != LineRole::Start
    &&& line_role(lines, e, label, start, end) == LineRole::End
    &&& forall|k: int| s < k < e ==> line_role(lines, k, label, start, end) != LineRole::End
}

pub open spec fn has_region(lines: Seq<Seq<char>>, label: Seq<char>, start: Seq<char>, end: Seq<char>) -> bool {
    exists|s: int, e: int| is_region(lines, label, start, end, s, e)
}

/// The indices of the two marker lines of the region, if the file has one.
pub open spec fn region_of(lines: Seq<Seq<char>>, label: Seq<char>, start: Seq<char>, end: Seq<char>) -> Option<(int, int)> {
    if has_region(lines, label, start, end) {
        Some(choose|p: (int, int)| is_region(lines, label, start, end, p.0, p.1))
    } else {
        None
    }
}

/// A file has at most one region: any pair of lines that bounds it is the pair
/// that `region_of` gives.
pub proof fn lemma_region_unique(
    lines: Seq<Seq<char>>,
    label: Seq<char>,
    start: Seq<char>,
    end: Seq<char>,
    s: int,
    e: int,
)
    requires
        is_region(lines, label, start, end, s, e),
    ensures
        region_of(lines, label, start, end) == Some((s, e)),
{
    let w = (s, e);
    assert(is_region(lines, label, start, end, w.0, w.1));
    assert(has_region(lines, label, start, end));
    let p = choose|p: (int, int)| is_region(lines, label, start, end, p.0, p.1);
    assert(is_region(lines, label, start, end, p.0, p.1));
    if p.0 < s {
        assert(line_role(lines, p.0, label, start, end) != LineRole::Start);
    }
    if s < p.0 {
        assert(line_role(lines, s, label, start, end) != LineRole::Start);
    }
    if p.1 < e {
        assert(line_role(lines, p.1, label, start, end) != LineRole::End);
    }
    if e < p.1 {
        assert(line_role(lines, e, label, start, end) != LineRole::End);
    }
}

/// Decides what `line` marks (see `role_of`).
pub fn check_label(line: &str, label: &str, start: &str, end: &str) -> (r: LineRole)
    ensures
        r == role_of(line@, label@, start@, end@),
{
    let lt = split_on_spaces(line);
    let lb = split_on_spaces(label);
    if !contains_every(&lt, &lb) {
        return LineRole::Neither;
    }
    let st = split_on_spaces(start);
    if st.len() as u128 + lb.len() as u128 == lt.len() as u128 && contains_every(&lt, &st) {
        return LineRole::Start;
    }
    let et = split_on_spaces(end);
    if et.len() as u128 + lb.len() as u128 == lt.len() as u128 && contains_every(&lt, &et) {
        return LineRole::End;
    }
    LineRole::Neither
}

/// Finds the region of `lines` (see `is_region`): the indices of its start and
/// end marker lines, or `None` where the file holds no start line followed by an end line.
pub fn get_label_position(lines: &Vec<String>, label: &str, start: &str, end: &str) -> (r: Option<(usize, usize)>)
    ensures
        match r {
            Some((s, e)) => is_region(views(lines@), label@, start@, end@, s as int, e as int)
                && region_of(views(lines@), label@, start@, end@) == Some((s as int, e as int)),
            None => !has_region(views(lines@), label@, start@, end@)
                && region_of(views(lines@), label@, start@, end@) is None,
        },
{
    let ghost ls = views(lines@);
    let mut found: Option<usize> = None;
    let mut i: usize = 0;
    while i < lines.len()
        invariant
            ls == views(lines@),
            i <= lines@.len(),
            match found {
                None => forall|k: int| 0 <= k < i ==> line_role(ls, k, label@, start@, end@) != LineRole::Start,
                Some(s) => s < i && line_role(ls, s as int, label@, start@, end@) == LineRole::Start
                    && (forall|k: int| 0 <= k < s ==> line_role(ls, k, label@, start@, end@) != LineRole::Start)
                    && (forall|k: int| s < k < i ==> line_role(ls, k, label@, start@, end@) != LineRole::End),
            },
        decreases lines@.len() - i,
    {
        let trimmed = trim_trailing(lines[i].as_str());
        let role = check_label(trimmed.as_str(), label, start, end);
        assert(ls[i as int] == lines@[i as int]@);
        match found {
            None => {
                if role == LineRole::Start {
                    found = Some(i);
                }
            },
            Some(s) => {
                if role == LineRole::End {
                    assert(is_region(ls, label@, start@, end@, s as int, i as int));
                    proof {
                        lemma_region_unique(ls, label@, start@, end@, s as int, i as int);
                    }
                    return Some((s, i));
                }
            },
        }
        i += 1;
    }
    assert forall|s: int, e: int| !is_region(ls, label@, start@, end@, s, e) by {
        if is_region(ls, label@, start@, end@, s, e) {
            match found {
                None => {
                    assert(line_role(ls, s, label@, start@, end@) != LineRole::Start);
                },
                Some(s0) => {
                    if s < s0 {
                        assert(line_role(ls, s, label@, start@, end@) != LineRole::Start);
                    }
                    if s0 < s {
                        assert(line_role(ls, s0 as int, label@, start@, end@) != LineRole::Start);
                    }
                    assert(line_role(ls, e, label@, start@, end@) != LineRole::End);
                },
            }
        }
    }
    None
}

/// The lines that a source file contributes: those strictly between its
/// `start` and `end` marker lines, in order, without trailing whitespace;
/// nothing where the file has no region.
pub open spec fn extracted(lines: Seq<Seq<char>>, label: Seq<char>) -> Seq<Seq<char>> {
    match region_of(lines, label, "start"@, "end"@) {
        Some(p) => lines.subrange(p.0 + 1, p.1).map_values(|l: Seq<char>| trim_end(l)),
        None => Seq::empty(),
    }
}

/// The staged lines of several source files: what each contributes, in the given order.
pub open spec fn extracted_all(files: Seq<Seq<Seq<char>>>, label: Seq<char>) -> Seq<Seq<char>> {
    files.map_values(|f: Seq<Seq<char>>| extracted(f, label)).flatten()
}

/// The lines held by each file of a list of files.
pub open spec fn files_of(v: Seq<Vec<String>>) -> Seq<Seq<Seq<char>>> {
    v.map_values(|f: Vec<String>| views(f@))
}

/// Each token followed by one space.
pub open spec fn joined_prefix(toks: Seq<Seq<char>>) -> Seq<char>
    decreases toks.len(),
{
    if toks.len() == 0 {
        Seq::empty()
    } else {
        joined_prefix(toks.drop_last()) + toks.last() + seq![' ']
    }
}

/// A synthesized marker line: the label's tokens but the last, the phrase, and
/// the label's last token, joined by single spaces.
pub open spec fn marker_line(label: Seq<char>, phrase: Seq<char>) -> Seq<char> {
    let lb = split_spaces(label);
    joined_prefix(lb.drop_last()) + phrase + seq![' '] + lb.last()
}

/// The lines of a file, each without trailing whitespace.
pub open spec fn trimmed(lines: Seq<Seq<char>>) -> Seq<Seq<char>> {
    lines.map_values(|l: Seq<char>| trim_end(l))
}

/// A destination file after splicing `staged` into its `autogen start` /
/// `autogen end` region: the lines before the region, a new start marker, the
/// staged lines, a new end marker and the lines after the region. `None` where
/// the file has no region.
pub open spec fn spliced(lines: Seq<Seq<char>>, label: Seq<char>, staged: Seq<Seq<char>>) -> Option<Seq<Seq<char>>> {
    match region_of(lines, label, "autogen start"@, "autogen end"@) {
        Some(p) => Some(
            trimmed(lines.take(p.0)) + seq![marker_line(label, "autogen start"@)] + staged + seq![
                marker_line(label, "autogen end"@),
            ] + trimmed(lines.skip(p.1 + 1)),
        ),
        None => None,
    }
}

/// Appends the trimmed lines `from..to` of `lines` to `out`.
fn push_trimmed(out: &mut Vec<String>, lines: &Vec<String>, from: usize, to: usize)
    requires
        from <= to <= lines@.len(),
    ensures
        views(final(out)@) == views(old(out)@) + trimmed(views(lines@).subrange(from as int, to as int)),
{
    let ghost start = views(out@);
    let mut i: usize = from;
    while i < to
        invariant
            from <= i <= to <= lines@.len(),
            views(out@) == start + trimmed(views(lines@).subrange(from as int, i as int)),
        decreases to - i,
    {
        let t = trim_trailing(lines[i].as_str());
        proof {
            lemma_views_push(out@, t);
        }
        out.push(t);
        assert(trimmed(views(lines@).subrange(from as int, i + 1)) =~= trimmed(
            views(lines@).subrange(from as int, i as int),
        ).push(t@));
        assert(views(out@) =~= start + trimmed(views(lines@).subrange(from as int, i + 1)));
        i += 1;
    }
}

/// The lines that one source file contributes (see `extracted`).
pub fn extract(lines: &Vec<String>, label: &str) -> (r: Vec<String>)
    ensures
        views(r@) == extracted(views(lines@), label@),
{
    let mut out: Vec<String> = Vec::new();
    match get_label_position(lines, label, "start", "end") {
        Some((s, e)) => {
            assert(views(lines@).len() == lines@.len());
            push_trimmed(&mut out, lines, s + 1, e);
            assert(views(out@) =~= extracted(views(lines@), label@));
        },
        None => {
            assert(views(out@) =~= extracted(views(lines@), label@));
        },
    }
    out
}

/// Appends copies of the lines of `part` to `out`.
fn append_lines(out: &mut Vec<String>, part: &Vec<String>)
    ensures
        views(final(out)@) == views(old(out)@) + views(part@),
{
    let ghost before = views(out@);
    let mut j: usize = 0;
    while j < part.len()
        invariant
            j <= part@.len(),
            views(out@) == before + views(part@).take(j as int),
        decreases part@.len() - j,
    {
        proof {
            lemma_views_push(out@, part@[j as int]);
        }
        out.push(part[j].clone());
        assert(views(part@).take(j + 1) =~= views(part@).take(j as int).push(part@[j as int]@));
        assert(views(out@) =~= before + views(part@).take(j + 1));
        j += 1;
    }
    assert(views(part@).take(part@.len() as int) =~= views(part@));
}

proof fn lemma_extracted_all_push(files: Seq<Seq<Seq<char>>>, f: Seq<Seq<char>>, label: Seq<char>)
    ensures
        extracted_all(files.push(f), label) == extracted_all(files, label) + extracted(f, label),
{
    let g = |x: Seq<Seq<char>>| extracted(x, label);
    assert(files.push(f).map_values(g) =~= files.map_values(g).push(g(f)));
    files.map_values(g).lemma_flatten_push(g(f));
}

/// The staged lines of several source files, concatenated in the given order.
pub fn extract_all(files: &Vec<Vec<String>>, label: &str) -> (r: Vec<String>)
    ensures
        views(r@) == extracted_all(files_of(files@), label@),
{
    let mut out: Vec<String> = Vec::new();
    let mut i: usize = 0;
    assert(files_of(files@).take(0) =~= Seq::<Seq<Seq<char>>>::empty());
    assert(views(out@) =~= extracted_all(files_of(files@).take(0), label@));
    while i < files.len()
        invariant
            i <= files@.len(),
            views(out@) == extracted_all(files_of(files@).take(i as int), label@),
        decreases files@.len() - i,
    {
        let part = extract(&files[i], label);
        append_lines(&mut out, &part);
        proof {
            let fs = files_of(files@);
            assert(fs.take(i + 1) =~= fs.take(i as int).push(fs[i as int]));
            lemma_extracted_all_push(fs.take(i as int), fs[i as int], label@);
        }
        i += 1;
    }
    assert(files_of(files@).take(files@.len() as int) =~= files_of(files@));
    out
}

/// Builds a marker line from the label's tokens and a phrase (see `marker_line`).
fn make_marker(label: &str, phrase: &str) -> (r: String)
    ensures
        r@ == marker_line(label@, phrase@),
{
    let toks = split_on_spaces(label);
    proof {
        lemma_split_nonempty(label@, ' ');
    }
    let n = toks.len() - 1;
    let ghost lb = views(toks@);
    let mut out = String::new();
    let mut i: usize = 0;
    while i < n
        invariant
            lb == views(toks@),
            lb == split_spaces(label@),
            n + 1 == toks@.len(),
            i <= n,
            out@ == joined_prefix(lb.take(i as int)),
        decreases n - i,
    {
        let ghost prev = out@;
        out.append(toks[i].as_str());
        out.append(" ");
        proof {
            reveal_strlit(" ");
            assert(lb.take(i + 1).drop_last() =~= lb.take(i as int));
            assert(out@ =~= prev + lb[i as int] + seq![' ']);
        }
        i += 1;
    }
    out.append(phrase);
    out.append(" ");
    out.append(toks[n].as_str());
    proof {
        reveal_strlit(" ");
        assert(lb.take(n as int) =~= lb.drop_last());
        assert(out@ =~= marker_line(label@, phrase@));
    }
    out
}

/// Splices `staged` into the region of a destination file (see `spliced`);
/// `None` where the file has no `autogen start` / `autogen end` region.
pub fn splice(lines: &Vec<String>, label: &str, staged: &Vec<String>) -> (r: Option<Vec<String>>)
    ensures
        match r {
            Some(v) => spliced(views(lines@), label@, views(staged@)) == Some(views(v@)),
            None => spliced(views(lines@), label@, views(staged@)) is None,
        },
{
    match get_label_position(lines, label, "autogen start", "autogen end") {
        None => None,
        Some((s, e)) => {
            let ghost ls = views(lines@);
            assert(ls.len() == lines@.len());
            assert(is_region(ls, label@, "autogen start"@, "autogen end"@, s as int, e as int));
            let mut out: Vec<String> = Vec::new();
            push_trimmed(&mut out, lines, 0, s);
            let m = make_marker(label, "autogen start");
            proof {
                lemma_views_push(out@, m);
            }
            out.push(m);
            let ghost mid = views(out@);
            let mut j: usize = 0;
            while j < staged.len()
                invariant
                    j <= staged@.len(),
                    views(out@) == mid + views(staged@).take(j as int),
                decreases staged@.len() - j,
            {
                proof {
                    lemma_views_push(out@, staged@[j as int]);
                }
                out.push(staged[j].clone());
                assert(views(staged@).take(j + 1) =~= views(staged@).take(j as int).push(
                    staged@[j as int]@,
                ));
                assert(views(out@) =~= mid + views(staged@).take(j + 1));
                j += 1;
            }
            let m2 = make_marker(label, "autogen end");
            proof {
                lemma_views_push(out@, m2);
            }
            out.push(m2);
            let n = lines.len();
            push_trimmed(&mut out, lines, e + 1, n);
            proof {
                assert(views(staged@).take(staged@.len() as int) =~= views(staged@));
                assert(ls.subrange(0, s as int) =~= ls.take(s as int));
                assert(ls.subrange(e + 1, ls.len() as int) =~= ls.skip(e + 1));
                assert(views(out@) =~= spliced(ls, label@, views(staged@))->0);
            }
            Some(out)
        },
    }
}

/// What became of one destination file in a run.
#[derive(Debug, PartialEq, Eq)]
pub enum DestinationOutcome {
    /// The new lines of the file, to be committed in its place.
    Updated(Vec<String>),
    /// The file could not be read; it is skipped.
    Unreadable,
    /// The file holds no complete `autogen start` / `autogen end` region; it is left as it is.
    NoRegion,
}

/// Why a whole run fails.
#[derive(Debug, Clone, Copy, PartialEq, Eq, Structural)]
pub enum SyncError {
    /// The source file of this index could not be read.
    SourceUnreadable(usize),
}

/// The lines of each source file, an unreadable one counting as empty.
pub open spec fn readable_files(v: Seq<Option<Vec<String>>>) -> Seq<Seq<Seq<char>>> {
    v.map_values(
        |o: Option<Vec<String>>|
            match o {
                Some(f) => views(f@),
                None => Seq::empty(),
            },
    )
}

/// `o` is what a run owes destination `d`, given the staged lines.
pub open spec fn outcome_for(
    o: DestinationOutcome,
    d: Option<Vec<String>>,
    label: Seq<char>,
    staged: Seq<Seq<char>>,
) -> bool {
    match d {
        None => o == DestinationOutcome::Unreadable,
        Some(f) => match spliced(views(f@), label, staged) {
            Some(new_lines) => o is Updated && views(o->Updated_0@) == new_lines,
            None => o == DestinationOutcome::NoRegion,
        },
    }
}

/// One run over files already read (`None` for a file that could not be read):
/// the first unreadable source fails the run; otherwise the lines extracted from
/// all sources, in order, are spliced into each destination independently.
pub fn sync_files(
    sources: &Vec<Option<Vec<String>>>,
    destinations: &Vec<Option<Vec<String>>>,
    label: &str,
) -> (r: Result<Vec<DestinationOutcome>, SyncError>)
    ensures
        match r {
            Err(SyncError::SourceUnreadable(i)) => i < sources@.len() && sources@[i as int] is None
                && forall|k: int| 0 <= k < i ==> sources@[k] is Some,
            Ok(outs) => (forall|k: int| 0 <= k < sources@.len() ==> sources@[k] is Some)
                && outs@.len() == destinations@.len() && forall|j: int|
                0 <= j < destinations@.len() ==> outcome_for(
                    #[trigger] outs@[j],
                    destinations@[j],
                    label@,
                    extracted_all(readable_files(sources@), label@),
                ),
        },
{
    let mut staged: Vec<String> = Vec::new();
    let mut i: usize = 0;
    assert(readable_files(sources@).take(0) =~= Seq::<Seq<Seq<char>>>::empty());
    assert(views(staged@) =~= extracted_all(readable_files(sources@).take(0), label@));
    while i < sources.len()
        invariant
            i <= sources@.len(),
            forall|k: int| 0 <= k < i ==> sources@[k] is Some,
            views(staged@) == extracted_all(readable_files(sources@).take(i as int), label@),
        decreases sources@.len() - i,
    {
        match &sources[i] {
            None => {
                return Err(SyncError::SourceUnreadable(i));
            },
            Some(f) => {
                let part = extract(f, label);
                append_lines(&mut staged, &part);
                proof {
                    let fs = readable_files(sources@);
                    assert(fs[i as int] == views(f@));
                    assert(fs.take(i + 1) =~= fs.take(i as int).push(fs[i as int]));
                    lemma_extracted_all_push(fs.take(i as int), fs[i as int], label@);
                }
            },
        }
        i += 1;
    }
    assert(readable_files(sources@).take(sources@.len() as int) =~= readable_files(sources@));
    let ghost st = views(staged@);
    let mut outs: Vec<DestinationOutcome> = Vec::new();
    let mut j: usize = 0;
    while j < destinations.len()
        invariant
            j <= destinations@.len(),
            outs@.len() == j,
            st == views(staged@),
            forall|k: int| 0 <= k < j ==> outcome_for(#[trigger] outs@[k], destinations@[k], label@, st),
        decreases destinations@.len() - j,
    {
        let o = match &destinations[j] {
            None => DestinationOutcome::Unreadable,
            Some(f) => match splice(f, label, &staged) {
                Some(v) => DestinationOutcome::Updated(v),
                None => DestinationOutcome::NoRegion,
            },
        };
        outs.push(o);
        j += 1;
    }
    Ok(outs)
}

/// The kind of the source files (kept for configuration; it does not change a run).
#[derive(Debug, Clone, Copy, PartialEq, Eq, Structural)]
pub enum FromFileType {
    Header,
    GnuLinkScript,
}

/// A synchronisation session: source and destination paths, the label, and
/// configuration that is accepted but has no effect on a run (`type_of_from`,
/// `class_name`, `ignore_symbols`, `mark_symbols`, `compress`).
pub struct Syncer {
    from: Vec<String>,
    to: Vec<String>,
    type_of_from: FromFileType,
    label: String,
    class_name: String,
    ignore_symbols: Vec<String>,
    mark_symbols: Vec<String>,
    compress: bool,
}

/// What a `Syncer` holds.
pub ghost struct SyncerView {
    pub from: Seq<Seq<char>>,
    pub to: Seq<Seq<char>>,
    pub type_of_from: FromFileType,
    pub label: Seq<char>,
    pub class_name: Seq<char>,
    pub ignore_symbols: Seq<Seq<char>>,
    pub mark_symbols: Seq<Seq<char>>,
    pub compress: bool,
}

/// The character sequences of a list of string slices.
pub open spec fn str_views(v: Seq<&str>) -> Seq<Seq<char>> {
    v.map_values(|x: &str| x@)
}

fn to_strings(v: &Vec<&str>) -> (r: Vec<String>)
    ensures
        views(r@) == str_views(v@),
{
    let mut out: Vec<String> = Vec::new();
    let mut i: usize = 0;
    while i < v.len()
        invariant
            i <= v@.len(),
            views(out@) == str_views(v@).take(i as int),
        decreases v@.len() - i,
    {
        let t = String::from_str(v[i]);
        proof {
            lemma_views_push(out@, t);
        }
        out.push(t);
        assert(views(out@) =~= str_views(v@).take(i + 1));
        i += 1;
    }
    assert(str_views(v@).take(v@.len() as int) =~= str_views(v@));
    out
}

impl View for Syncer {
    type V = SyncerView;

    closed spec fn view(&self) -> SyncerView {
        SyncerView {
            from: views(self.from@),
            to: views(self.to@),
            type_of_from: self.type_of_from,
            label: self.label@,
            class_name: self.class_name@,
            ignore_symbols: views(self.ignore_symbols@),
            mark_symbols: views(self.mark_symbols@),
            compress: self.compress,
        }
    }
}

impl Syncer {
    /// A session over these files and this label, with the default configuration:
    /// header sources, no class name, no ignored or marked symbols, compression on.
    pub fn new(from: Vec<&str>, to: Vec<&str>, label: &str) -> (r: Syncer)
        ensures
            r@ == (SyncerView {
                from: str_views(from@),
                to: str_views(to@),
                type_of_from: FromFileType::Header,
                label: label@,
                class_name: Seq::empty(),
                ignore_symbols: Seq::empty(),
                mark_symbols: Seq::empty(),
                compress: true,
            }),
    {
        let r = Syncer {
            from: to_strings(&from),
            to: to_strings(&to),
            type_of_from: FromFileType::Header,
            label: String::from_str(label),
            class_name: String::new(),
            ignore_symbols: Vec::new(),
            mark_symbols: Vec::new(),
            compress: true,
        };
        assert(views(r.ignore_symbols@) =~= Seq::<Seq<char>>::empty());
        r
    }

    pub fn set_type_of_form(&mut self, type_of_from: FromFileType)
        ensures
            final(self)@ == (SyncerView { type_of_from, ..old(self)@ }),
    {
        self.type_of_from = type_of_from;
    }

    pub fn set_class_name(&mut self, name: &str)
        ensures
            final(self)@ == (SyncerView { class_name: name@, ..old(self)@ }),
    {
        self.class_name = String::from_str(name);
    }

    pub fn set_ignore_symbols(&mut self, ignore: Vec<&str>)
        ensures
            final(self)@ == (SyncerView { ignore_symbols: str_views(ignore@), ..old(self)@ }),
    {
        self.ignore_symbols = to_strings(&ignore);
    }

    pub fn set_mark_symbols(&mut self, mark: Vec<&str>)
        ensures
            final(self)@ == (SyncerView { mark_symbols: str_views(mark@), ..old(self)@ }),
    {
        self.mark_symbols = to_strings(&mark);
    }

    pub fn set_compress(&mut self, compress: bool)
        ensures
            final(self)@ == (SyncerView { compress, ..old(self)@ }),
    {
        self.compress = compress;
    }

    /// The source paths, in order.
    pub fn from_files(&self) -> (r: &Vec<String>)
        ensures
            views(r@) == self@.from,
    {
        &self.from
    }

    /// The destination paths, in order.
    pub fn to_files(&self) -> (r: &Vec<String>)
        ensures
            views(r@) == self@.to,
    {
        &self.to
    }

    pub fn label(&self) -> (r: &str)
        ensures
            r@ == self@.label,
    {
        self.label.as_str()
    }

    pub fn type_of_from(&self) -> (r: FromFileType)
        ensures
            r == self@.type_of_from,
    {
        self.type_of_from
    }

    pub fn class_name(&self) -> (r: &str)
        ensures
            r@ == self@.class_name,
    {
        self.class_name.as_str()
    }

    pub fn ignore_symbols(&self) -> (r: &Vec<String>)
        ensures
            views(r@) == self@.ignore_symbols,
    {
        &self.ignore_symbols
    }

    pub fn mark_symbols(&self) -> (r: &Vec<String>)
        ensures
            views(r@) == self@.mark_symbols,
    {
        &self.mark_symbols
    }

    pub fn compress(&self) -> (r: bool)
        ensures
            r == self@.compress,
    {
        self.compress
    }

    /// One run of this session over the contents of its files, read in the order
    /// of `from_files` and `to_files` (see `sync_files`).
    pub fn sync(&self, sources: &Vec<Option<Vec<String>>>, destinations: &Vec<Option<Vec<String>>>) -> (r: Result<Vec<DestinationOutcome>, SyncError>)
        ensures
            match r {
                Err(SyncError::SourceUnreadable(i)) => i < sources@.len() && sources@[i as int] is None
                    && forall|k: int| 0 <= k < i ==> sources@[k] is Some,
                Ok(outs) => (forall|k: int| 0 <= k < sources@.len() ==> sources@[k] is Some)
                    && outs@.len() == destinations@.len() && forall|j: int|
                    0 <= j < destinations@.len() ==> outcome_for(
                        #[trigger] outs@[j],
                        destinations@[j],
                        self@.label,
                        extracted_all(readable_files(sources@), self@.label),
                    ),
            },
    {
        sync_files(sources, destinations, self.label.as_str())
    }
}

} // verus!
