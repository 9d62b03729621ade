//! The history walk: the path filter, one walked commit, and how much of the
//! walk one call covers.

use crate::git::commit::{
    commit_author, commit_text, decode_author, decode_commit, CommitText, Signature,
};
use crate::git::diff::{byte_string, byte_text, ChangeModel, ChangeRecord};
use crate::git::graph::{graph_prefix, next_lanes, GraphState};
use crate::git::history::HistoryMsg;
use crate::git::meta::{age_text, read_clock, relative_time_at, Clock};
use crate::git::refs::{authored_seconds, labels_of, RefsMap};
use crate::model::{
    CommitModel, CommitRecord, CommitSearchText, ObjectId, PathFilter, RefLabel, RefLabelModel,
    SearchTextModel,
};
use crate::text::{
    char_lower, chars_of, compact_lower, compact_lowercase, first_of, lemma_first_from,
    lemma_first_of_skip, lower_char, lower_text, push_chars,
};
use std::sync::Arc;
use vstd::prelude::*;
use vstd::string::StringExecFns;

verus! {

/// The error that `gix` finds in the pathspec `spec`, as text.
pub uninterp spec fn pathspec_error(spec: Seq<char>) -> Option<Seq<char>>;

/// Whether `gix` finds that the pathspec `spec` speaks of the file `path`, and then, whether it
/// excludes it.
pub uninterp spec fn pathspec_match(spec: Seq<char>, path: Seq<u8>) -> Option<bool>;

/// Whether the pathspec `spec` selects the file `path`: it speaks of it, and does not exclude
/// it.
pub open spec fn pathspec_covers(spec: Seq<char>, path: Seq<u8>) -> bool {
    pathspec_match(spec, path) == Some(false)
}

/// `gix::pathspec::parse` and `Search::from_specs` with that one pattern, no prefix and an
/// empty root: the text of the error, if the pathspec is not valid.
#[verifier::external_body]
fn check_pathspec(spec: &str) -> (r: Option<String>)
    ensures
        match r {
            Some(e) => pathspec_error(spec@) == Some(e@),
            None => pathspec_error(spec@) is None,
        },
{
    let pattern = match gix::pathspec::parse(spec.as_bytes(), gix::pathspec::Defaults::default()) {
        Ok(pattern) => pattern,
        Err(e) => return Some(e.to_string()),
    };
    let root = std::path::Path::new("");
    gix::pathspec::Search::from_specs(std::iter::once(pattern), None, root).err().map(|e| e.to_string())
}

/// `Search::pattern_matching_relative_path` of a `gix::pathspec::Search` made from the one
/// pathspec `spec`, for a file, with attributes taken as met: `None` if no pattern matches,
/// else `Match::is_excluded` of the match. `None` too where the pathspec is not valid.
#[verifier::external_body]
fn match_pathspec(spec: &str, path: &[u8]) -> (r: Option<bool>)
    ensures
        r == pathspec_match(spec@, path@),
{
    let root = std::path::Path::new("");
    let file: &gix::bstr::BStr = path.into();
    gix::pathspec::parse(spec.as_bytes(), gix::pathspec::Defaults::default())
        .ok()
        .and_then(|p| gix::pathspec::Search::from_specs(std::iter::once(p), None, root).ok())
        .and_then(|mut s| {
            s.pattern_matching_relative_path(file, Some(false), &mut |_, _, _, _| true)
                .map(|m| m.is_excluded())
        })
}

/// A pathspec that was found valid.
#[derive(Debug)]
pub struct PathspecSearch {
    pub spec: String,
}

/// Reads the path argument as one pathspec.
pub fn build_pathspec_search(filter: &PathFilter) -> (r: Result<PathspecSearch, String>)
    ensures
        match r {
            Ok(s) => pathspec_error(filter.raw@) is None && s.spec@ == filter.raw@,
            Err(e) => pathspec_error(filter.raw@) == Some(e@),
        },
{
    match check_pathspec(filter.as_str()) {
        Some(e) => Err(e),
        None => Ok(PathspecSearch { spec: filter.raw.clone() }),
    }
}

impl PathspecSearch {
    /// Whether the pathspec selects the file `path`.
    pub fn matches(&self, path: &[u8]) -> (r: bool)
        ensures
            r == pathspec_covers(self.spec@, path@),
    {
        match match_pathspec(self.spec.as_str(), path) {
            Some(excluded) => !excluded,
            None => false,
        }
    }
}

/// `s` without the slashes at its end.
pub open spec fn trim_slashes(s: Seq<char>) -> Seq<char>
    decreases s.len(),
{
    if s.len() > 0 && s.last() == '/' {
        trim_slashes(s.drop_last())
    } else {
        s
    }
}

/// The pieces of `s` between slashes.
pub open spec fn path_pieces(s: Seq<char>) -> Seq<Seq<char>>
    decreases s.len(),
{
    if first_of(s, '/') < s.len() {
        seq![s.take(first_of(s, '/') as int)] + path_pieces(s.skip((first_of(s, '/') + 1) as int))
    } else {
        seq![s]
    }
}

/// A character that a pathspec gives a meaning of its own.
pub open spec fn is_glob_char(c: char) -> bool {
    c == '*' || c == '?' || c == '[' || c == ']'
}

/// Whether `s` is a plain path below the root: it names something, has no magic or glob in
/// it, does not start at the root or at `.`, and never goes up.
pub open spec fn is_literal_path(s: Seq<char>) -> bool {
    &&& s.len() > 0
    &&& s[0] != ':'
    &&& s[0] != '!'
    &&& s[0] != '/'
    &&& forall|i: int| 0 <= i < s.len() ==> !is_glob_char(#[trigger] s[i])
    &&& path_pieces(s)[0] != seq!['.']
    &&& !path_pieces(s).contains(seq!['.', '.'])
}

/// The raw path argument as a plain path, without the slashes at its end; `None` if it
/// needs the pathspec matcher.
pub fn literal_path(raw: &str) -> (r: Option<String>)
    ensures
        match r {
            Some(p) => is_literal_path(trim_slashes(raw@)) && p@ == trim_slashes(raw@),
            None => !is_literal_path(trim_slashes(raw@)),
        },
{
    let chars: Vec<char> = chars_of(raw);
    let mut end: usize = chars.len();
    assert(chars@.take(end as int) =~= chars@);
    while end > 0 && chars[end - 1] == '/'
        invariant
            end <= chars@.len(),
            chars@ == raw@,
            trim_slashes(chars@.take(end as int)) == trim_slashes(raw@),
        decreases end,
    {
        assert(chars@.take(end as int).drop_last() =~= chars@.take(end - 1));
        end -= 1;
    }
    let ghost path = chars@.take(end as int);
    assert(path == trim_slashes(raw@));
    if end == 0 || chars[0] == ':' || chars[0] == '!' || chars[0] == '/' {
        return None;
    }
    let mut i: usize = 0;
    while i < end
        invariant
            i <= end <= chars@.len(),
            path == chars@.take(end as int),
            path == trim_slashes(raw@),
            forall|j: int| 0 <= j < i ==> !is_glob_char(#[trigger] path[j]),
        decreases end - i,
    {
        let c: char = chars[i];
        if c == '*' || c == '?' || c == '[' || c == ']' {
            assert(is_glob_char(path[i as int]));
            return None;
        }
        i += 1;
    }
    if !pieces_are_normal(&chars, end) {
        return None;
    }
    let mut out: String = String::new();
    push_chars(&mut out, &chars, 0, end);
    assert(out@ =~= path);
    Some(out)
}

/// Whether no piece of the path goes up, and the first is not `.`.
fn pieces_are_normal(chars: &Vec<char>, end: usize) -> (r: bool)
    requires
        end <= chars@.len(),
    ensures
        r == {
            let pieces = path_pieces(chars@.take(end as int));
            pieces[0] != seq!['.'] && !pieces.contains(seq!['.', '.'])
        },
{
    let ghost path = chars@.take(end as int);
    let ghost pieces = path_pieces(path);
    let ghost mut k: int = 0;
    let mut start: usize = 0;
    assert(path.skip(0) =~= path);
    assert(pieces.skip(0) =~= pieces);
    loop
        invariant
            start <= end <= chars@.len(),
            path == chars@.take(end as int),
            pieces == path_pieces(path),
            0 <= k < pieces.len(),
            start == 0 <==> k == 0,
            pieces.skip(k) == path_pieces(path.skip(start as int)),
            k > 0 ==> pieces[0] != seq!['.'],
            forall|j: int| 0 <= j < k ==> #[trigger] pieces[j] != seq!['.', '.'],
        decreases end - start,
    {
        let mut stop: usize = start;
        while stop < end && chars[stop] != '/'
            invariant
                start <= stop <= end <= chars@.len(),
                path == chars@.take(end as int),
                forall|j: int| start <= j < stop ==> path[j] != '/',
            decreases end - stop,
        {
            stop += 1;
        }
        let ghost rest = path.skip(start as int);
        let ghost piece = path.subrange(start as int, stop as int);
        proof {
            lemma_first_of_skip(path, '/', start as nat, stop as nat);
            if stop < end {
                assert(rest.take(stop - start) =~= piece);
            } else {
                assert(rest =~= piece);
            }
            assert(pieces.skip(k)[0] == piece);
            assert(pieces[k] == piece);
        }
        if start == 0 && stop == 1 && chars[0] == '.' {
            assert(piece =~= seq!['.']);
            return false;
        }
        if stop - start == 2 && chars[start] == '.' && chars[start + 1] == '.' {
            assert(piece =~= seq!['.', '.']);
            assert(pieces.contains(piece));
            return false;
        }
        proof {
            assert(start == 0 && piece =~= seq!['.'] ==> piece.len() == 1 && path[0] == '.');
            assert(piece =~= seq!['.', '.'] ==> piece.len() == 2 && piece[0] == '.' && piece[1]
                == '.');
            assert(piece.len() == 2 ==> piece[0] == path[start as int] && piece[1] == path[start
                + 1]);
        }
        if stop == end {
            proof {
                assert(pieces.skip(k).len() == 1);
                assert(k == pieces.len() - 1);
            }
            return true;
        }
        proof {
            assert(rest.skip(stop - start + 1) =~= path.skip(stop + 1));
            assert(pieces.skip(k + 1) =~= pieces.skip(k).skip(1));
            assert(pieces.skip(k).skip(1) =~= path_pieces(path.skip(stop + 1)));
            k = k + 1;
        }
        start = stop + 1;
    }
}

/// How a path argument is matched against each walked commit.
#[derive(Debug)]
pub enum PathMatcher {
    /// A plain path: a commit touches it if the tree entry there is another one than in the
    /// commit's first parent.
    Literal(String),
    /// A glob or magic pathspec, held against the changed paths.
    Spec(PathspecSearch),
}

impl PathMatcher {
    /// The matcher for the path argument; a pathspec only where it is not a plain path.
    pub fn from_filter(filter: &PathFilter) -> (r: Result<PathMatcher, String>)
        ensures
            match r {
                Ok(PathMatcher::Literal(p)) => is_literal_path(trim_slashes(filter.raw@)) && p@
                    == trim_slashes(filter.raw@),
                Ok(PathMatcher::Spec(s)) => {
                    &&& !is_literal_path(trim_slashes(filter.raw@))
                    &&& pathspec_error(filter.raw@) is None
                    &&& s.spec@ == filter.raw@
                },
                Err(e) => {
                    &&& !is_literal_path(trim_slashes(filter.raw@))
                    &&& pathspec_error(filter.raw@) == Some(e@)
                },
            },
    {
        match literal_path(filter.as_str()) {
            Some(path) => Ok(PathMatcher::Literal(path)),
            None => match build_pathspec_search(filter) {
                Ok(s) => Ok(PathMatcher::Spec(s)),
                Err(e) => Err(e),
            },
        }
    }
}

/// Whether a commit touches a plain path, given the entry there in the commit's tree and in
/// its first parent's: one side only, or two different entries.
pub fn literal_commit_touches(here: Option<ObjectId>, parent: Option<ObjectId>) -> (r: bool)
    ensures
        r == (here != parent),
{
    match (here, parent) {
        (Some(a), Some(b)) => a != b,
        (None, None) => false,
        _ => true,
    }
}

/// Whether a commit with the tree diff `records` touches a pathspec.
pub fn commit_touches_pathspec(records: &Vec<ChangeRecord>, search: &PathspecSearch) -> (r: bool)
    ensures
        r == exists|i: int|
            0 <= i < records@.len() && pathspec_covers(search.spec@, #[trigger] records@[i].path@),
{
    let mut i: usize = 0;
    while i < records.len()
        invariant
            i <= records@.len(),
            forall|j: int|
                0 <= j < i ==> !pathspec_covers(search.spec@, #[trigger] records@[j].path@),
        decreases records@.len() - i,
    {
        if search.matches(records[i].path.as_slice()) {
            return true;
        }
        i += 1;
    }
    false
}

/// Those of `records` that the pathspec selects.
pub open spec fn in_scope(spec: Seq<char>, records: Seq<ChangeModel>) -> Seq<ChangeModel>
    decreases records.len(),
{
    if records.len() == 0 {
        Seq::empty()
    } else if pathspec_covers(spec, records.last().path) {
        in_scope(spec, records.drop_last()).push(records.last())
    } else {
        in_scope(spec, records.drop_last())
    }
}

/// How many of `records` are files.
pub open spec fn blob_count(records: Seq<ChangeModel>) -> nat
    decreases records.len(),
{
    if records.len() == 0 {
        0
    } else {
        blob_count(records.drop_last()) + if records.last().is_blob {
            1nat
        } else {
            0nat
        }
    }
}

/// Keeps the records that the pathspec selects, and counts the files among the others.
pub fn scope_records(records: &Vec<ChangeRecord>, search: &PathspecSearch) -> (r: (
    Vec<ChangeRecord>,
    usize,
))
    ensures
        r.0.deep_view() == in_scope(search.spec@, records.deep_view()),
        r.1 == blob_count(records.deep_view()) - blob_count(
            in_scope(search.spec@, records.deep_view()),
        ),
{
    let mut kept: Vec<ChangeRecord> = Vec::new();
    let mut hidden: usize = 0;
    let ghost all = records.deep_view();
    let mut i: usize = 0;
    assert(all.take(0) =~= Seq::empty());
    assert(kept.deep_view() =~= Seq::empty());
    while i < records.len()
        invariant
            i <= records@.len(),
            all == records.deep_view(),
            kept.deep_view() == in_scope(search.spec@, all.take(i as int)),
            hidden + blob_count(kept.deep_view()) == blob_count(all.take(i as int)),
            hidden <= i,
        decreases records@.len() - i,
    {
        proof {
            assert(all.take(i + 1).drop_last() =~= all.take(i as int));
        }
        if search.matches(records[i].path.as_slice()) {
            let ghost before = kept.deep_view();
            kept.push(records[i].clone());
            assert(kept.deep_view() =~= before.push(all[i as int]));
            assert(before.push(all[i as int]).drop_last() =~= before);
        } else if records[i].is_blob {
            hidden += 1;
        }
        i += 1;
    }
    assert(all.take(i as int) =~= all);
    (kept, hidden)
}

/// Each character of `s` in lower case.
pub open spec fn lower_chars(s: Seq<char>) -> Seq<char>
    decreases s.len(),
{
    if s.len() == 0 {
        Seq::empty()
    } else {
        lower_chars(s.drop_last()) + lower_char(s.last())
    }
}

/// The names of `refs` in lower case, joined by spaces.
pub open spec fn refs_lower_text(refs: Seq<RefLabelModel>) -> Seq<char>
    decreases refs.len(),
{
    if refs.len() == 0 {
        Seq::empty()
    } else {
        let rest = refs_lower_text(refs.drop_last());
        (if rest.len() > 0 {
            rest.push(' ')
        } else {
            rest
        }) + lower_chars(refs.last().name)
    }
}

/// The search text of a commit's labels.
pub fn refs_lower_from_refs(refs: &Vec<RefLabel>) -> (r: String)
    ensures
        r@ == refs_lower_text(refs.deep_view()),
{
    let mut out: String = String::new();
    let ghost all = refs.deep_view();
    let mut i: usize = 0;
    assert(all.take(0) =~= Seq::empty());
    while i < refs.len()
        invariant
            i <= refs@.len(),
            all == refs.deep_view(),
            out@ == refs_lower_text(all.take(i as int)),
        decreases refs@.len() - i,
    {
        proof {
            assert(all.take(i + 1).drop_last() =~= all.take(i as int));
            assert(all.take(i + 1).last() == refs@[i as int]@);
        }
        if !out.as_str().is_empty() {
            out.push(' ');
        }
        let ghost start = out@;
        let name: Vec<char> = chars_of(refs[i].name.as_str());
        let mut k: usize = 0;
        assert(name@.take(0) =~= Seq::empty());
        while k < name.len()
            invariant
                k <= name@.len(),
                out@ == start + lower_chars(name@.take(k as int)),
            decreases name@.len() - k,
        {
            let low: String = char_lower(name[k]);
            out.append(low.as_str());
            proof {
                assert(name@.take(k + 1).drop_last() =~= name@.take(k as int));
                assert(out@ =~= start + lower_chars(name@.take(k + 1)));
            }
            k += 1;
        }
        assert(name@.take(k as int) =~= name@);
        i += 1;
    }
    assert(all.take(i as int) =~= all);
    out
}

/// The graph prefix of a commit, and the lanes behind it; none where no graph is drawn.
pub open spec fn graph_step(
    lanes: Option<Seq<Option<ObjectId>>>,
    id: ObjectId,
    parents: Seq<ObjectId>,
) -> (Seq<char>, Option<Seq<Option<ObjectId>>>) {
    match lanes {
        Some(l) => (graph_prefix(l, id), Some(next_lanes(l, id, parents))),
        None => (Seq::empty(), None),
    }
}

/// The lanes of an optional graph.
pub open spec fn lanes_of(graph: Option<GraphState>) -> Option<Seq<Option<ObjectId>>> {
    match graph {
        Some(g) => Some(g.lanes@),
        None => None,
    }
}

/// The log record of commit `id`, whose object is `data`; `age` is how long ago it was made.
pub open spec fn commit_record(
    id: ObjectId,
    data: Seq<u8>,
    age: Seq<char>,
    labels: Seq<RefLabelModel>,
    graph: Seq<char>,
) -> CommitModel {
    let author = byte_text(commit_author(data)->Ok_0.name);
    let summary = byte_text(commit_text(data)->Ok_0.summary);
    CommitModel {
        id,
        short_id: id.hex().take(7),
        authored_unix_secs: authored_seconds(data),
        authored_relative: age,
        author,
        summary,
        refs: labels,
        graph,
        search: SearchTextModel {
            author_lower: compact_lower(author),
            summary_lower: lower_text(summary),
            refs_lower: refs_lower_text(labels),
        },
    }
}

pub(crate) fn copy_labels(labels: &Vec<RefLabel>) -> (r: Vec<RefLabel>)
    ensures
        r.deep_view() == labels.deep_view(),
{
    let mut out: Vec<RefLabel> = Vec::with_capacity(labels.len());
    let mut i: usize = 0;
    while i < labels.len()
        invariant
            i <= labels@.len(),
            out@ == labels@.take(i as int),
        decreases labels@.len() - i,
    {
        out.push(labels[i].clone());
        assert(out@ =~= labels@.take(i + 1));
        i += 1;
    }
    assert(labels@.take(i as int) =~= labels@);
    assert(out.deep_view() =~= labels.deep_view());
    out
}

/// The labels that `refs_map` has for commit `id`.
pub fn labels_for(refs_map: &RefsMap, id: ObjectId) -> (r: Vec<RefLabel>)
    requires
        refs_map.wf(),
    ensures
        r.deep_view() == labels_of(refs_map.labels(), id),
{
    match refs_map.get(id) {
        Some(labels) => copy_labels(labels),
        None => {
            let none: Vec<RefLabel> = Vec::new();
            assert(none.deep_view() =~= Seq::empty());
            none
        },
    }
}

/// Makes the log record of commit `id`, whose object is `data`, as it is at `now`. `None` if
/// the object or its author cannot be read; then the graph stays as it is.
pub fn build_commit_info_at(
    now: Clock,
    id: ObjectId,
    parents: &[ObjectId],
    data: &[u8],
    refs_map: &RefsMap,
    graph: &mut Option<GraphState>,
) -> (r: Option<CommitRecord>)
    requires
        now.wf(),
        refs_map.wf(),
    ensures
        r is Some <==> commit_text(data@) is Ok && commit_author(data@) is Ok,
        r is None ==> *final(graph) == *old(graph),
        r matches Some(c) ==> {
            let step = graph_step(lanes_of(*old(graph)), id, parents@);
            &&& lanes_of(*final(graph)) == step.1
            &&& c@ == commit_record(
                id,
                data@,
                age_text(now, authored_seconds(data@)),
                labels_of(refs_map.labels(), id),
                step.0,
            )
        },
{
    let text: CommitText = match decode_commit(data) {
        Ok(t) => t,
        Err(_) => {
            return None;
        },
    };
    let who: Signature = match decode_author(data) {
        Ok(s) => s,
        Err(_) => {
            return None;
        },
    };
    let short_id: String = id.to_short_hex();
    let author: String = byte_string(who.name.as_slice());
    let author_lower: String = compact_lowercase(author.as_str());
    let authored_unix_secs: i64 = match who.seconds {
        Ok(s) => s,
        Err(_) => 0,
    };
    let authored_relative: String = relative_time_at(now, authored_unix_secs);
    let summary: String = byte_string(text.summary.as_slice());
    let summary_lower: String = summary.as_str().to_lowercase();
    let refs: Vec<RefLabel> = labels_for(refs_map, id);
    let refs_lower: String = refs_lower_from_refs(&refs);
    let mut prefix: String = String::new();
    let ghost lanes = lanes_of(*graph);
    match graph.take() {
        Some(mut g) => {
            prefix = g.next(id, parents);
            *graph = Some(g);
        },
        None => {},
    }
    let ghost step = graph_step(lanes, id, parents@);
    assert(prefix@ =~= step.0);
    let record = CommitRecord {
        id,
        short_id,
        authored_unix_secs,
        authored_relative,
        author,
        summary,
        refs,
        graph: prefix,
        search: CommitSearchText { author_lower, summary_lower, refs_lower },
    };
    assert(record@ =~= commit_record(
        id,
        data@,
        age_text(now, authored_seconds(data@)),
        labels_of(refs_map.labels(), id),
        step.0,
    ));
    Some(record)
}

/// Makes the log record of commit `id`, whose object is `data`. `None` if the object or its
/// author cannot be read; then the graph stays as it is.
pub fn build_commit_info(
    id: ObjectId,
    parents: &[ObjectId],
    data: &[u8],
    refs_map: &RefsMap,
    graph: &mut Option<GraphState>,
) -> (r: Option<CommitRecord>)
    requires
        refs_map.wf(),
    ensures
        r is Some <==> commit_text(data@) is Ok && commit_author(data@) is Ok,
        r is None ==> *final(graph) == *old(graph),
        r matches Some(c) ==> {
            let step = graph_step(lanes_of(*old(graph)), id, parents@);
            &&& lanes_of(*final(graph)) == step.1
            &&& exists|now: Clock|
                now.wf() && c@ == commit_record(
                    id,
                    data@,
                    #[trigger] age_text(now, authored_seconds(data@)),
                    labels_of(refs_map.labels(), id),
                    step.0,
                )
        },
{
    let now: Clock = read_clock();
    build_commit_info_at(now, id, parents, data, refs_map, graph)
}

/// The history walk, but for the iterator over its commits.
#[derive(Debug)]
pub struct Walker {
    pub refs_map: Arc<RefsMap>,
    /// `None` where no graph is drawn.
    pub graph_state: Option<GraphState>,
    pub done: bool,
    pub path_matcher: Option<PathMatcher>,
    pub generation: u64,
}

/// One call's share of the walk: it examines at most `target` commits, and gathers the
/// records of those that are shown.
#[derive(Debug)]
pub struct Sweep {
    pub target: usize,
    pub scanned: usize,
    /// The request queue was looked at since the last commit.
    pub looked: bool,
    /// A request is waiting.
    pub stopped: bool,
    pub batch: Vec<CommitRecord>,
}

/// What a sweep does next.
#[derive(Clone, Copy, PartialEq, Eq, Structural, Debug)]
pub enum SweepStep {
    /// Look whether a request is waiting.
    Poll,
    /// Examine the next commit.
    Next,
    Finish,
}

/// What the examination of one commit found.
#[derive(Debug)]
pub enum WalkFound {
    /// The walk has no further commit.
    End,
    /// The next commit could not be read.
    Unreadable,
    /// The commit does not touch the path filter.
    Untouched,
    /// The commit is shown; `data` is its object, if that could be read.
    Commit { id: ObjectId, parents: Vec<ObjectId>, data: Option<Vec<u8>> },
}

/// How many commits a sweep over `requested` commits examines at most.
pub open spec fn window(requested: usize) -> usize {
    if requested == 0 {
        1
    } else {
        requested
    }
}

impl Sweep {
    pub open spec fn wf(self) -> bool {
        &&& self.scanned <= self.target
        &&& self.batch@.len() <= self.scanned
    }

    /// The sweep over `requested` commits has just been started.
    pub open spec fn is_new(self, requested: usize) -> bool {
        &&& self.target == window(requested)
        &&& self.scanned == 0
        &&& !self.looked
        &&& !self.stopped
        &&& self.batch@.len() == 0
    }

    /// Notes whether a request is waiting. One stops the sweep; else it goes on with the next
    /// commit.
    pub fn polled(&mut self, queued: bool)
        requires
            old(self).wf(),
        ensures
            final(self).wf(),
            *final(self) == (Sweep {
                stopped: old(self).stopped || queued,
                looked: true,
                ..*old(self)
            }),
    {
        if queued {
            self.stopped = true;
        }
        self.looked = true;
    }
}

/// What a walker and a sweep do next.
pub open spec fn sweep_step(done: bool, sweep: Sweep) -> SweepStep {
    if done || sweep.stopped || sweep.scanned >= sweep.target {
        SweepStep::Finish
    } else if !sweep.looked {
        SweepStep::Poll
    } else {
        SweepStep::Next
    }
}

impl Walker {
    pub open spec fn wf(self) -> bool {
        self.refs_map.wf()
    }

    /// The labels by commit.
    pub open spec fn labels(self) -> Map<ObjectId, Seq<RefLabelModel>> {
        self.refs_map.labels()
    }

    /// A walk under `generation`. Without a commit to start from it has ended. An error if
    /// the path filter is no valid pathspec.
    pub fn new(
        path_filter: Option<&PathFilter>,
        has_start: bool,
        generation: u64,
        graph_enabled: bool,
        refs_map: Arc<RefsMap>,
    ) -> (r: Result<Walker, String>)
        requires
            refs_map.wf(),
        ensures
            match r {
                Ok(w) => {
                    &&& w.wf()
                    &&& w.refs_map == refs_map
                    &&& w.done == !has_start
                    &&& w.generation == generation
                    &&& lanes_of(w.graph_state) == (if graph_enabled {
                        Some(Seq::<Option<ObjectId>>::empty())
                    } else {
                        None
                    })
                    &&& w.path_matcher is Some <==> path_filter is Some
                    &&& w.path_matcher matches Some(PathMatcher::Literal(p)) ==> is_literal_path(
                        trim_slashes(path_filter->0.raw@),
                    ) && p@ == trim_slashes(path_filter->0.raw@)
                    &&& w.path_matcher matches Some(PathMatcher::Spec(s)) ==> !is_literal_path(
                        trim_slashes(path_filter->0.raw@),
                    ) && s.spec@ == path_filter->0.raw@ && pathspec_error(s.spec@) is None
                },
                Err(e) => {
                    &&& path_filter is Some
                    &&& !is_literal_path(trim_slashes(path_filter->0.raw@))
                    &&& pathspec_error(path_filter->0.raw@) == Some(e@)
                },
            },
    {
        let path_matcher: Option<PathMatcher> = match path_filter {
            Some(filter) => match PathMatcher::from_filter(filter) {
                Ok(m) => Some(m),
                Err(e) => {
                    return Err(e);
                },
            },
            None => None,
        };
        let graph_state: Option<GraphState> = if graph_enabled {
            Some(GraphState::new())
        } else {
            None
        };
        Ok(Walker { refs_map, graph_state, done: !has_start, path_matcher, generation })
    }

    /// Starts a sweep over `requested` commits, at least one.
    pub fn load_more(&self, requested: usize) -> (r: Sweep)
        ensures
            r.wf(),
            r.is_new(requested),
    {
        let target: usize = if requested == 0 {
            1
        } else {
            requested
        };
        Sweep { target, scanned: 0, looked: false, stopped: false, batch: Vec::new() }
    }

    /// What the sweep does next.
    pub fn next_step(&self, sweep: &Sweep) -> (r: SweepStep)
        ensures
            r == sweep_step(self.done, *sweep),
    {
        if self.done || sweep.stopped || sweep.scanned >= sweep.target {
            SweepStep::Finish
        } else if !sweep.looked {
            SweepStep::Poll
        } else {
            SweepStep::Next
        }
    }

    /// Takes up what the examination of one commit found.
    pub fn advance(&mut self, sweep: &mut Sweep, found: WalkFound)
        requires
            old(self).wf(),
            old(sweep).wf(),
            sweep_step(old(self).done, *old(sweep)) == SweepStep::Next,
        ensures
            final(self).wf(),
            final(sweep).wf(),
            taken_up(*old(self), *old(sweep), found, *final(self), *final(sweep)),
    {
        let ghost before = sweep.batch.deep_view();
        let ghost lanes = lanes_of(self.graph_state);
        let ghost labels = self.labels();
        sweep.looked = false;
        sweep.scanned = sweep.scanned + 1;
        let ghost whole = found;
        let ghost mut now: Clock = Clock { secs: 0, nanos: 0 };
        match found {
            WalkFound::End => {
                self.done = true;
            },
            WalkFound::Unreadable => {},
            WalkFound::Untouched => {},
            WalkFound::Commit { id, parents, data } => {
                if let Some(bytes) = data {
                    let record: Option<CommitRecord> = build_commit_info(
                        id,
                        parents.as_slice(),
                        bytes.as_slice(),
                        &self.refs_map,
                        &mut self.graph_state,
                    );
                    if let Some(c) = record {
                        let ghost m = c@;
                        sweep.batch.push(c);
                        assert(sweep.batch.deep_view() =~= before.push(m));
                        proof {
                            now = choose|t: Clock|
                                t.wf() && m == commit_record(
                                    id,
                                    bytes@,
                                    #[trigger] age_text(t, authored_seconds(bytes@)),
                                    labels_of(labels, id),
                                    graph_step(lanes, id, parents@).0,
                                );
                        }
                    }
                }
            },
        }
        assert(sweep.batch.deep_view() =~= before + record_at(now, whole, lanes, labels));
    }

    /// Ends a sweep: the messages to send, and how many commits they hold.
    pub fn finish(&self, sweep: Sweep) -> (r: (Vec<HistoryMsg>, usize))
        ensures
            r.1 == sweep.batch@.len(),
            r.0@ == sweep_messages(self.generation, self.done, sweep.batch),
    {
        let emitted: usize = sweep.batch.len();
        let mut out: Vec<HistoryMsg> = Vec::new();
        if emitted > 0 {
            out.push(HistoryMsg::Commits { generation: self.generation, commits: sweep.batch });
        }
        if self.done {
            out.push(HistoryMsg::WalkDone { generation: self.generation });
        }
        assert(out@ =~= sweep_messages(self.generation, self.done, sweep.batch));
        (out, emitted)
    }
}

/// The messages that a sweep sends: its commits, if it has some, and that the walk has ended,
/// if it has.
pub open spec fn sweep_messages(generation: u64, done: bool, batch: Vec<CommitRecord>) -> Seq<
    HistoryMsg,
> {
    (if batch@.len() > 0 {
        seq![HistoryMsg::Commits { generation, commits: batch }]
    } else {
        Seq::empty()
    }) + (if done {
        seq![HistoryMsg::WalkDone { generation }]
    } else {
        Seq::empty()
    })
}

/// Whether the commit that was examined comes into the log: it touches the path filter, and
/// it and its author can be read.
pub open spec fn is_shown(found: WalkFound) -> bool {
    match found {
        WalkFound::Commit { data, .. } => data is Some && commit_text(data->0@) is Ok
            && commit_author(data->0@) is Ok,
        _ => false,
    }
}

/// The lanes of the graph behind the commit that was examined.
pub open spec fn lanes_behind(lanes: Option<Seq<Option<ObjectId>>>, found: WalkFound) -> Option<
    Seq<Option<ObjectId>>,
> {
    match found {
        WalkFound::Commit { id, parents, .. } => if is_shown(found) {
            graph_step(lanes, id, parents@).1
        } else {
            lanes
        },
        _ => lanes,
    }
}

/// The log record of the commit that was examined, if it comes into the log; `now` is when
/// it was examined.
pub open spec fn record_at(
    now: Clock,
    found: WalkFound,
    lanes: Option<Seq<Option<ObjectId>>>,
    labels: Map<ObjectId, Seq<RefLabelModel>>,
) -> Seq<CommitModel> {
    match found {
        WalkFound::Commit { id, parents, data } => if is_shown(found) {
            seq![
                commit_record(
                    id,
                    data->0@,
                    age_text(now, authored_seconds(data->0@)),
                    labels_of(labels, id),
                    graph_step(lanes, id, parents@).0,
                ),
            ]
        } else {
            Seq::empty()
        },
        _ => Seq::empty(),
    }
}

/// From `before` and `sweep`, what was found leads to `after` and `next`.
pub open spec fn taken_up(
    before: Walker,
    sweep: Sweep,
    found: WalkFound,
    after: Walker,
    next: Sweep,
) -> bool {
    let lanes = lanes_of(before.graph_state);
    &&& after == (Walker { done: found is End, graph_state: after.graph_state, ..before })
    &&& next == (Sweep {
        scanned: (sweep.scanned + 1) as usize,
        looked: false,
        batch: next.batch,
        ..sweep
    })
    &&& lanes_of(after.graph_state) == lanes_behind(lanes, found)
    &&& exists|now: Clock|
        (is_shown(found) ==> now.wf()) && next.batch.deep_view() == sweep.batch.deep_view()
            + #[trigger] record_at(now, found, lanes, before.labels())
}

/// A sweep looks at the request queue before every commit that it examines, the first one
/// included: it goes on to a commit only after a look, and after a commit it looks again
/// unless it has come to its end. A waiting request ends it.
pub proof fn law_requests_are_looked_for(
    before: Walker,
    sweep: Sweep,
    found: WalkFound,
    after: Walker,
    next: Sweep,
)
    requires
        taken_up(before, sweep, found, after, next),
    ensures
        forall|done: bool, s: Sweep| #[trigger]
            sweep_step(done, s) == SweepStep::Next ==> s.looked && !s.stopped,
        sweep_step(after.done, next) != SweepStep::Next,
        forall|requested: usize, s: Sweep, done: bool| #[trigger]
            s.is_new(requested) ==> #[trigger] sweep_step(done, s) != SweepStep::Next,
{
}

/// The lanes of the graph behind all commits that were examined.
pub open spec fn lanes_after(
    lanes: Option<Seq<Option<ObjectId>>>,
    found: Seq<WalkFound>,
) -> Option<Seq<Option<ObjectId>>>
    decreases found.len(),
{
    if found.len() == 0 {
        lanes
    } else {
        lanes_behind(lanes_after(lanes, found.drop_last()), found.last())
    }
}

/// The log records of the commits that were examined at `moments`, in order.
pub open spec fn records_at(
    moments: Seq<Clock>,
    found: Seq<WalkFound>,
    lanes: Option<Seq<Option<ObjectId>>>,
    labels: Map<ObjectId, Seq<RefLabelModel>>,
) -> Seq<CommitModel>
    decreases found.len(),
{
    if found.len() == 0 {
        Seq::empty()
    } else {
        records_at(moments.drop_last(), found.drop_last(), lanes, labels) + record_at(
            moments.last(),
            found.last(),
            lanes_after(lanes, found.drop_last()),
            labels,
        )
    }
}

/// `moments` are readings of the clock, where a commit that comes into the log was examined.
pub open spec fn readings_for(found: Seq<WalkFound>, moments: Seq<Clock>) -> bool {
    forall|i: int| 0 <= i < found.len() && is_shown(found[i]) ==> (#[trigger] moments[i]).wf()
}

/// The ids of the commits that come into the log, in order.
pub open spec fn shown_ids(found: Seq<WalkFound>) -> Seq<ObjectId>
    decreases found.len(),
{
    if found.len() == 0 {
        Seq::empty()
    } else {
        shown_ids(found.drop_last()) + match found.last() {
            WalkFound::Commit { id, .. } => if is_shown(found.last()) {
                seq![id]
            } else {
                Seq::empty()
            },
            _ => Seq::empty(),
        }
    }
}

/// The ids of log records.
pub open spec fn ids_of(records: Seq<CommitModel>) -> Seq<ObjectId> {
    records.map_values(|c: CommitModel| c.id)
}

/// Step `i` of a sweep: it looks at the queue, finds no request, and takes up what the
/// examination of the next commit found.
pub open spec fn is_step(
    walkers: Seq<Walker>,
    sweeps: Seq<Sweep>,
    found: Seq<WalkFound>,
    i: int,
) -> bool {
    &&& sweep_step(walkers[i].done, sweeps[i]) == SweepStep::Poll
    &&& taken_up(
        walkers[i],
        Sweep { looked: true, ..sweeps[i] },
        found[i],
        walkers[i + 1],
        sweeps[i + 1],
    )
}

/// A whole sweep over `requested` commits. `found` is what it examined, in the order of the
/// walk; `walkers` and `sweeps` are the states it went through. It comes to its end by itself,
/// or, if `preempted`, a look at the queue finds a request.
pub open spec fn is_sweep(
    requested: usize,
    walkers: Seq<Walker>,
    sweeps: Seq<Sweep>,
    found: Seq<WalkFound>,
    preempted: bool,
) -> bool {
    &&& walkers.len() == found.len() + 1
    &&& sweeps.len() == found.len() + 1
    &&& sweeps[0].is_new(requested)
    &&& forall|i: int| 0 <= i < found.len() ==> #[trigger] is_step(walkers, sweeps, found, i)
    &&& sweep_step(walkers.last().done, sweeps.last()) == (if preempted {
        SweepStep::Poll
    } else {
        SweepStep::Finish
    })
}

/// What holds after `k` steps of a sweep that began with `walker`.
spec fn after_steps(
    requested: usize,
    walker: Walker,
    found: Seq<WalkFound>,
    k: int,
    now_walker: Walker,
    now_sweep: Sweep,
) -> bool {
    let lanes = lanes_of(walker.graph_state);
    &&& now_sweep.target == window(requested)
    &&& now_sweep.scanned == k <= window(requested)
    &&& !now_sweep.looked
    &&& !now_sweep.stopped
    &&& now_walker.done == (if k > 0 {
        found[k - 1] is End
    } else {
        walker.done
    })
    &&& now_walker == (Walker {
        done: now_walker.done,
        graph_state: now_walker.graph_state,
        ..walker
    })
    &&& lanes_of(now_walker.graph_state) == lanes_after(lanes, found.take(k))
    &&& exists|moments: Seq<Clock>|
        moments.len() == k && #[trigger] readings_for(found.take(k), moments)
            && now_sweep.batch.deep_view() == records_at(
            moments,
            found.take(k),
            lanes,
            walker.labels(),
        )
    &&& ids_of(now_sweep.batch.deep_view()) == shown_ids(found.take(k))
}

proof fn lemma_after_steps(
    requested: usize,
    walkers: Seq<Walker>,
    sweeps: Seq<Sweep>,
    found: Seq<WalkFound>,
    preempted: bool,
    k: int,
)
    requires
        is_sweep(requested, walkers, sweeps, found, preempted),
        0 <= k <= found.len(),
    ensures
        after_steps(requested, walkers[0], found, k, walkers[k], sweeps[k]),
    decreases k,
{
    let lanes = lanes_of(walkers[0].graph_state);
    let labels = walkers[0].labels();
    if k == 0 {
        let none = Seq::<Clock>::empty();
        assert(found.take(0) =~= Seq::empty());
        assert(readings_for(found.take(0), none));
        assert(sweeps[0].batch.deep_view() =~= records_at(none, found.take(0), lanes, labels));
        assert(ids_of(sweeps[0].batch.deep_view()) =~= shown_ids(found.take(0)));
    } else {
        let i = k - 1;
        lemma_after_steps(requested, walkers, sweeps, found, preempted, i);
        assert(is_step(walkers, sweeps, found, i));
        let before = sweeps[i].batch.deep_view();
        let after = sweeps[k].batch.deep_view();
        let now_lanes = lanes_of(walkers[i].graph_state);
        assert(found.take(k).drop_last() =~= found.take(i));
        assert(found.take(k).last() == found[i]);
        let moments = choose|moments: Seq<Clock>|
            moments.len() == i && #[trigger] readings_for(found.take(i), moments)
                && before == records_at(moments, found.take(i), lanes, labels);
        let now = choose|now: Clock|
            (is_shown(found[i]) ==> now.wf()) && after == before + #[trigger] record_at(
                now,
                found[i],
                now_lanes,
                labels,
            );
        let all = moments.push(now);
        assert(all.drop_last() =~= moments);
        assert forall|j: int| 0 <= j < k && is_shown(found.take(k)[j]) implies (
        #[trigger] all[j]).wf() by {
            if j < i {
                assert(found.take(i)[j] == found[j]);
                assert(moments[j] == all[j]);
            }
        }
        assert(readings_for(found.take(k), all));
        assert(after == records_at(all, found.take(k), lanes, labels));
        let one = record_at(now, found[i], now_lanes, labels);
        assert(ids_of(after) =~= ids_of(before) + ids_of(one));
        assert(ids_of(after) =~= shown_ids(found.take(k)));
    }
}

/// A sweep over `requested` commits examines no more commits than that, or one if none are
/// requested, and just as many unless the walk ends or a request is waiting. It sends those of
/// them that come into the log in the order of the walk, each once, in one message; a message
/// that the walk has ended follows if and only if it has.
pub proof fn law_a_sweep_sends_what_it_examines(
    requested: usize,
    walkers: Seq<Walker>,
    sweeps: Seq<Sweep>,
    found: Seq<WalkFound>,
    preempted: bool,
)
    requires
        is_sweep(requested, walkers, sweeps, found, preempted),
    ensures
        found.len() <= window(requested),
        !walkers.last().done && !preempted ==> found.len() == window(requested),
        found.len() > 0 ==> (walkers.last().done <==> found.last() is End),
        forall|i: int| 0 <= i < found.len() - 1 ==> !(#[trigger] found[i] is End),
        ids_of(sweeps.last().batch.deep_view()) == shown_ids(found),
        exists|moments: Seq<Clock>|
            moments.len() == found.len() && #[trigger] readings_for(found, moments)
                && sweeps.last().batch.deep_view() == records_at(
                moments,
                found,
                lanes_of(walkers[0].graph_state),
                walkers[0].labels(),
            ),
        lanes_of(walkers.last().graph_state) == lanes_after(
            lanes_of(walkers[0].graph_state),
            found,
        ),
        ({
            let generation = walkers[0].generation;
            let batch = sweeps.last().batch;
            let done = walkers.last().done;
            let messages = sweep_messages(walkers.last().generation, done, batch);
            &&& batch@.len() > 0 ==> messages[0] == (HistoryMsg::Commits {
                generation,
                commits: batch,
            })
            &&& done ==> messages.last() == (HistoryMsg::WalkDone { generation })
            &&& messages.len() == (if batch@.len() > 0 {
                1int
            } else {
                0int
            }) + (if done {
                1int
            } else {
                0int
            })
        }),
{
    let n = found.len() as int;
    lemma_after_steps(requested, walkers, sweeps, found, preempted, n);
    assert(found.take(n) =~= found);
    assert forall|i: int| 0 <= i < n - 1 implies !(#[trigger] found[i] is End) by {
        lemma_after_steps(requested, walkers, sweeps, found, preempted, i + 1);
        assert(is_step(walkers, sweeps, found, i + 1));
    }
}

/// Sweep after sweep, no commit of a walk is lost and none comes twice: what two sweeps
/// examine, one behind the other, gives the records that one sweep over all of it gives, and
/// leaves the graph as it does.
pub proof fn law_sweeps_join(
    moments: Seq<Clock>,
    found: Seq<WalkFound>,
    later: Seq<Clock>,
    rest: Seq<WalkFound>,
    lanes: Option<Seq<Option<ObjectId>>>,
    labels: Map<ObjectId, Seq<RefLabelModel>>,
)
    requires
        moments.len() == found.len(),
        later.len() == rest.len(),
    ensures
        records_at(moments + later, found + rest, lanes, labels) == records_at(
            moments,
            found,
            lanes,
            labels,
        ) + records_at(later, rest, lanes_after(lanes, found), labels),
        lanes_after(lanes, found + rest) == lanes_after(lanes_after(lanes, found), rest),
        shown_ids(found + rest) == shown_ids(found) + shown_ids(rest),
    decreases rest.len(),
{
    if rest.len() == 0 {
        assert(found + rest =~= found);
        assert(moments + later =~= moments);
        assert(records_at(later, rest, lanes_after(lanes, found), labels) =~= Seq::empty());
        assert(records_at(moments, found, lanes, labels) + records_at(
            later,
            rest,
            lanes_after(lanes, found),
            labels,
        ) =~= records_at(moments, found, lanes, labels));
        assert(shown_ids(found) + shown_ids(rest) =~= shown_ids(found));
    } else {
        law_sweeps_join(moments, found, later.drop_last(), rest.drop_last(), lanes, labels);
        assert((found + rest).drop_last() =~= found + rest.drop_last());
        assert((moments + later).drop_last() =~= moments + later.drop_last());
        assert(records_at(moments + later, found + rest, lanes, labels) =~= records_at(
            moments,
            found,
            lanes,
            labels,
        ) + records_at(later, rest, lanes_after(lanes, found), labels));
        assert(shown_ids(found + rest) =~= shown_ids(found) + shown_ids(rest));
    }
}

/// The records in scope are those whose path the filter covers, in order.
pub proof fn law_the_filter_keeps_what_it_covers(spec: Seq<char>, records: Seq<ChangeModel>)
    ensures
        in_scope(spec, records) == records.filter(
            |r: ChangeModel| pathspec_match(spec, r.path) == Some(false),
        ),
    decreases records.len(),
{
    reveal(Seq::filter);
    if records.len() > 0 {
        law_the_filter_keeps_what_it_covers(spec, records.drop_last());
    } else {
        assert(in_scope(spec, records) =~= records);
    }
}

/// The files among the records are counted, and nothing else.
pub proof fn law_files_are_counted(records: Seq<ChangeModel>)
    ensures
        blob_count(records) == records.filter(|r: ChangeModel| r.is_blob).len(),
    decreases records.len(),
{
    reveal(Seq::filter);
    if records.len() > 0 {
        law_files_are_counted(records.drop_last());
    }
}

/// Slashes at the end of a path are cut off, all of them and nothing else.
pub proof fn law_slashes_at_the_end_are_cut_off(s: Seq<char>)
    ensures
        ({
            let kept = trim_slashes(s).len() as int;
            &&& kept <= s.len()
            &&& trim_slashes(s) == s.take(kept)
            &&& forall|i: int| kept <= i < s.len() ==> #[trigger] s[i] == '/'
            &&& kept > 0 ==> s[kept - 1] != '/'
        }),
    decreases s.len(),
{
    let kept = trim_slashes(s).len() as int;
    if s.len() > 0 && s.last() == '/' {
        let less = s.drop_last();
        law_slashes_at_the_end_are_cut_off(less);
        assert(s.take(kept) =~= less.take(kept));
        assert forall|i: int| kept <= i < s.len() implies #[trigger] s[i] == '/' by {
            if i < less.len() {
                assert(less[i] == s[i]);
            }
        }
    } else {
        assert(s.take(kept) =~= s);
    }
}

/// A path with a wildcard, with a leading mark or slash, or with a step upwards is no plain
/// path; neither is an empty one.
pub proof fn law_a_plain_path_has_no_magic(s: Seq<char>, a: Seq<char>, b: Seq<char>)
    requires
        a.len() == 0 || a.last() == '/',
        b.len() == 0 || b[0] == '/',
    ensures
        s.contains('*') || s.contains('?') || s.contains('[') || s.contains(']')
            ==> !is_literal_path(s),
        s.len() > 0 && (s[0] == ':' || s[0] == '!' || s[0] == '/') ==> !is_literal_path(s),
        s.len() == 0 ==> !is_literal_path(s),
        !is_literal_path(a + seq!['.', '.'] + b),
        !is_literal_path(seq!['.'] + b),
{
    lemma_steps_upwards(a, b);
    let here = seq!['.'] + b;
    lemma_first_from(here, '/', 0);
    if b.len() > 0 {
        assert(here[1] == '/');
        assert(first_of(here, '/') == 1);
        assert(here.take(1) =~= seq!['.']);
    } else {
        assert(here =~= seq!['.']);
        assert(first_of(here, '/') == 1);
    }
    assert(path_pieces(here)[0] == seq!['.']);
}

proof fn lemma_steps_upwards(a: Seq<char>, b: Seq<char>)
    requires
        a.len() == 0 || a.last() == '/',
        b.len() == 0 || b[0] == '/',
    ensures
        path_pieces(a + seq!['.', '.'] + b).contains(seq!['.', '.']),
    decreases a.len(),
{
    let up = seq!['.', '.'];
    let s = a + up + b;
    let pieces = path_pieces(s);
    lemma_first_from(s, '/', 0);
    let at = first_of(s, '/') as int;
    if a.len() == 0 {
        assert(s[0] == '.' && s[1] == '.');
        if b.len() > 0 {
            assert(s[2] == '/');
            assert(at == 2);
            assert(s.take(2) =~= up);
        } else {
            assert(s =~= up);
        }
        assert(pieces[0] == up);
    } else {
        assert(s[a.len() - 1] == '/');
        assert(at < a.len());
        let rest = a.skip(at + 1);
        assert(s.skip(at + 1) =~= rest + up + b);
        lemma_steps_upwards(rest, b);
        let tail = path_pieces(rest + up + b);
        let k = choose|k: int| 0 <= k < tail.len() && tail[k] == up;
        assert(pieces[k + 1] == up);
    }
}

/// A name without any of that is a plain path.
pub proof fn law_a_plain_name_is_a_plain_path(s: Seq<char>)
    requires
        s.len() > 0,
        s[0] != ':' && s[0] != '!',
        forall|i: int|
            0 <= i < s.len() ==> #[trigger] s[i] != '/' && s[i] != '*' && s[i] != '?' && s[i] != '['
                && s[i] != ']',
        s != seq!['.'],
        s != seq!['.', '.'],
    ensures
        is_literal_path(s),
{
    lemma_first_from(s, '/', 0);
    assert(path_pieces(s) == seq![s]);
    assert forall|i: int| 0 <= i < path_pieces(s).len() implies path_pieces(s)[i] != seq![
        '.',
        '.',
    ] by {}
}

/// The text in which labels are searched holds the name of each label in lower case, with a
/// blank in front of each but the first of them.
pub proof fn law_labels_are_searched_in_lower_case(refs: Seq<RefLabelModel>, last: RefLabelModel)
    ensures
        refs_lower_text(seq![last]) == lower_chars(last.name),
        refs_lower_text(refs).len() > 0 ==> refs_lower_text(refs.push(last)) == refs_lower_text(
            refs,
        ) + seq![' '] + lower_chars(last.name),
        refs_lower_text(Seq::empty()).len() == 0,
{
    assert(refs.push(last).drop_last() =~= refs);
    assert(seq![last].drop_last() =~= Seq::empty());
    assert(refs_lower_text(Seq::<RefLabelModel>::empty()) =~= Seq::empty());
    assert(refs_lower_text(seq![last]) =~= lower_chars(last.name));
    if refs_lower_text(refs).len() > 0 {
        assert(refs_lower_text(refs.push(last)) =~= refs_lower_text(refs) + seq![' ']
            + lower_chars(last.name));
    }
}

/// Lower case is taken character by character.
pub proof fn law_lower_case_is_taken_by_character(a: Seq<char>, c: char, b: Seq<char>)
    ensures
        lower_chars(a + seq![c] + b) == lower_chars(a) + lower_char(c) + lower_chars(b),
    decreases b.len(),
{
    let all = a + seq![c] + b;
    if b.len() == 0 {
        assert(all.drop_last() =~= a);
        assert(lower_chars(all) =~= lower_chars(a) + lower_char(c) + lower_chars(b));
    } else {
        let less = b.drop_last();
        assert(all.drop_last() =~= a + seq![c] + less);
        law_lower_case_is_taken_by_character(a, c, less);
        assert(lower_chars(all) =~= lower_chars(a) + lower_char(c) + lower_chars(b));
    }
}

/// A row of the log is about its own commit: the whole id and its first seven digits, the
/// author and the first line of the message, which are also what is searched, and the labels
/// and the graph that it is given.
pub proof fn law_a_record_is_about_its_commit(
    now: Clock,
    id: ObjectId,
    data: Seq<u8>,
    labels: Seq<RefLabelModel>,
    graph: Seq<char>,
)
    requires
        commit_text(data) is Ok,
        commit_author(data) is Ok,
    ensures
        ({
            let age = age_text(now, authored_seconds(data));
            let r = commit_record(id, data, age, labels, graph);
            &&& r.id == id
            &&& r.short_id == id.hex().subrange(0, 7)
            &&& r.author == byte_text(commit_author(data)->Ok_0.name)
            &&& r.summary == byte_text(commit_text(data)->Ok_0.summary)
            &&& r.refs == labels
            &&& r.graph == graph
            &&& r.authored_relative == age
            &&& commit_author(data)->Ok_0.seconds matches Ok(s) ==> r.authored_unix_secs == s
                && r.authored_relative == age_text(now, s)
            &&& r.search.author_lower == compact_lower(r.author)
            &&& r.search.summary_lower == lower_text(r.summary)
            &&& r.search.refs_lower == refs_lower_text(r.refs)
        }),
{
    assert(id.hex().take(7) =~= id.hex().subrange(0, 7));
}

/// A commit that the walk finds becomes one row with its own labels and the graph drawn from
/// the lanes in front of it, if it can be read; and no row otherwise.
pub proof fn law_a_found_commit_becomes_one_row(
    now: Clock,
    found: WalkFound,
    lanes: Seq<Option<ObjectId>>,
    labels: Map<ObjectId, Seq<RefLabelModel>>,
)
    ensures
        found !is Commit ==> record_at(now, found, Some(lanes), labels).len() == 0 && lanes_behind(
            Some(lanes),
            found,
        ) == Some(lanes),
        found matches WalkFound::Commit { id, parents, data } ==> {
            let rows = record_at(now, found, Some(lanes), labels);
            let readable = data is Some && commit_text(data->0@) is Ok && commit_author(data->0@)
                is Ok;
            &&& !readable ==> rows.len() == 0 && lanes_behind(Some(lanes), found) == Some(lanes)
            &&& readable ==> {
                &&& rows.len() == 1
                &&& rows[0].id == id
                &&& labels.contains_key(id) ==> rows[0].refs == labels[id]
                &&& !labels.contains_key(id) ==> rows[0].refs.len() == 0
                &&& rows[0].graph == graph_prefix(lanes, id)
                &&& lanes_behind(Some(lanes), found) == Some(next_lanes(lanes, id, parents@))
            }
            &&& record_at(now, found, None, labels).len() == rows.len()
            &&& readable ==> record_at(now, found, None, labels)[0].graph.len() == 0
        },
{
}

/// A sweep takes as many commits as asked for, and at least one.
pub proof fn law_a_sweep_is_never_empty(requested: usize)
    ensures
        window(requested) >= 1,
        requested >= 1 ==> window(requested) == requested,
{
}

/// A sweep sends the rows it found in one message, if it found any, and then says that the
/// walk is done, if it is.
pub proof fn law_a_sweep_sends_its_rows_first(
    generation: u64,
    done: bool,
    batch: Vec<CommitRecord>,
)
    ensures
        ({
            let sent = sweep_messages(generation, done, batch);
            let rows = HistoryMsg::Commits { generation, commits: batch };
            let end = HistoryMsg::WalkDone { generation };
            &&& batch@.len() > 0 && done ==> sent == seq![rows, end]
            &&& batch@.len() > 0 && !done ==> sent == seq![rows]
            &&& batch@.len() == 0 && done ==> sent == seq![end]
            &&& batch@.len() == 0 && !done ==> sent.len() == 0
        }),
{
    let sent = sweep_messages(generation, done, batch);
    let rows = HistoryMsg::Commits { generation, commits: batch };
    let end = HistoryMsg::WalkDone { generation };
    if batch@.len() > 0 && done {
        assert(sent =~= seq![rows, end]);
    } else if batch@.len() > 0 {
        assert(sent =~= seq![rows]);
    } else if done {
        assert(sent =~= seq![end]);
    }
}

} // verus!
