//! Blame: which revision is annotated, and the lines of the annotated file.

use crate::git::commit::{commit_author, commit_text, decode_author, decode_commit};
use crate::git::diff::{byte_string, byte_text};
use crate::git::inspect::BlameAt;
use crate::git::meta::{age_text, all_readings, read_clock, relative_time_at, Clock};
use crate::git::refs::{author_seconds, authored_seconds};
use crate::model::{BlameDocument, BlameLine, BlameLineModel, ObjectId};
use crate::text::{chars_of, push_chars, same_text};
use vstd::prelude::*;
use vstd::string::StringExecFns;

verus! {

/// The view of a commit that was looked up, or of the error.
pub open spec fn id_result(r: Result<ObjectId, String>) -> Result<ObjectId, Seq<char>> {
    match r {
        Ok(id) => Ok(id),
        Err(e) => Err(e@),
    }
}

/// The commit that a blame starts from. `head` is the checked-out commit, or why there is
/// none; `parent` is the first parent of the commit whose parent is asked for, if it has
/// one, or why it could not be read. Only what `at` asks for is looked at.
pub open spec fn suspect(
    at: BlameAt,
    head: Result<ObjectId, Seq<char>>,
    parent: Result<Option<ObjectId>, Seq<char>>,
) -> Result<ObjectId, Seq<char>> {
    match at {
        BlameAt::Head => match head {
            Ok(id) => Ok(id),
            Err(e) => Err("cannot resolve HEAD: "@ + e),
        },
        BlameAt::Commit(id) => Ok(id),
        BlameAt::ParentOfCommit(id) => match parent {
            Ok(Some(p)) => Ok(p),
            Ok(None) => Err("commit "@ + id.hex().take(7) + " has no parent"@),
            Err(e) => Err(e),
        },
    }
}

/// Resolves the commit that a blame starts from. An error is a text to show.
pub fn resolve_suspect(
    at: BlameAt,
    head: Result<ObjectId, String>,
    parent: Result<Option<ObjectId>, String>,
) -> (r: Result<ObjectId, String>)
    ensures
        id_result(r) == suspect(
            at,
            id_result(head),
            match parent {
                Ok(p) => Ok(p),
                Err(e) => Err(e@),
            },
        ),
{
    match at {
        BlameAt::Head => match head {
            Ok(id) => Ok(id),
            Err(e) => {
                let mut text: String = "cannot resolve HEAD: ".to_owned();
                text.append(e.as_str());
                Err(text)
            },
        },
        BlameAt::Commit(id) => Ok(id),
        BlameAt::ParentOfCommit(id) => match parent {
            Ok(Some(p)) => Ok(p),
            Ok(None) => {
                let short: String = id.to_short_hex();
                let mut text: String = "commit ".to_owned();
                text.append(short.as_str());
                text.append(" has no parent");
                Err(text)
            },
            Err(e) => Err(e),
        },
    }
}

/// What is shown of the commit that wrote a line.
#[derive(Debug)]
pub struct CommitMeta {
    pub short: String,
    pub author: String,
    pub authored_relative: String,
}

/// What a `CommitMeta` says.
#[verifier::ext_equal]
pub struct MetaModel {
    pub short: Seq<char>,
    pub author: Seq<char>,
    pub authored_relative: Seq<char>,
}

impl View for CommitMeta {
    type V = MetaModel;

    open spec fn view(&self) -> MetaModel {
        MetaModel {
            short: self.short@,
            author: self.author@,
            authored_relative: self.authored_relative@,
        }
    }
}

/// What is shown of commit `id` at `now`; `data` is its object, if it could be read. Question
/// marks stand for what is not known.
pub open spec fn meta_of(now: Clock, id: ObjectId, data: Option<Seq<u8>>) -> MetaModel {
    let known = data is Some && commit_text(data->0) is Ok;
    MetaModel {
        short: id.hex().take(7),
        author: if known {
            match commit_author(data->0) {
                Ok(who) => byte_text(who.name),
                Err(_) => "?"@,
            }
        } else {
            "?"@
        },
        authored_relative: if known {
            age_text(now, authored_seconds(data->0))
        } else {
            "?"@
        },
    }
}

/// The view of optional bytes.
pub open spec fn data_view(data: Option<&[u8]>) -> Option<Seq<u8>> {
    match data {
        Some(d) => Some(d@),
        None => None,
    }
}

/// What is shown of commit `id` at `now`.
pub fn commit_meta_at(now: Clock, id: ObjectId, data: Option<&[u8]>) -> (r: CommitMeta)
    requires
        now.wf(),
    ensures
        r@ == meta_of(now, id, data_view(data)),
{
    let short: String = id.to_short_hex();
    if let Some(bytes) = data {
        if let Ok(_text) = decode_commit(bytes) {
            let author: String = match decode_author(bytes) {
                Ok(who) => byte_string(who.name.as_slice()),
                Err(_) => "?".to_owned(),
            };
            let authored_relative: String = relative_time_at(now, author_seconds(bytes));
            return CommitMeta { short, author, authored_relative };
        }
    }
    CommitMeta { short, author: "?".to_owned(), authored_relative: "?".to_owned() }
}

/// What is shown of commit `id`.
pub fn commit_meta(id: ObjectId, data: Option<&[u8]>) -> (r: CommitMeta)
    ensures
        exists|now: Clock| now.wf() && r@ == #[trigger] meta_of(now, id, data_view(data)),
{
    let now: Clock = read_clock();
    commit_meta_at(now, id, data)
}

/// A run of lines that one commit wrote.
#[derive(Debug)]
pub struct BlameRun {
    pub commit_id: ObjectId,
    /// The file's name in that commit, where it is known to differ.
    pub source_file_name: Option<Vec<u8>>,
    /// Number of the first line, counted from zero.
    pub start: u32,
    pub lines: Vec<Vec<u8>>,
}

/// `s` without the line feeds and carriage returns at its end.
pub open spec fn trim_line_end(s: Seq<char>) -> Seq<char>
    decreases s.len(),
{
    if s.len() > 0 && (s.last() == '\n' || s.last() == '\r') {
        trim_line_end(s.drop_last())
    } else {
        s
    }
}

fn without_line_end(s: &str) -> (r: String)
    ensures
        r@ == trim_line_end(s@),
{
    let chars: Vec<char> = chars_of(s);
    let mut end: usize = chars.len();
    assert(chars@.take(end as int) =~= chars@);
    while end > 0 && (chars[end - 1] == '\n' || chars[end - 1] == '\r')
        invariant
            end <= chars@.len(),
            chars@ == s@,
            trim_line_end(chars@.take(end as int)) == trim_line_end(s@),
        decreases end,
    {
        assert(chars@.take(end as int).drop_last() =~= chars@.take(end - 1));
        end -= 1;
    }
    let mut out: String = String::new();
    push_chars(&mut out, &chars, 0, end);
    assert(out@ =~= chars@.take(end as int));
    out
}

/// The file's name in the commit of a run, where it differs from `path`.
pub open spec fn source_path(run: BlameRun, path: Seq<char>) -> Option<Seq<char>> {
    match run.source_file_name {
        Some(n) => if byte_text(n@) == path {
            None
        } else {
            Some(byte_text(n@))
        },
        None => None,
    }
}

/// The annotated line number `i` of a run.
pub open spec fn run_line(
    run: BlameRun,
    meta: MetaModel,
    path: Seq<char>,
    i: int,
) -> BlameLineModel {
    BlameLineModel {
        commit_id: run.commit_id,
        commit_short: meta.short,
        author: meta.author,
        authored_relative: meta.authored_relative,
        line_no: (run.start + i + 1) as u32,
        text: trim_line_end(byte_text(run.lines@[i]@)),
        source_path: source_path(run, path),
    }
}

/// The annotated lines of a run.
pub open spec fn run_lines(run: BlameRun, meta: MetaModel, path: Seq<char>) -> Seq<
    BlameLineModel,
> {
    Seq::new(run.lines@.len(), |i: int| run_line(run, meta, path, i))
}

/// Appends the lines of one run.
pub fn push_blame_run(lines: &mut Vec<BlameLine>, path: &str, run: &BlameRun, meta: &CommitMeta)
    requires
        run.start + run.lines@.len() <= u32::MAX,
    ensures
        final(lines).deep_view() == old(lines).deep_view() + run_lines(*run, meta@, path@),
{
    let source: Option<String> = match &run.source_file_name {
        Some(n) => {
            let name: String = byte_string(n.as_slice());
            if same_text(name.as_str(), path) {
                None
            } else {
                Some(name)
            }
        },
        None => None,
    };
    let ghost start = lines.deep_view();
    let mut i: usize = 0;
    assert(start + Seq::new(0, |i: int| run_line(*run, meta@, path@, i)) =~= start);
    while i < run.lines.len()
        invariant
            i <= run.lines@.len(),
            run.start + run.lines@.len() <= u32::MAX,
            match source {
                Some(n) => source_path(*run, path@) == Some(n@),
                None => source_path(*run, path@) is None,
            },
            lines.deep_view() == start + Seq::new(
                i as nat,
                |k: int| run_line(*run, meta@, path@, k),
            ),
        decreases run.lines@.len() - i,
    {
        let raw: String = byte_string(run.lines[i].as_slice());
        let text: String = without_line_end(raw.as_str());
        let source_here: Option<String> = match &source {
            Some(n) => Some(n.clone()),
            None => None,
        };
        let ghost before = lines.deep_view();
        let made = BlameLine {
            commit_id: run.commit_id,
            commit_short: meta.short.clone(),
            author: meta.author.clone(),
            authored_relative: meta.authored_relative.clone(),
            line_no: run.start + i as u32 + 1,
            text,
            source_path: source_here,
        };
        assert(made@ =~= run_line(*run, meta@, path@, i as int));
        lines.push(made);
        assert(lines.deep_view() =~= before.push(run_line(*run, meta@, path@, i as int)));
        assert(lines.deep_view() =~= start + Seq::new(
            (i + 1) as nat,
            |k: int| run_line(*run, meta@, path@, k),
        ));
        i += 1;
    }
}

/// `l` put into `sorted` behind all lines that do not come after it.
pub open spec fn insert_line(sorted: Seq<BlameLineModel>, l: BlameLineModel) -> Seq<BlameLineModel>
    decreases sorted.len(),
{
    if sorted.len() > 0 && l.line_no < sorted.last().line_no {
        insert_line(sorted.drop_last(), l).push(sorted.last())
    } else {
        sorted.push(l)
    }
}

/// `lines` by number; lines of the same number keep their order.
pub open spec fn sorted_lines(lines: Seq<BlameLineModel>) -> Seq<BlameLineModel>
    decreases lines.len(),
{
    if lines.len() == 0 {
        Seq::empty()
    } else {
        insert_line(sorted_lines(lines.drop_last()), lines.last())
    }
}

fn insert_blame_line(sorted: &mut Vec<BlameLine>, l: BlameLine)
    ensures
        final(sorted).deep_view() == insert_line(old(sorted).deep_view(), l@),
{
    let ghost before = sorted.deep_view();
    let ghost e = l@;
    let mut pos: usize = sorted.len();
    assert(before.take(pos as int) =~= before);
    assert(before.skip(pos as int) =~= Seq::empty());
    assert(insert_line(before, e) =~= insert_line(before.take(pos as int), e) + before.skip(
        pos as int,
    ));
    while pos > 0 && l.line_no < sorted[pos - 1].line_no
        invariant
            pos <= sorted@.len(),
            before == sorted.deep_view(),
            e == l@,
            insert_line(before, e) == insert_line(before.take(pos as int), e) + before.skip(
                pos as int,
            ),
        decreases pos,
    {
        proof {
            let part = before.take(pos as int);
            assert(part.last() == sorted@[pos - 1]@);
            assert(part.drop_last() =~= before.take(pos - 1));
            assert(insert_line(before.take(pos - 1), e) + before.skip(pos - 1) =~= insert_line(
                before.take(pos - 1),
                e,
            ).push(part.last()) + before.skip(pos as int));
        }
        pos -= 1;
    }
    proof {
        let part = before.take(pos as int);
        if pos > 0 {
            assert(part.last() == sorted@[pos - 1]@);
        }
        assert(insert_line(part, e) == part.push(e));
        assert(part.push(e) + before.skip(pos as int) =~= before.insert(pos as int, e));
    }
    sorted.insert(pos, l);
    assert(sorted.deep_view() =~= before.insert(pos as int, e));
}

/// The document of a blame of `path` as of commit `at`, with its lines in order.
pub fn blame_document(path: &str, at: ObjectId, lines: Vec<BlameLine>) -> (r: BlameDocument)
    ensures
        r.path@ == path@,
        r.at == at,
        r.lines.deep_view() == sorted_lines(lines.deep_view()),
{
    let mut out: Vec<BlameLine> = Vec::new();
    let ghost raw = lines@;
    let ghost all = lines.deep_view();
    assert(all.take(0) =~= Seq::empty());
    assert(out.deep_view() =~= Seq::empty());
    for l in it: lines
        invariant
            it.seq() == raw,
            all == Seq::new(raw.len(), |i: int| raw[i]@),
            out.deep_view() == sorted_lines(all.take(it.index() as int)),
    {
        proof {
            assert(all.take(it.index() + 1).drop_last() =~= all.take(it.index() as int));
            assert(all.take(it.index() + 1).last() == l@);
        }
        insert_blame_line(&mut out, l);
    }
    assert(all.take(all.len() as int) =~= all);
    BlameDocument { path: path.to_owned(), at, lines: out }
}

/// A run of lines with the object of the commit that wrote it, if that could be read.
#[derive(Debug)]
pub struct AnnotatedRun {
    pub run: BlameRun,
    pub data: Option<Vec<u8>>,
}

impl AnnotatedRun {
    /// The commit's object.
    pub open spec fn object(self) -> Option<Seq<u8>> {
        match self.data {
            Some(d) => Some(d@),
            None => None,
        }
    }
}

/// The annotated lines of `runs`, in order, where `moments` are the readings of the clock at
/// which they are made.
pub open spec fn annotated(runs: Seq<AnnotatedRun>, path: Seq<char>, moments: Seq<Clock>) -> Seq<
    BlameLineModel,
>
    decreases runs.len(),
{
    if runs.len() == 0 {
        Seq::empty()
    } else {
        let last = runs.last();
        annotated(runs.drop_last(), path, moments.drop_last()) + run_lines(
            last.run,
            meta_of(moments.last(), last.run.commit_id, last.object()),
            path,
        )
    }
}

/// The lines of every run can be numbered.
pub open spec fn runs_fit(runs: Seq<AnnotatedRun>) -> bool {
    forall|i: int|
        0 <= i < runs.len() ==> (#[trigger] runs[i]).run.start + runs[i].run.lines@.len()
            <= u32::MAX
}

/// The blame of `path` as of commit `at`, from the runs of lines that were found.
pub fn compute_blame(path: &str, at: ObjectId, runs: &Vec<AnnotatedRun>) -> (r: BlameDocument)
    requires
        runs_fit(runs@),
    ensures
        r.path@ == path@,
        r.at == at,
        exists|moments: Seq<Clock>|
            moments.len() == runs@.len() && all_readings(moments) && r.lines.deep_view()
                == sorted_lines(#[trigger] annotated(runs@, path@, moments)),
{
    let mut lines: Vec<BlameLine> = Vec::new();
    let ghost mut moments: Seq<Clock> = Seq::empty();
    let mut i: usize = 0;
    assert(runs@.take(0) =~= Seq::empty());
    assert(lines.deep_view() =~= Seq::empty());
    while i < runs.len()
        invariant
            i <= runs@.len(),
            runs_fit(runs@),
            moments.len() == i,
            all_readings(moments),
            lines.deep_view() == annotated(runs@.take(i as int), path@, moments),
        decreases runs@.len() - i,
    {
        let now: Clock = read_clock();
        let data: Option<&[u8]> = match &runs[i].data {
            Some(d) => Some(d.as_slice()),
            None => None,
        };
        let meta: CommitMeta = commit_meta_at(now, runs[i].run.commit_id, data);
        push_blame_run(&mut lines, path, &runs[i].run, &meta);
        proof {
            assert(runs@.take(i + 1).drop_last() =~= runs@.take(i as int));
            assert(moments.push(now).drop_last() =~= moments);
            moments = moments.push(now);
        }
        i += 1;
    }
    assert(runs@.take(i as int) =~= runs@);
    blame_document(path, at, lines)
}

proof fn lemma_insert_line(sorted: Seq<BlameLineModel>, l: BlameLineModel)
    requires
        forall|i: int, j: int|
            0 <= i < j < sorted.len() ==> (#[trigger] sorted[i]).line_no <= (
            #[trigger] sorted[j]).line_no,
    ensures
        insert_line(sorted, l).to_multiset() == sorted.to_multiset().insert(l),
        insert_line(sorted, l).len() == sorted.len() + 1,
        insert_line(sorted, l).last().line_no == (if sorted.len() > 0 && sorted.last().line_no
            > l.line_no {
            sorted.last().line_no
        } else {
            l.line_no
        }),
        forall|i: int, j: int|
            0 <= i < j < insert_line(sorted, l).len() ==> (#[trigger] insert_line(
                sorted,
                l,
            )[i]).line_no <= (#[trigger] insert_line(sorted, l)[j]).line_no,
    decreases sorted.len(),
{
    broadcast use vstd::seq_lib::group_to_multiset_ensures;

    let out = insert_line(sorted, l);
    if sorted.len() > 0 && l.line_no < sorted.last().line_no {
        let less = sorted.drop_last();
        lemma_insert_line(less, l);
        assert(sorted =~= less.push(sorted.last()));
        assert(out.to_multiset() =~= sorted.to_multiset().insert(l));
        let inner = insert_line(less, l);
        assert forall|i: int, j: int| 0 <= i < j < out.len() implies (#[trigger] out[i]).line_no
            <= (#[trigger] out[j]).line_no by {
            if j < inner.len() {
                assert(out[i] == inner[i] && out[j] == inner[j]);
            } else {
                assert(inner[i].line_no <= inner.last().line_no) by {
                    if i < inner.len() - 1 {
                        assert(inner[i].line_no <= inner[inner.len() - 1].line_no);
                    }
                }
                if less.len() > 0 {
                    assert(sorted[less.len() - 1].line_no <= sorted[sorted.len() - 1].line_no);
                }
            }
        }
    } else {
        assert forall|i: int, j: int| 0 <= i < j < out.len() implies (#[trigger] out[i]).line_no
            <= (#[trigger] out[j]).line_no by {
            if j == sorted.len() && i < sorted.len() - 1 {
                assert(sorted[i].line_no <= sorted[sorted.len() - 1].line_no);
            } else if j < sorted.len() {
                assert(out[i] == sorted[i] && out[j] == sorted[j]);
            }
        }
    }
}

/// A blame shows every line once, by number.
pub proof fn law_blame_lines_are_sorted(lines: Seq<BlameLineModel>)
    ensures
        sorted_lines(lines).to_multiset() == lines.to_multiset(),
        forall|i: int, j: int|
            0 <= i < j < sorted_lines(lines).len() ==> (#[trigger] sorted_lines(lines)[i]).line_no
                <= (#[trigger] sorted_lines(lines)[j]).line_no,
    decreases lines.len(),
{
    broadcast use vstd::seq_lib::group_to_multiset_ensures;

    if lines.len() > 0 {
        law_blame_lines_are_sorted(lines.drop_last());
        lemma_insert_line(sorted_lines(lines.drop_last()), lines.last());
        assert(lines =~= lines.drop_last().push(lines.last()));
    }
}

/// A line of a blame holds the whole decoded line but for the line feeds and carriage returns
/// at its end, all of which are gone.
pub proof fn law_blame_keeps_all_but_the_line_end(s: Seq<char>)
    ensures
        ({
            let kept = trim_line_end(s).len() as int;
            &&& kept <= s.len()
            &&& trim_line_end(s) == s.take(kept)
            &&& forall|i: int| kept <= i < s.len() ==> #[trigger] s[i] == '\n' || s[i] == '\r'
            &&& kept > 0 ==> s[kept - 1] != '\n' && s[kept - 1] != '\r'
        }),
    decreases s.len(),
{
    let kept = trim_line_end(s).len() as int;
    if s.len() > 0 && (s.last() == '\n' || s.last() == '\r') {
        let less = s.drop_last();
        law_blame_keeps_all_but_the_line_end(less);
        assert(s.take(kept) =~= less.take(kept));
        assert forall|i: int| kept <= i < s.len() implies #[trigger] s[i] == '\n' || s[i]
            == '\r' by {
            if i < less.len() {
                assert(less[i] == s[i]);
            }
        }
    } else {
        assert(s.take(kept) =~= s);
    }
}

/// Every line of a run is shown once, in order, numbered from one behind the first line's
/// number, and named after the run's commit. It is said to come from another file if and only
/// if the file had another name in that commit.
pub proof fn law_a_run_annotates_each_of_its_lines(
    run: BlameRun,
    meta: MetaModel,
    path: Seq<char>,
    i: int,
)
    requires
        0 <= i < run.lines@.len(),
        run.start + run.lines@.len() <= u32::MAX,
    ensures
        run_lines(run, meta, path).len() == run.lines@.len(),
        ({
            let shown = run_lines(run, meta, path)[i];
            let text = byte_text(run.lines@[i]@);
            &&& shown.line_no == run.start + i + 1
            &&& shown.commit_id == run.commit_id
            &&& shown.commit_short == meta.short
            &&& shown.author == meta.author
            &&& shown.authored_relative == meta.authored_relative
            &&& shown.text == text.take(shown.text.len() as int)
            &&& forall|k: int|
                shown.text.len() <= k < text.len() ==> #[trigger] text[k] == '\n' || text[k]
                    == '\r'
            &&& shown.text.len() > 0 ==> shown.text.last() != '\n' && shown.text.last() != '\r'
            &&& shown.source_path is Some <==> run.source_file_name is Some && byte_text(
                run.source_file_name->0@,
            ) != path
            &&& shown.source_path is Some ==> shown.source_path->0 == byte_text(
                run.source_file_name->0@,
            )
        }),
{
    law_blame_keeps_all_but_the_line_end(byte_text(run.lines@[i]@));
}

/// A blame shows what is known of the commit that wrote a line: the first seven digits of its
/// id in any case, and question marks for its author and age if the commit cannot be read.
pub proof fn law_unreadable_commits_are_question_marks(
    now: Clock,
    id: ObjectId,
    data: Option<Seq<u8>>,
)
    ensures
        meta_of(now, id, data).short == id.hex().subrange(0, 7),
        data is None || commit_text(data->0) is Err ==> meta_of(now, id, data).author == seq!['?']
            && meta_of(now, id, data).authored_relative == seq!['?'],
        data is Some && commit_text(data->0) is Ok && commit_author(data->0) is Ok ==> meta_of(
            now,
            id,
            data,
        ).author == byte_text(commit_author(data->0)->Ok_0.name),
        data is Some && commit_text(data->0) is Ok && commit_author(data->0) is Err ==> meta_of(
            now,
            id,
            data,
        ).author == seq!['?'],
        data is Some && commit_text(data->0) is Ok ==> meta_of(now, id, data).authored_relative
            == age_text(now, authored_seconds(data->0)),
{
    reveal_strlit("?");
    assert("?"@ =~= seq!['?']);
    assert(id.hex().take(7) =~= id.hex().subrange(0, 7));
}

/// A blame goes back from where it was asked to: from the last commit, from the commit itself,
/// or from the first parent of the commit; what cannot be found is an error that says so.
pub proof fn law_a_blame_starts_where_it_is_asked_to(
    id: ObjectId,
    head: Result<ObjectId, Seq<char>>,
    parent: Result<Option<ObjectId>, Seq<char>>,
)
    ensures
        suspect(BlameAt::Commit(id), head, parent) == Ok::<ObjectId, Seq<char>>(id),
        head is Ok ==> suspect(BlameAt::Head, head, parent) == head,
        head matches Err(e) ==> suspect(BlameAt::Head, head, parent) == Err::<ObjectId, Seq<char>>(
            "cannot resolve HEAD: "@ + e,
        ),
        parent matches Ok(Some(p)) ==> suspect(BlameAt::ParentOfCommit(id), head, parent) == Ok::<
            ObjectId,
            Seq<char>,
        >(p),
        parent == Ok::<Option<ObjectId>, Seq<char>>(None) ==> suspect(
            BlameAt::ParentOfCommit(id),
            head,
            parent,
        ) == Err::<ObjectId, Seq<char>>(
            "commit "@ + id.hex().subrange(0, 7) + " has no parent"@,
        ),
        parent matches Err(e) ==> suspect(BlameAt::ParentOfCommit(id), head, parent) == Err::<
            ObjectId,
            Seq<char>,
        >(e),
{
    assert(id.hex().take(7) =~= id.hex().subrange(0, 7));
}

/// The lines of the runs come one behind the other, each run with what is known of its own
/// commit at its own reading of the clock.
pub proof fn law_runs_are_annotated_in_order(
    runs: Seq<AnnotatedRun>,
    path: Seq<char>,
    moments: Seq<Clock>,
    run: AnnotatedRun,
    now: Clock,
)
    ensures
        annotated(Seq::empty(), path, Seq::empty()).len() == 0,
        annotated(runs.push(run), path, moments.push(now)).take(
            annotated(runs, path, moments).len() as int,
        ) == annotated(runs, path, moments),
        annotated(runs.push(run), path, moments.push(now)).skip(
            annotated(runs, path, moments).len() as int,
        ) == run_lines(
            run.run,
            meta_of(
                now,
                run.run.commit_id,
                match run.data {
                    Some(d) => Some(d@),
                    None => None,
                },
            ),
            path,
        ),
{
    let all = annotated(runs.push(run), path, moments.push(now));
    let n = annotated(runs, path, moments).len() as int;
    assert(runs.push(run).drop_last() =~= runs);
    assert(moments.push(now).drop_last() =~= moments);
    let last = run_lines(run.run, meta_of(now, run.run.commit_id, run.object()), path);
    assert(all == annotated(runs, path, moments) + last);
    assert(all.take(n) =~= annotated(runs, path, moments));
    assert(all.skip(n) =~= last);
}

} // verus!
