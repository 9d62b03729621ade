//! Raw commit objects: their decoding, and the header lines of a commit diff.

use crate::git::diff::{
    all_wf, byte_string, byte_text, commit_document, commit_sink, empty_error_document,
    error_document, lines_of_kind, sink_document, ChangeRecord, FileDiffOutput,
};
use crate::git::meta::{format_timestamp_at, read_clock, timestamp_text, Clock};
use crate::model::{
    line, DiffDocument, DiffLine, DiffLineKind, DiffTarget, DocumentModel, LineModel, ObjectId,
};
use crate::text::{split_lines, text_lines};
use vstd::prelude::*;
use vstd::string::StringExecFns;

verus! {

/// Who made a commit, and when.
#[derive(Debug)]
pub struct Signature {
    pub name: Vec<u8>,
    pub email: Vec<u8>,
    /// Seconds since the epoch; an error where the time cannot be read.
    pub seconds: Result<i64, String>,
}

/// What a `Signature` says.
#[verifier::ext_equal]
pub struct SignatureModel {
    pub name: Seq<u8>,
    pub email: Seq<u8>,
    pub seconds: Result<i64, Seq<char>>,
}

impl View for Signature {
    type V = SignatureModel;

    open spec fn view(&self) -> SignatureModel {
        SignatureModel {
            name: self.name@,
            email: self.email@,
            seconds: match self.seconds {
                Ok(s) => Ok(s),
                Err(e) => Err(e@),
            },
        }
    }
}

/// The parts of a commit object besides its signatures.
#[derive(Debug)]
pub struct CommitText {
    /// The parents' ids, in binary.
    pub parents: Vec<Vec<u8>>,
    pub title: Vec<u8>,
    pub body: Option<Vec<u8>>,
    pub summary: Vec<u8>,
}

/// What a `CommitText` says.
#[verifier::ext_equal]
pub struct CommitTextModel {
    pub parents: Seq<Seq<u8>>,
    pub title: Seq<u8>,
    pub body: Option<Seq<u8>>,
    pub summary: Seq<u8>,
}

impl View for CommitText {
    type V = CommitTextModel;

    open spec fn view(&self) -> CommitTextModel {
        CommitTextModel {
            parents: self.parents.deep_view(),
            title: self.title@,
            body: match self.body {
                Some(b) => Some(b@),
                None => None,
            },
            summary: self.summary@,
        }
    }
}

/// What `gix` reads from the commit object `data`, or its error's text.
pub uninterp spec fn commit_text(data: Seq<u8>) -> Result<CommitTextModel, Seq<char>>;

/// What `gix` reads as the author of the commit object `data`, or its error's text.
pub uninterp spec fn commit_author(data: Seq<u8>) -> Result<SignatureModel, Seq<char>>;

/// What `gix` reads as the committer of the commit object `data`, or its error's text.
pub uninterp spec fn commit_committer(data: Seq<u8>) -> Result<SignatureModel, Seq<char>>;

/// `gix::objs::CommitRef::from_bytes`, with `parents`, `message` and its `summary`: the
/// parts of the commit object `data`, or the text of the error.
#[verifier::external_body]
pub(crate) fn decode_commit(data: &[u8]) -> (r: Result<CommitText, String>)
    ensures
        match r {
            Ok(t) => commit_text(data@) == Ok::<CommitTextModel, Seq<char>>(t@),
            Err(e) => commit_text(data@) == Err::<CommitTextModel, Seq<char>>(e@),
        },
{
    let commit = gix::objs::CommitRef::from_bytes(data, gix::hash::Kind::Sha1).map_err(|e| e.to_string())?;
    let message = commit.message();
    Ok(CommitText {
        parents: commit.parents().map(|id| id.as_bytes().to_vec()).collect(),
        title: message.title.to_vec(),
        body: message.body.map(|b| b.to_vec()),
        summary: message.summary().to_vec(),
    })
}

/// `gix::objs::CommitRef::from_bytes` and `author`: who wrote the commit object `data`, or
/// the text of the error.
#[verifier::external_body]
pub(crate) fn decode_author(data: &[u8]) -> (r: Result<Signature, String>)
    ensures
        match r {
            Ok(s) => commit_author(data@) == Ok::<SignatureModel, Seq<char>>(s@),
            Err(e) => commit_author(data@) == Err::<SignatureModel, Seq<char>>(e@),
        },
{
    let commit = gix::objs::CommitRef::from_bytes(data, gix::hash::Kind::Sha1).map_err(|e| e.to_string())?;
    let who = commit.author().map_err(|e| e.to_string())?;
    Ok(Signature {
        name: who.name.to_vec(),
        email: who.email.to_vec(),
        seconds: who.time().map(|t| t.seconds).map_err(|e| e.to_string()),
    })
}

/// `gix::objs::CommitRef::from_bytes` and `committer`: who committed the commit object
/// `data`, or the text of the error.
#[verifier::external_body]
pub(crate) fn decode_committer(data: &[u8]) -> (r: Result<Signature, String>)
    ensures
        match r {
            Ok(s) => commit_committer(data@) == Ok::<SignatureModel, Seq<char>>(s@),
            Err(e) => commit_committer(data@) == Err::<SignatureModel, Seq<char>>(e@),
        },
{
    let commit = gix::objs::CommitRef::from_bytes(data, gix::hash::Kind::Sha1).map_err(|e| e.to_string())?;
    let who = commit.committer().map_err(|e| e.to_string())?;
    Ok(Signature {
        name: who.name.to_vec(),
        email: who.email.to_vec(),
        seconds: who.time().map(|t| t.seconds).map_err(|e| e.to_string()),
    })
}

/// The parents that `gix` finds in the commit object `data` while it ignores errors.
pub uninterp spec fn listed_parents(data: Seq<u8>) -> Seq<Seq<u8>>;

/// `gix::objs::CommitRefIter::from_bytes` and `parent_ids`: the ids of the parents in the
/// commit object `data`, in binary. Where the object cannot be read further, they end.
#[verifier::external_body]
fn list_parents(data: &[u8]) -> (r: Vec<Vec<u8>>)
    ensures
        r.deep_view() == listed_parents(data@),
{
    gix::objs::CommitRefIter::from_bytes(data, gix::hash::Kind::Sha1)
        .parent_ids()
        .map(|id| id.as_bytes().to_vec())
        .collect()
}

/// The text of the error for a parent whose id has not twenty bytes.
pub const BAD_PARENT: &'static str = "the id of a parent is no SHA-1";

/// The first of `parents`, if there is one; an error if it is no id of a commit.
pub open spec fn first_id(parents: Seq<Seq<u8>>) -> Result<Option<ObjectId>, Seq<char>> {
    if parents.len() == 0 {
        Ok(None)
    } else if parents[0].len() == 20 {
        Ok(Some(ObjectId::of_bytes(parents[0])))
    } else {
        Err(BAD_PARENT@)
    }
}

/// The view of a parent that was looked up, or of the error.
pub open spec fn parent_view(parent: Result<Option<ObjectId>, String>) -> Result<
    Option<ObjectId>,
    Seq<char>,
> {
    match parent {
        Ok(p) => Ok(p),
        Err(e) => Err(e@),
    }
}

fn first_of_parents(parents: &Vec<Vec<u8>>) -> (r: Result<Option<ObjectId>, String>)
    ensures
        parent_view(r) == first_id(parents.deep_view()),
{
    if parents.len() == 0 {
        return Ok(None);
    }
    assert(parents.deep_view()[0] == parents@[0]@);
    match ObjectId::from_slice(parents[0].as_slice()) {
        Some(id) => Ok(Some(id)),
        None => Err(BAD_PARENT.to_owned()),
    }
}

/// The parent that the diff of a commit is made against, given the commit's object; none for
/// the first commit. An error if the object cannot be read.
pub fn first_parent(data: &[u8]) -> (r: Result<Option<ObjectId>, String>)
    ensures
        parent_view(r) == (match commit_text(data@) {
            Ok(t) => first_id(t.parents),
            Err(e) => Err(e),
        }),
{
    match decode_commit(data) {
        Ok(text) => first_of_parents(&text.parents),
        Err(e) => Err(e),
    }
}

/// The parent that a blame goes back to, given the commit's object; none if it names none
/// that can be read.
pub fn first_listed_parent(data: &[u8]) -> (r: Result<Option<ObjectId>, String>)
    ensures
        parent_view(r) == first_id(listed_parents(data@)),
{
    first_of_parents(&list_parents(data))
}

/// `label`, then the signature's name and address.
pub open spec fn person_line(label: Seq<char>, who: SignatureModel) -> LineModel {
    line(
        DiffLineKind::Meta,
        label + byte_text(who.name) + " <"@ + byte_text(who.email) + ">"@,
    )
}

/// The message lines of a commit: its title, then the lines of its body, each indented.
pub open spec fn message_lines(text: CommitTextModel) -> Seq<LineModel> {
    let title = seq![byte_text(text.title)];
    let texts = match text.body {
        Some(b) => title + text_lines(byte_text(b)),
        None => title,
    };
    lines_of_kind(DiffLineKind::Message, texts.map_values(|t: Seq<char>| "    "@ + t))
}

/// The header of a commit diff. `dates` are the texts of the author's and the committer's
/// times.
pub open spec fn commit_header_lines(
    id: ObjectId,
    author: SignatureModel,
    committer: SignatureModel,
    dates: (Seq<char>, Seq<char>),
    text: CommitTextModel,
) -> Seq<LineModel> {
    seq![
        line(DiffLineKind::CommitHeader, "commit "@ + id.hex()),
        person_line("Author:     "@, author),
        line(DiffLineKind::Meta, "AuthorDate: "@ + dates.0),
        person_line("Commit:     "@, committer),
        line(DiffLineKind::Meta, "CommitDate: "@ + dates.1),
        line(DiffLineKind::Blank, ""@),
    ] + message_lines(text) + seq![line(DiffLineKind::Blank, ""@)]
}

fn push_person(lines: &mut Vec<DiffLine>, label: &str, who: &Signature)
    ensures
        final(lines).deep_view() == old(lines).deep_view().push(person_line(label@, who@)),
{
    let ghost before = lines.deep_view();
    let name: String = byte_string(who.name.as_slice());
    let email: String = byte_string(who.email.as_slice());
    let mut text: String = label.to_owned();
    text.append(name.as_str());
    text.append(" <");
    text.append(email.as_str());
    text.append(">");
    lines.push(DiffLine { kind: DiffLineKind::Meta, text });
    assert(lines.deep_view() =~= before.push(person_line(label@, who@)));
}

fn push_labelled(lines: &mut Vec<DiffLine>, kind: DiffLineKind, label: &str, text: &str)
    ensures
        final(lines).deep_view() == old(lines).deep_view().push(line(kind, label@ + text@)),
{
    let ghost before = lines.deep_view();
    let mut out: String = label.to_owned();
    out.append(text);
    lines.push(DiffLine { kind, text: out });
    assert(lines.deep_view() =~= before.push(line(kind, label@ + text@)));
}

/// The header lines of a commit from its decoded parts and the texts of its times.
pub fn commit_header(
    id: ObjectId,
    author: &Signature,
    committer: &Signature,
    author_date: &str,
    commit_date: &str,
    text: &CommitText,
) -> (r: Vec<DiffLine>)
    ensures
        r.deep_view() == commit_header_lines(
            id,
            author@,
            committer@,
            (author_date@, commit_date@),
            text@,
        ),
{
    let mut out: Vec<DiffLine> = Vec::new();
    let hex: String = id.to_hex();
    assert(out.deep_view() =~= Seq::empty());
    push_labelled(&mut out, DiffLineKind::CommitHeader, "commit ", hex.as_str());
    push_person(&mut out, "Author:     ", author);
    push_labelled(&mut out, DiffLineKind::Meta, "AuthorDate: ", author_date);
    push_person(&mut out, "Commit:     ", committer);
    push_labelled(&mut out, DiffLineKind::Meta, "CommitDate: ", commit_date);
    let ghost five = out.deep_view();
    out.push(DiffLine::new(DiffLineKind::Blank, ""));
    let ghost head = out.deep_view();
    assert(head =~= five.push(line(DiffLineKind::Blank, ""@)));
    let title: String = byte_string(text.title.as_slice());
    push_labelled(&mut out, DiffLineKind::Message, "    ", title.as_str());
    let ghost mut texts: Seq<Seq<char>> = seq![title@];
    let ghost indent = |t: Seq<char>| "    "@ + t;
    assert(out.deep_view() =~= head + lines_of_kind(
        DiffLineKind::Message,
        texts.map_values(indent),
    ));
    if let Some(body) = &text.body {
        let body_text: String = byte_string(body.as_slice());
        let body_lines: Vec<String> = split_lines(body_text.as_str());
        let ghost all = body_lines.deep_view();
        let mut i: usize = 0;
        assert(texts + all.take(0) =~= texts);
        while i < body_lines.len()
            invariant
                i <= body_lines@.len(),
                all == body_lines.deep_view(),
                out.deep_view() == head + lines_of_kind(
                    DiffLineKind::Message,
                    (texts + all.take(i as int)).map_values(indent),
                ),
                indent == |t: Seq<char>| "    "@ + t,
            decreases body_lines@.len() - i,
        {
            let ghost before = out.deep_view();
            push_labelled(&mut out, DiffLineKind::Message, "    ", body_lines[i].as_str());
            assert(out.deep_view() =~= head + lines_of_kind(
                DiffLineKind::Message,
                (texts + all.take(i + 1)).map_values(indent),
            ));
            i += 1;
        }
        proof {
            assert(all.take(i as int) =~= all);
            texts = texts + all;
        }
    }
    let ghost before = out.deep_view();
    out.push(DiffLine::new(DiffLineKind::Blank, ""));
    proof {
        assert(out.deep_view() =~= before.push(line(DiffLineKind::Blank, ""@)));
        assert(out.deep_view() =~= commit_header_lines(
            id,
            author@,
            committer@,
            (author_date@, commit_date@),
            text@,
        ));
    }
    out
}

/// The error that keeps the commit object `data` from having a header: the first of those
/// met when its parts, its author, its committer and their times are read.
pub open spec fn header_error(data: Seq<u8>) -> Option<Seq<char>> {
    match (commit_text(data), commit_author(data), commit_committer(data)) {
        (Err(e), _, _) => Some(e),
        (Ok(_), Err(e), _) => Some(e),
        (Ok(_), Ok(_), Err(e)) => Some(e),
        (Ok(_), Ok(a), Ok(c)) => match (a.seconds, c.seconds) {
            (Err(e), _) => Some(e),
            (Ok(_), Err(e)) => Some(e),
            (Ok(_), Ok(_)) => None,
        },
    }
}

/// The header lines of the commit object `data`, whose id is `id`, as they are at `now`.
pub open spec fn object_header(now: Clock, id: ObjectId, data: Seq<u8>) -> Seq<LineModel> {
    let author = commit_author(data)->Ok_0;
    let committer = commit_committer(data)->Ok_0;
    commit_header_lines(
        id,
        author,
        committer,
        (
            timestamp_text(now, author.seconds->Ok_0),
            timestamp_text(now, committer.seconds->Ok_0),
        ),
        commit_text(data)->Ok_0,
    )
}

/// The header lines of the commit object `data`, whose id is `id`. Where a time lies outside
/// the calendar, its text is that of `now`.
pub fn commit_object_header_at(now: Clock, id: ObjectId, data: &[u8]) -> (r: Result<
    Vec<DiffLine>,
    String,
>)
    requires
        now.wf(),
    ensures
        match r {
            Err(e) => header_error(data@) == Some(e@),
            Ok(lines) => header_error(data@) is None && lines.deep_view() == object_header(
                now,
                id,
                data@,
            ),
        },
{
    let text: CommitText = match decode_commit(data) {
        Ok(t) => t,
        Err(e) => {
            return Err(e);
        },
    };
    let author: Signature = match decode_author(data) {
        Ok(s) => s,
        Err(e) => {
            return Err(e);
        },
    };
    let committer: Signature = match decode_committer(data) {
        Ok(s) => s,
        Err(e) => {
            return Err(e);
        },
    };
    let author_date: String = match &author.seconds {
        Ok(s) => format_timestamp_at(now, *s),
        Err(e) => {
            return Err(e.clone());
        },
    };
    let commit_date: String = match &committer.seconds {
        Ok(s) => format_timestamp_at(now, *s),
        Err(e) => {
            return Err(e.clone());
        },
    };
    Ok(
        commit_header(
            id,
            &author,
            &committer,
            author_date.as_str(),
            commit_date.as_str(),
            &text,
        ),
    )
}

/// The header lines of the commit object `data`, whose id is `id`. Where a time lies outside
/// the calendar, its text is that of the moment of the call.
pub fn commit_object_header(id: ObjectId, data: &[u8]) -> (r: Result<Vec<DiffLine>, String>)
    ensures
        match r {
            Err(e) => header_error(data@) == Some(e@),
            Ok(lines) => {
                &&& header_error(data@) is None
                &&& exists|now: Clock|
                    now.wf() && lines.deep_view() == #[trigger] object_header(now, id, data@)
            },
        },
{
    let now: Clock = read_clock();
    commit_object_header_at(now, id, data)
}

/// What a commit changes: its tree diff within the path filter, what the files within the
/// file limit show, and how many files the filter hides.
#[derive(Debug)]
pub struct CommitChanges {
    pub records: Vec<ChangeRecord>,
    pub outputs: Vec<FileDiffOutput>,
    pub scoped_out: usize,
}

/// The error that keeps the diff of a commit from being made: that its object could not be
/// read, what is wrong with the object, or that its changes could not be found.
pub open spec fn commit_diff_error(
    data: Result<Seq<u8>, Seq<char>>,
    changes: Option<Seq<char>>,
) -> Option<Seq<char>> {
    match data {
        Err(e) => Some(e),
        Ok(d) => match header_error(d) {
            Some(e) => Some(e),
            None => changes,
        },
    }
}

/// The diff of commit `id`, as it is at `now`.
pub open spec fn commit_diff(
    now: Clock,
    id: ObjectId,
    data: Seq<u8>,
    changes: CommitChanges,
) -> DocumentModel {
    sink_document(
        DiffTarget::Commit(id),
        object_header(now, id, data),
        commit_sink(
            changes.records.deep_view(),
            changes.outputs.deep_view(),
            changes.scoped_out as nat,
        ),
        None,
    )
}

/// The diff of commit `id`, or a document that says what went wrong. `data` is the commit's
/// object, and `changes` what it changes, each if it could be read.
pub fn compute_commit_diff(
    id: ObjectId,
    data: Result<Vec<u8>, String>,
    changes: Result<CommitChanges, String>,
) -> (r: DiffDocument)
    requires
        changes matches Ok(c) ==> all_wf(c.outputs.deep_view()),
    ensures
        ({
            let bytes = match data {
                Ok(d) => Ok::<Seq<u8>, Seq<char>>(d@),
                Err(e) => Err(e@),
            };
            let failed = match changes {
                Ok(_) => None,
                Err(e) => Some(e@),
            };
            match commit_diff_error(bytes, failed) {
                Some(e) => r@ == error_document(DiffTarget::Commit(id), e),
                None => exists|now: Clock|
                    now.wf() && r@ == #[trigger] commit_diff(now, id, data->Ok_0@, changes->Ok_0),
            }
        }),
{
    let target = DiffTarget::Commit(id);
    let bytes: Vec<u8> = match data {
        Ok(d) => d,
        Err(e) => {
            return empty_error_document(target, e.as_str());
        },
    };
    let now: Clock = read_clock();
    let header: Vec<DiffLine> = match commit_object_header_at(now, id, bytes.as_slice()) {
        Ok(lines) => lines,
        Err(e) => {
            return empty_error_document(target, e.as_str());
        },
    };
    match changes {
        Ok(c) => {
            let doc: DiffDocument = commit_document(id, header, &c.records, c.outputs, c.scoped_out);
            assert(doc@ == commit_diff(now, id, bytes@, changes->Ok_0));
            doc
        },
        Err(e) => empty_error_document(target, e.as_str()),
    }
}

/// The first parent is the first one listed, by its twenty bytes; a commit that lists none has
/// none, and one of another length is an error.
pub proof fn law_the_first_parent_is_the_first_listed(first: Seq<u8>, others: Seq<Seq<u8>>)
    ensures
        first.len() == 20 ==> first_id(seq![first] + others) == Ok::<Option<ObjectId>, Seq<char>>(
            Some(ObjectId::of_bytes(first)),
        ),
        first.len() != 20 ==> first_id(seq![first] + others) is Err,
        first_id(Seq::empty()) == Ok::<Option<ObjectId>, Seq<char>>(None),
{
}

/// The header of a commit names the commit by its whole id, then its author with the author's
/// date, then its committer with the committer's date, and then its message between two blank
/// lines, each line of it set in by four blanks.
pub proof fn law_the_header_tells_who_and_when(
    id: ObjectId,
    author: SignatureModel,
    committer: SignatureModel,
    authored: Seq<char>,
    committed: Seq<char>,
    text: CommitTextModel,
)
    ensures
        ({
            let lines = commit_header_lines(id, author, committer, (authored, committed), text);
            let body = if text.body is Some {
                text_lines(byte_text(text.body->0))
            } else {
                Seq::empty()
            };
            &&& lines.len() == 8 + body.len()
            &&& lines[0].kind == DiffLineKind::CommitHeader
            &&& lines[0].text == "commit "@ + id.hex()
            &&& lines[1].text == "Author:     "@ + byte_text(author.name) + " <"@ + byte_text(
                author.email,
            ) + ">"@
            &&& lines[2].text == "AuthorDate: "@ + authored
            &&& lines[3].text == "Commit:     "@ + byte_text(committer.name) + " <"@ + byte_text(
                committer.email,
            ) + ">"@
            &&& lines[4].text == "CommitDate: "@ + committed
            &&& lines[5].kind == DiffLineKind::Blank
            &&& lines[6].kind == DiffLineKind::Message
            &&& lines[6].text == "    "@ + byte_text(text.title)
            &&& forall|i: int|
                0 <= i < body.len() ==> (#[trigger] lines[7 + i]).kind == DiffLineKind::Message
                    && lines[7 + i].text == "    "@ + body[i]
            &&& lines.last().kind == DiffLineKind::Blank
            &&& forall|i: int| 1 <= i <= 4 ==> (#[trigger] lines[i]).kind == DiffLineKind::Meta
        }),
{
    let lines = commit_header_lines(id, author, committer, (authored, committed), text);
    let body = if text.body is Some {
        text_lines(byte_text(text.body->0))
    } else {
        Seq::empty()
    };
    let message = message_lines(text);
    assert(message.len() == 1 + body.len());
    assert(lines[6] == message[0]);
    assert forall|i: int| 0 <= i < body.len() implies (#[trigger] lines[7 + i]).kind
        == DiffLineKind::Message && lines[7 + i].text == "    "@ + body[i] by {
        assert(lines[7 + i] == message[1 + i]);
    }
}

/// The header of a commit can be told exactly if its message, its author, its committer and
/// both dates can be read; otherwise the first of them that cannot is the error.
pub proof fn law_a_header_needs_every_part(data: Seq<u8>)
    ensures
        header_error(data) is None <==> commit_text(data) is Ok && (commit_author(data) matches Ok(
            a,
        ) && a.seconds is Ok) && (commit_committer(data) matches Ok(c) && c.seconds is Ok),
        commit_text(data) matches Err(e) ==> header_error(data) == Some(e),
        commit_text(data) is Ok ==> (commit_author(data) matches Err(e) ==> header_error(data)
            == Some(e)),
        commit_text(data) is Ok && commit_author(data) is Ok ==> (commit_committer(
            data,
        ) matches Err(e) ==> header_error(data) == Some(e)),
{
}

/// The header of a commit object has its own author and committer, each with its own date.
pub proof fn law_each_date_is_that_of_its_person(now: Clock, id: ObjectId, data: Seq<u8>)
    requires
        header_error(data) is None,
    ensures
        ({
            let lines = object_header(now, id, data);
            let author = commit_author(data)->Ok_0;
            let committer = commit_committer(data)->Ok_0;
            &&& lines[0].text == "commit "@ + id.hex()
            &&& lines[1].text == "Author:     "@ + byte_text(author.name) + " <"@ + byte_text(
                author.email,
            ) + ">"@
            &&& lines[2].text == "AuthorDate: "@ + timestamp_text(now, author.seconds->Ok_0)
            &&& lines[3].text == "Commit:     "@ + byte_text(committer.name) + " <"@ + byte_text(
                committer.email,
            ) + ">"@
            &&& lines[4].text == "CommitDate: "@ + timestamp_text(now, committer.seconds->Ok_0)
        }),
{
}

/// A commit that cannot be read, that has a header that cannot be told, or whose changes
/// cannot be listed gives an error, the first of these; otherwise there is none.
pub proof fn law_the_first_failure_is_the_error(
    data: Result<Seq<u8>, Seq<char>>,
    changes: Option<Seq<char>>,
)
    ensures
        data matches Err(e) ==> commit_diff_error(data, changes) == Some(e),
        data matches Ok(d) ==> (header_error(d) matches Some(e) ==> commit_diff_error(data, changes)
            == Some(e)),
        data matches Ok(d) ==> (header_error(d) is None ==> commit_diff_error(data, changes)
            == changes),
{
}

/// The diff of a commit is about that commit: it has the commit's own header, and its body and
/// files are those of the commit's changes, with the changes that the path filter hides
/// counted.
pub proof fn law_a_commit_diff_has_its_own_header(
    now: Clock,
    id: ObjectId,
    data: Seq<u8>,
    changes: CommitChanges,
)
    ensures
        ({
            let d = commit_diff(now, id, data, changes);
            let sink = commit_sink(
                changes.records.deep_view(),
                changes.outputs.deep_view(),
                changes.scoped_out as nat,
            );
            &&& d.target == DiffTarget::Commit(id)
            &&& d.header == object_header(now, id, data)
            &&& d.body == sink.lines
            &&& d.files == sink.files
            &&& d.sections == sink.sections
            &&& d.stats == sink.stats
            &&& d.untracked_anchor is None
        }),
{
}

} // verus!
