//! Shared domain types. Nothing here renders: both the git side and the view
//! side consume them.

use vstd::prelude::*;

verus! {

/// A git object id: a SHA-1 hash, held as three big-endian words.
#[derive(Clone, Copy, PartialEq, Eq, Structural, Debug, Hash)]
pub struct ObjectId {
    pub head: u64,
    pub body: u64,
    pub tail: u32,
}

/// The lowercase hexadecimal digit `d`, for `d` below sixteen.
pub open spec fn hex_char(d: nat) -> char {
    if d < 10 {
        (48 + d) as char
    } else {
        (87 + d) as char
    }
}

/// The last `n` hexadecimal digits of `v`.
pub open spec fn hex_text(v: nat, n: nat) -> Seq<char>
    decreases n,
{
    if n == 0 {
        Seq::empty()
    } else {
        hex_text(v / 16, (n - 1) as nat).push(hex_char(v % 16))
    }
}

impl ObjectId {
    /// The forty hexadecimal digits of the id.
    pub open spec fn hex(self) -> Seq<char> {
        hex_text(self.head as nat, 16) + hex_text(self.body as nat, 16) + hex_text(
            self.tail as nat,
            8,
        )
    }

    /// The all-zero id.
    pub fn null() -> (r: ObjectId)
        ensures
            r == (ObjectId { head: 0, body: 0, tail: 0 }),
    {
        ObjectId { head: 0, body: 0, tail: 0 }
    }

    /// The id in hexadecimal, as `git` prints it.
    pub fn to_hex(&self) -> (r: String)
        ensures
            r@ == self.hex(),
            r@.len() == 40,
    {
        let mut out: String = String::new();
        push_hex(&mut out, self.head, 16);
        push_hex(&mut out, self.body, 16);
        push_hex(&mut out, self.tail as u64, 8);
        proof {
            lemma_hex_len(self.head as nat, 16);
            lemma_hex_len(self.body as nat, 16);
            lemma_hex_len(self.tail as nat, 8);
        }
        out
    }

    /// The first seven hexadecimal digits of the id.
    pub fn to_short_hex(&self) -> (r: String)
        ensures
            r@ == self.hex().take(7),
    {
        let full: String = self.to_hex();
        let chars: Vec<char> = crate::text::chars_of(full.as_str());
        let mut out: String = String::new();
        crate::text::push_chars(&mut out, &chars, 0, 7);
        out
    }
}

pub proof fn lemma_hex_len(v: nat, n: nat)
    ensures
        hex_text(v, n).len() == n,
    decreases n,
{
    if n > 0 {
        lemma_hex_len(v / 16, (n - 1) as nat);
    }
}

fn push_hex(out: &mut String, v: u64, n: u8)
    ensures
        final(out)@ == old(out)@ + hex_text(v as nat, n as nat),
    decreases n,
{
    if n > 0 {
        push_hex(out, v / 16, n - 1);
        let d: u8 = (v % 16) as u8;
        if d < 10 {
            out.push((48u8 + d) as char);
        } else {
            out.push((87u8 + d) as char);
        }
    }
}

/// The number that `bytes` spell, most significant byte first.
pub open spec fn be_value(bytes: Seq<u8>) -> nat
    decreases bytes.len(),
{
    if bytes.len() == 0 {
        0
    } else {
        be_value(bytes.drop_last()) * 256 + bytes.last() as nat
    }
}

spec fn byte_range(n: nat) -> nat
    decreases n,
{
    if n == 0 {
        1
    } else {
        256 * byte_range((n - 1) as nat)
    }
}

fn be_word(bytes: &[u8], from: usize, n: usize) -> (r: u64)
    requires
        n <= 8,
        from + n <= bytes@.len(),
    ensures
        r == be_value(bytes@.subrange(from as int, from + n)),
        r < byte_range(n as nat),
{
    let mut v: u64 = 0;
    let mut i: usize = 0;
    assert(bytes.len() == bytes@.len());
    while i < n
        invariant
            i <= n <= 8,
            from + n <= bytes@.len() <= usize::MAX,
            v == be_value(bytes@.subrange(from as int, from + i)),
            v < byte_range(i as nat),
        decreases n - i,
    {
        proof {
            reveal_with_fuel(byte_range, 9);
            let part = bytes@.subrange(from as int, from + i + 1);
            assert(part.drop_last() =~= bytes@.subrange(from as int, from + i));
        }
        v = v * 256 + bytes[from + i] as u64;
        i += 1;
    }
    v
}

impl ObjectId {
    /// The id whose twenty bytes are `bytes`.
    pub open spec fn of_bytes(bytes: Seq<u8>) -> ObjectId {
        ObjectId {
            head: be_value(bytes.subrange(0, 8)) as u64,
            body: be_value(bytes.subrange(8, 16)) as u64,
            tail: be_value(bytes.subrange(16, 20)) as u32,
        }
    }

    /// The id whose bytes are `bytes`; there is one for twenty bytes only.
    pub fn from_slice(bytes: &[u8]) -> (r: Option<ObjectId>)
        ensures
            r == (if bytes@.len() == 20 {
                Some(ObjectId::of_bytes(bytes@))
            } else {
                None
            }),
    {
        if bytes.len() != 20 {
            return None;
        }
        let head: u64 = be_word(bytes, 0, 8);
        let body: u64 = be_word(bytes, 8, 8);
        let tail: u64 = be_word(bytes, 16, 4);
        proof {
            reveal_with_fuel(byte_range, 9);
        }
        Some(ObjectId { head, body, tail: tail as u32 })
    }

    /// The order of ids: that of their bytes.
    pub open spec fn before(self, other: ObjectId) -> bool {
        self.head < other.head || (self.head == other.head && (self.body < other.body || (self.body
            == other.body && self.tail < other.tail)))
    }

    pub fn is_before(&self, other: &ObjectId) -> (r: bool)
        ensures
            r == self.before(*other),
    {
        self.head < other.head || (self.head == other.head && (self.body < other.body || (self.body
            == other.body && self.tail < other.tail)))
    }
}

/// Repository identity shown in the title bar.
#[derive(Debug)]
pub struct RepoInfo {
    pub name: String,
    pub branch: String,
    /// The path filter of the command line, if one was given.
    pub path_filter: Option<String>,
}

/// Wraps the path or pathspec passed on the command line.
#[derive(Debug)]
pub struct PathFilter {
    pub raw: String,
}

impl Clone for PathFilter {
    fn clone(&self) -> (r: PathFilter)
        ensures
            r == *self,
    {
        PathFilter { raw: self.raw.clone() }
    }
}

impl PathFilter {
    pub fn new(raw: &str) -> (r: PathFilter)
        ensures
            r.raw@ == raw@,
    {
        PathFilter { raw: raw.to_owned() }
    }

    pub fn as_str(&self) -> (r: &str)
        ensures
            r@ == self.raw@,
    {
        self.raw.as_str()
    }
}

#[derive(Clone, Copy, PartialEq, Eq, Structural, Debug)]
pub enum RefKind {
    Head,
    LocalBranch,
    RemoteBranch,
    Tag,
}

#[derive(Debug)]
pub struct RefLabel {
    pub name: String,
    pub kind: RefKind,
}

/// What a `RefLabel` says.
#[verifier::ext_equal]
pub struct RefLabelModel {
    pub name: Seq<char>,
    pub kind: RefKind,
}

impl View for RefLabel {
    type V = RefLabelModel;

    open spec fn view(&self) -> RefLabelModel {
        RefLabelModel { name: self.name@, kind: self.kind }
    }
}

impl DeepView for RefLabel {
    type V = RefLabelModel;

    open spec fn deep_view(&self) -> RefLabelModel {
        self@
    }
}

impl Clone for RefLabel {
    fn clone(&self) -> (r: RefLabel)
        ensures
            r == *self,
    {
        RefLabel { name: self.name.clone(), kind: self.kind }
    }
}

/// Lowercased projections of a commit's searchable fields.
#[derive(Debug)]
pub struct CommitSearchText {
    pub author_lower: String,
    pub summary_lower: String,
    /// Space-joined, lowercased names of every ref attached to the commit.
    pub refs_lower: String,
}

/// One indexed commit.
#[derive(Debug)]
pub struct CommitRecord {
    pub id: ObjectId,
    pub short_id: String,
    /// Author time in seconds since the epoch.
    pub authored_unix_secs: i64,
    /// Formatted relative timestamp ("2d ago").
    pub authored_relative: String,
    /// Full author name; the view truncates it to the active column width.
    pub author: String,
    pub summary: String,
    pub refs: Vec<RefLabel>,
    /// ASCII graph prefix; empty unless the graph was asked for.
    pub graph: String,
    pub search: CommitSearchText,
}

/// What a `CommitSearchText` says.
#[verifier::ext_equal]
pub struct SearchTextModel {
    pub author_lower: Seq<char>,
    pub summary_lower: Seq<char>,
    pub refs_lower: Seq<char>,
}

impl View for CommitSearchText {
    type V = SearchTextModel;

    open spec fn view(&self) -> SearchTextModel {
        SearchTextModel {
            author_lower: self.author_lower@,
            summary_lower: self.summary_lower@,
            refs_lower: self.refs_lower@,
        }
    }
}

/// What a `CommitRecord` says.
#[verifier::ext_equal]
pub struct CommitModel {
    pub id: ObjectId,
    pub short_id: Seq<char>,
    pub authored_unix_secs: i64,
    pub authored_relative: Seq<char>,
    pub author: Seq<char>,
    pub summary: Seq<char>,
    pub refs: Seq<RefLabelModel>,
    pub graph: Seq<char>,
    pub search: SearchTextModel,
}

impl View for CommitRecord {
    type V = CommitModel;

    open spec fn view(&self) -> CommitModel {
        CommitModel {
            id: self.id,
            short_id: self.short_id@,
            authored_unix_secs: self.authored_unix_secs,
            authored_relative: self.authored_relative@,
            author: self.author@,
            summary: self.summary@,
            refs: self.refs.deep_view(),
            graph: self.graph@,
            search: self.search@,
        }
    }
}

impl DeepView for CommitRecord {
    type V = CommitModel;

    open spec fn deep_view(&self) -> CommitModel {
        self@
    }
}

/// One branch, remote branch or tag of the refs view.
#[derive(Debug)]
pub struct RefEntry {
    pub name: String,
    pub kind: RefKind,
    pub target: ObjectId,
    pub summary: String,
    pub authored_relative: String,
}

/// One line of a blame view.
#[derive(Debug)]
pub struct BlameLine {
    pub commit_id: ObjectId,
    pub commit_short: String,
    pub author: String,
    pub authored_relative: String,
    /// The line's number, counted from one.
    pub line_no: u32,
    pub text: String,
    /// The path the line had in `commit_id`, where it differs from the blamed path.
    pub source_path: Option<String>,
}

/// What a `BlameLine` says.
#[verifier::ext_equal]
pub struct BlameLineModel {
    pub commit_id: ObjectId,
    pub commit_short: Seq<char>,
    pub author: Seq<char>,
    pub authored_relative: Seq<char>,
    pub line_no: u32,
    pub text: Seq<char>,
    pub source_path: Option<Seq<char>>,
}

impl View for BlameLine {
    type V = BlameLineModel;

    open spec fn view(&self) -> BlameLineModel {
        BlameLineModel {
            commit_id: self.commit_id,
            commit_short: self.commit_short@,
            author: self.author@,
            authored_relative: self.authored_relative@,
            line_no: self.line_no,
            text: self.text@,
            source_path: match self.source_path {
                Some(p) => Some(p@),
                None => None,
            },
        }
    }
}

impl DeepView for BlameLine {
    type V = BlameLineModel;

    open spec fn deep_view(&self) -> BlameLineModel {
        self@
    }
}

/// A file annotated line by line, as of commit `at`.
#[derive(Debug)]
pub struct BlameDocument {
    pub path: String,
    pub at: ObjectId,
    pub lines: Vec<BlameLine>,
}

#[derive(Clone, Copy, PartialEq, Eq, Structural, Debug, Hash)]
pub enum DiffTarget {
    Commit(ObjectId),
    WorkingTree,
    Staged,
}

#[derive(Clone, Copy, PartialEq, Eq, Structural, Debug)]
pub enum DiffLineKind {
    // Commit metadata
    CommitHeader,
    Meta,
    Message,
    Blank,
    // Per-file headers
    FileHeader,
    FileMeta,
    OldMarker,
    NewMarker,
    HunkHeader,
    // Diff bodies
    Add,
    Del,
    Context,
    // Diffstat block
    Diffstat,
    DiffstatTotal,
    // Status view
    SectionTitle,
    SectionStaged,
    SectionUnstaged,
    Faint,
    Good,
    StatusOurs,
    StatusTheirs,
}

#[derive(Debug)]
pub struct DiffLine {
    pub kind: DiffLineKind,
    pub text: String,
}

/// What a `DiffLine` says.
#[verifier::ext_equal]
pub struct LineModel {
    pub kind: DiffLineKind,
    pub text: Seq<char>,
}

/// The line model of kind `kind` with text `text`.
pub open spec fn line(kind: DiffLineKind, text: Seq<char>) -> LineModel {
    LineModel { kind, text }
}

impl View for DiffLine {
    type V = LineModel;

    open spec fn view(&self) -> LineModel {
        LineModel { kind: self.kind, text: self.text@ }
    }
}

impl DeepView for DiffLine {
    type V = LineModel;

    open spec fn deep_view(&self) -> LineModel {
        self@
    }
}

impl Clone for DiffLine {
    fn clone(&self) -> (r: DiffLine)
        ensures
            r == *self,
    {
        DiffLine { kind: self.kind, text: self.text.clone() }
    }
}

impl DiffLine {
    pub fn new(kind: DiffLineKind, text: &str) -> (r: DiffLine)
        ensures
            r@ == line(kind, text@),
    {
        DiffLine { kind, text: text.to_owned() }
    }
}

/// Totals of a diff.
#[derive(Clone, Copy, PartialEq, Eq, Structural, Debug)]
pub struct DiffStats {
    pub files: usize,
    pub insertions: usize,
    pub deletions: usize,
}

/// How the guardrails shaped a diff.
#[derive(Clone, Copy, PartialEq, Eq, Structural, Debug)]
pub struct DiffFlags {
    pub truncated: bool,
    pub skipped_binary_files: usize,
    pub skipped_large_files: usize,
}

impl Default for DiffFlags {
    fn default() -> (r: DiffFlags)
        ensures
            r == (DiffFlags { truncated: false, skipped_binary_files: 0, skipped_large_files: 0 }),
    {
        DiffFlags { truncated: false, skipped_binary_files: 0, skipped_large_files: 0 }
    }
}

#[derive(Debug)]
pub struct FileStat {
    pub path: String,
    pub additions: usize,
    pub deletions: usize,
}

/// What a `FileStat` says.
#[verifier::ext_equal]
pub struct FileStatModel {
    pub path: Seq<char>,
    pub additions: usize,
    pub deletions: usize,
}

impl View for FileStat {
    type V = FileStatModel;

    open spec fn view(&self) -> FileStatModel {
        FileStatModel {
            path: self.path@,
            additions: self.additions,
            deletions: self.deletions,
        }
    }
}

impl DeepView for FileStat {
    type V = FileStatModel;

    open spec fn deep_view(&self) -> FileStatModel {
        self@
    }
}

/// One file's slice of a `DiffDocument::body`.
#[derive(Debug)]
pub struct FileSection {
    pub path: String,
    /// Index into `body` of the file's first header line.
    pub body_start: usize,
}

/// What a `FileSection` says.
#[verifier::ext_equal]
pub struct SectionModel {
    pub path: Seq<char>,
    pub body_start: usize,
}

impl View for FileSection {
    type V = SectionModel;

    open spec fn view(&self) -> SectionModel {
        SectionModel { path: self.path@, body_start: self.body_start }
    }
}

impl DeepView for FileSection {
    type V = SectionModel;

    open spec fn deep_view(&self) -> SectionModel {
        self@
    }
}

/// A complete diff, as the inspect path produces it.
#[derive(Debug)]
pub struct DiffDocument {
    pub target: DiffTarget,
    pub header: Vec<DiffLine>,
    pub body: Vec<DiffLine>,
    pub files: Vec<FileStat>,
    pub stats: DiffStats,
    pub flags: DiffFlags,
    /// Index in `body` of the placeholder line that stands for the untracked files until
    /// they are known; `None` once they are, and for commit diffs.
    pub untracked_anchor: Option<usize>,
    /// Start of each rendered file in `body`, in render order.
    pub sections: Vec<FileSection>,
}

/// What a `DiffDocument` says.
#[verifier::ext_equal]
pub struct DocumentModel {
    pub target: DiffTarget,
    pub header: Seq<LineModel>,
    pub body: Seq<LineModel>,
    pub files: Seq<FileStatModel>,
    pub stats: DiffStats,
    pub flags: DiffFlags,
    pub untracked_anchor: Option<usize>,
    pub sections: Seq<SectionModel>,
}

impl View for DiffDocument {
    type V = DocumentModel;

    open spec fn view(&self) -> DocumentModel {
        DocumentModel {
            target: self.target,
            header: self.header.deep_view(),
            body: self.body.deep_view(),
            files: self.files.deep_view(),
            stats: self.stats,
            flags: self.flags,
            untracked_anchor: self.untracked_anchor,
            sections: self.sections.deep_view(),
        }
    }
}

#[derive(Debug)]
pub struct StatusDocument {
    pub lines: Vec<DiffLine>,
}

proof fn lemma_hex_of_bytes(bytes: Seq<u8>)
    requires
        bytes.len() <= 8,
    ensures
        be_value(bytes) < byte_range(bytes.len()),
        hex_text(be_value(bytes), 2 * bytes.len()).len() == 2 * bytes.len(),
        forall|i: int|
            0 <= i < bytes.len() ==> {
                let text = hex_text(be_value(bytes), 2 * bytes.len());
                &&& text[2 * i] == "0123456789abcdef"@[bytes[i] as int / 16]
                &&& text[2 * i + 1] == "0123456789abcdef"@[#[trigger] bytes[i] as int % 16]
            },
    decreases bytes.len(),
{
    reveal_with_fuel(hex_text, 3);
    if bytes.len() > 0 {
        let less = bytes.drop_last();
        let w = be_value(less);
        let v = be_value(bytes);
        let b = bytes.last() as nat;
        lemma_hex_of_bytes(less);
        assert(v == w * 256 + b);
        assert(v / 16 / 16 == w && v % 16 == b % 16 && (v / 16) % 16 == b / 16);
        lemma_hex_digit(b / 16);
        lemma_hex_digit(b % 16);
        let n = 2 * bytes.len();
        let text = hex_text(v, n);
        let front = hex_text(w, (n - 2) as nat);
        assert(text == front.push(hex_char(b / 16)).push(hex_char(b % 16)));
        assert forall|i: int| 0 <= i < bytes.len() implies text[2 * i]
            == "0123456789abcdef"@[bytes[i] as int / 16] && text[2 * i + 1]
            == "0123456789abcdef"@[#[trigger] bytes[i] as int % 16] by {
            if i < less.len() {
                assert(less[i] == bytes[i]);
            }
        }
    }
}

proof fn lemma_hex_digit(d: nat)
    requires
        d < 16,
    ensures
        hex_char(d) == "0123456789abcdef"@[d as int],
{
    reveal_strlit("0123456789abcdef");
}

/// The text of an id spells its twenty bytes in order, each by two hexadecimal digits in
/// lower case, the higher one first.
pub proof fn law_hex_spells_the_bytes(bytes: Seq<u8>, i: int)
    requires
        bytes.len() == 20,
        0 <= i < 20,
    ensures
        ObjectId::of_bytes(bytes).hex().len() == 40,
        ObjectId::of_bytes(bytes).hex()[2 * i] == "0123456789abcdef"@[bytes[i] as int / 16],
        ObjectId::of_bytes(bytes).hex()[2 * i + 1] == "0123456789abcdef"@[bytes[i] as int % 16],
{
    reveal_with_fuel(byte_range, 9);
    let a = bytes.subrange(0, 8);
    let b = bytes.subrange(8, 16);
    let c = bytes.subrange(16, 20);
    lemma_hex_of_bytes(a);
    lemma_hex_of_bytes(b);
    lemma_hex_of_bytes(c);
    if i < 8 {
        assert(a[i] == bytes[i]);
    } else if i < 16 {
        assert(b[i - 8] == bytes[i]);
    } else {
        assert(c[i - 16] == bytes[i]);
    }
}

/// Ids are ordered like the numbers that their bytes spell.
pub proof fn law_ids_are_ordered_as_numbers(a: ObjectId, b: ObjectId)
    ensures
        a.before(b) <==> a.head * 79228162514264337593543950336 + a.body * 4294967296 + a.tail
            < b.head * 79228162514264337593543950336 + b.body * 4294967296 + b.tail,
{
}

} // verus!
