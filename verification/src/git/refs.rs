//! Branches and tags: the labels of each commit, and the listing of the refs
//! view.

use crate::git::commit::{commit_author, commit_text, decode_author, decode_commit};
use crate::git::diff::{byte_string, byte_text};
use crate::git::meta::{age_text, all_readings, read_clock, relative_time_at, Clock};
use crate::model::{ObjectId, RefEntry, RefKind, RefLabel, RefLabelModel};
use crate::text::{
    comes_before, has_prefix, law_trimming_cuts_white_space_at_the_end,
    lemma_text_before_irreflexive, lemma_text_before_total,
    lemma_text_before_transitive, same_text, strip_prefix_of, text_before, trim_end_white,
    trim_white_end,
};
use vstd::prelude::*;

verus! {

/// The branch, remote branch or tag that a full ref name names.
pub open spec fn branch_or_tag(full: Seq<char>) -> Option<RefLabelModel> {
    if has_prefix(full, "refs/heads/"@) {
        Some(
            RefLabelModel {
                name: full.skip("refs/heads/"@.len() as int),
                kind: RefKind::LocalBranch,
            },
        )
    } else if has_prefix(full, "refs/remotes/"@) {
        Some(
            RefLabelModel {
                name: full.skip("refs/remotes/"@.len() as int),
                kind: RefKind::RemoteBranch,
            },
        )
    } else if has_prefix(full, "refs/tags/"@) {
        Some(RefLabelModel { name: full.skip("refs/tags/"@.len() as int), kind: RefKind::Tag })
    } else {
        None
    }
}

/// The label of a ref in the log: `HEAD`, or what `branch_or_tag` gives.
pub open spec fn log_label(full: Seq<char>) -> Option<RefLabelModel> {
    if full == "HEAD"@ {
        Some(RefLabelModel { name: "HEAD"@, kind: RefKind::Head })
    } else {
        branch_or_tag(full)
    }
}

/// The view of an optional label.
pub open spec fn label_view(label: Option<RefLabel>) -> Option<RefLabelModel> {
    match label {
        Some(l) => Some(l@),
        None => None,
    }
}

fn classify_branch_or_tag(full: &str) -> (r: Option<RefLabel>)
    ensures
        label_view(r) == branch_or_tag(full@),
{
    if let Some(name) = strip_prefix_of(full, "refs/heads/") {
        Some(RefLabel { name, kind: RefKind::LocalBranch })
    } else if let Some(name) = strip_prefix_of(full, "refs/remotes/") {
        Some(RefLabel { name, kind: RefKind::RemoteBranch })
    } else if let Some(name) = strip_prefix_of(full, "refs/tags/") {
        Some(RefLabel { name, kind: RefKind::Tag })
    } else {
        None
    }
}

/// The label of a ref in the log.
pub fn classify_ref(full: &str) -> (r: Option<RefLabel>)
    ensures
        label_view(r) == log_label(full@),
{
    if same_text(full, "HEAD") {
        Some(RefLabel { name: "HEAD".to_owned(), kind: RefKind::Head })
    } else {
        classify_branch_or_tag(full)
    }
}

/// The labels of one commit.
#[derive(Debug)]
pub struct RefsEntry {
    pub id: ObjectId,
    pub labels: Vec<RefLabel>,
}

/// What a `RefsEntry` says.
#[verifier::ext_equal]
pub struct RefsEntryModel {
    pub id: ObjectId,
    pub labels: Seq<RefLabelModel>,
}

impl View for RefsEntry {
    type V = RefsEntryModel;

    open spec fn view(&self) -> RefsEntryModel {
        RefsEntryModel { id: self.id, labels: self.labels.deep_view() }
    }
}

impl DeepView for RefsEntry {
    type V = RefsEntryModel;

    open spec fn deep_view(&self) -> RefsEntryModel {
        self@
    }
}

/// The labels of each commit that has some. The entries are sorted by id.
#[derive(Debug)]
pub struct RefsMap {
    pub entries: Vec<RefsEntry>,
}

/// The entries come in id order, and no id occurs twice.
pub open spec fn ids_sorted(entries: Seq<RefsEntryModel>) -> bool {
    forall|i: int, j: int|
        0 <= i < j < entries.len() ==> (#[trigger] entries[i]).id.before((#[trigger] entries[j]).id)
}

/// `i` is where `id` stands in `entries`.
pub open spec fn id_at(entries: Seq<RefsEntryModel>, id: ObjectId, i: int) -> bool {
    0 <= i < entries.len() && entries[i].id == id
}

/// The labels by commit.
pub open spec fn labels_map(entries: Seq<RefsEntryModel>) -> Map<ObjectId, Seq<RefLabelModel>> {
    Map::new(
        |id: ObjectId| exists|i: int| id_at(entries, id, i),
        |id: ObjectId| entries[choose|i: int| id_at(entries, id, i)].labels,
    )
}

/// The labels of commit `id`; none if it has none.
pub open spec fn labels_of(map: Map<ObjectId, Seq<RefLabelModel>>, id: ObjectId) -> Seq<
    RefLabelModel,
> {
    if map.contains_key(id) {
        map[id]
    } else {
        Seq::empty()
    }
}

proof fn lemma_labels_map(entries: Seq<RefsEntryModel>, i: int)
    requires
        ids_sorted(entries),
        0 <= i < entries.len(),
    ensures
        labels_map(entries).contains_key(entries[i].id),
        labels_map(entries)[entries[i].id] == entries[i].labels,
{
    let id = entries[i].id;
    assert(id_at(entries, id, i));
    let k = choose|k: int| id_at(entries, id, k);
    assert(k == i);
}

proof fn lemma_labels_update(
    before: Seq<RefsEntryModel>,
    after: Seq<RefsEntryModel>,
    i: int,
    fresh: bool,
)
    requires
        ids_sorted(before),
        ids_sorted(after),
        0 <= i < after.len(),
        fresh ==> i <= before.len() && after == before.insert(i, after[i]),
        !fresh ==> i < before.len() && after == before.update(i, after[i]) && after[i].id
            == before[i].id,
    ensures
        labels_map(after) == labels_map(before).insert(after[i].id, after[i].labels),
{
    let id = after[i].id;
    let target = labels_map(before).insert(id, after[i].labels);
    assert forall|p: ObjectId| labels_map(after).contains_key(p) <==> target.contains_key(p) by {
        if labels_map(after).contains_key(p) {
            let k = choose|k: int| id_at(after, p, k);
            if k != i {
                let src = if fresh && k > i {
                    k - 1
                } else {
                    k
                };
                assert(id_at(before, p, src));
            }
        }
        if target.contains_key(p) {
            if p == id {
                assert(id_at(after, p, i));
            } else {
                let k = choose|k: int| id_at(before, p, k);
                let dst = if fresh && k >= i {
                    k + 1
                } else {
                    k
                };
                assert(id_at(after, p, dst));
            }
        }
    }
    assert forall|p: ObjectId| labels_map(after).contains_key(p) implies labels_map(after)[p]
        == target[p] by {
        let k = choose|k: int| id_at(after, p, k);
        lemma_labels_map(after, k);
        if p == id {
            lemma_labels_map(after, i);
        } else {
            let src = if fresh && k > i {
                k - 1
            } else {
                k
            };
            assert(before[src] == after[k]);
            lemma_labels_map(before, src);
        }
    }
    assert(labels_map(after) =~= target);
}

impl RefsMap {
    pub open spec fn wf(self) -> bool {
        ids_sorted(self.entries.deep_view())
    }

    /// The labels by commit.
    pub open spec fn labels(self) -> Map<ObjectId, Seq<RefLabelModel>> {
        labels_map(self.entries.deep_view())
    }

    pub fn new() -> (r: RefsMap)
        ensures
            r.wf(),
            r.labels() == Map::<ObjectId, Seq<RefLabelModel>>::empty(),
    {
        let r = RefsMap { entries: Vec::new() };
        assert(r.labels() =~= Map::<ObjectId, Seq<RefLabelModel>>::empty());
        r
    }

    /// Whether the entries come in id order, and no id occurs twice.
    pub fn is_ordered(&self) -> (r: bool)
        ensures
            r == self.wf(),
    {
        let ghost all = self.entries.deep_view();
        let mut i: usize = 1;
        while i < self.entries.len()
            invariant
                1 <= i,
                i <= self.entries@.len() || self.entries@.len() == 0,
                all == self.entries.deep_view(),
                forall|j: int, k: int|
                    0 <= j < k < i && k < all.len() ==> (#[trigger] all[j]).id.before(
                        (#[trigger] all[k]).id,
                    ),
            decreases self.entries@.len() - i,
        {
            assert(all[i - 1].id == self.entries@[i - 1].id);
            assert(all[i as int].id == self.entries@[i as int].id);
            if !self.entries[i - 1].id.is_before(&self.entries[i].id) {
                return false;
            }
            i += 1;
        }
        true
    }

    /// The position of `id`, or the one where it belongs.
    fn position(&self, id: ObjectId) -> (r: (usize, bool))
        requires
            self.wf(),
        ensures
            r.0 <= self.entries@.len(),
            r.1 ==> r.0 < self.entries@.len() && self.entries@[r.0 as int].id == id,
            forall|j: int|
                0 <= j < r.0 ==> (#[trigger] self.entries.deep_view()[j]).id.before(id),
            forall|j: int|
                r.0 + (if r.1 {
                    1int
                } else {
                    0int
                }) <= j < self.entries@.len() ==> id.before(
                    (#[trigger] self.entries.deep_view()[j]).id,
                ),
    {
        let ghost all = self.entries.deep_view();
        let mut lo: usize = 0;
        let mut hi: usize = self.entries.len();
        while lo < hi
            invariant
                self.wf(),
                all == self.entries.deep_view(),
                lo <= hi <= self.entries@.len(),
                forall|j: int| 0 <= j < lo ==> (#[trigger] all[j]).id.before(id),
                forall|j: int| hi <= j < all.len() ==> id.before((#[trigger] all[j]).id),
            decreases hi - lo,
        {
            let mid: usize = lo + (hi - lo) / 2;
            let here: ObjectId = self.entries[mid].id;
            assert(all[mid as int].id == here);
            if here == id {
                return (mid, true);
            }
            if here.is_before(&id) {
                lo = mid + 1;
            } else {
                hi = mid;
            }
        }
        (lo, false)
    }

    proof fn lemma_absent(self, at: usize, id: ObjectId)
        requires
            self.wf(),
            at <= self.entries@.len(),
            forall|j: int| 0 <= j < at ==> (#[trigger] self.entries.deep_view()[j]).id.before(id),
            forall|j: int|
                at <= j < self.entries@.len() ==> id.before(
                    (#[trigger] self.entries.deep_view()[j]).id,
                ),
        ensures
            !self.labels().contains_key(id),
    {
        let all = self.entries.deep_view();
        if self.labels().contains_key(id) {
            let k = choose|k: int| id_at(all, id, k);
            assert(all[k].id == id);
        }
    }

    /// The labels of commit `id`.
    pub fn get(&self, id: ObjectId) -> (r: Option<&Vec<RefLabel>>)
        requires
            self.wf(),
        ensures
            match r {
                Some(v) => self.labels().contains_key(id) && v.deep_view() == self.labels()[id],
                None => !self.labels().contains_key(id),
            },
    {
        let at: (usize, bool) = self.position(id);
        if at.1 {
            proof {
                lemma_labels_map(self.entries.deep_view(), at.0 as int);
            }
            Some(&self.entries[at.0].labels)
        } else {
            proof {
                self.lemma_absent(at.0, id);
            }
            None
        }
    }

    /// Adds a label to commit `id`, in front of its others or behind them.
    pub fn add_label(&mut self, id: ObjectId, label: RefLabel, in_front: bool)
        requires
            old(self).wf(),
        ensures
            final(self).wf(),
            final(self).labels() == old(self).labels().insert(
                id,
                if in_front {
                    seq![label@] + labels_of(old(self).labels(), id)
                } else {
                    labels_of(old(self).labels(), id).push(label@)
                },
            ),
    {
        let ghost before = self.entries.deep_view();
        let ghost map = self.labels();
        let ghost lab = label@;
        let at: (usize, bool) = self.position(id);
        if at.1 {
            proof {
                lemma_labels_map(before, at.0 as int);
            }
            let mut entry: RefsEntry = self.entries.remove(at.0);
            let ghost old_labels = entry.labels.deep_view();
            if in_front {
                entry.labels.insert(0, label);
                assert(entry.labels.deep_view() =~= seq![lab] + old_labels);
            } else {
                entry.labels.push(label);
                assert(entry.labels.deep_view() =~= old_labels.push(lab));
            }
            self.entries.insert(at.0, entry);
            proof {
                let after = self.entries.deep_view();
                assert(after =~= before.update(at.0 as int, entry@));
                assert forall|i: int, j: int| 0 <= i < j < after.len() implies (
                #[trigger] after[i]).id.before((#[trigger] after[j]).id) by {
                    assert(before[i].id == after[i].id);
                    assert(before[j].id == after[j].id);
                }
                lemma_labels_update(before, after, at.0 as int, false);
            }
        } else {
            proof {
                self.lemma_absent(at.0, id);
            }
            let mut labels: Vec<RefLabel> = Vec::new();
            labels.push(label);
            assert(labels.deep_view() =~= seq![lab]);
            assert(labels.deep_view() =~= Seq::<RefLabelModel>::empty().push(lab));
            assert(labels.deep_view() =~= seq![lab] + Seq::<RefLabelModel>::empty());
            let entry = RefsEntry { id, labels };
            self.entries.insert(at.0, entry);
            proof {
                let after = self.entries.deep_view();
                let k = at.0 as int;
                assert(after =~= before.insert(k, entry@));
                assert forall|i: int, j: int| 0 <= i < j < after.len() implies (
                #[trigger] after[i]).id.before((#[trigger] after[j]).id) by {
                    if i == k {
                        assert(before[j - 1] == after[j]);
                    } else if j == k {
                        assert(before[i] == after[i]);
                    } else {
                        let si = if i < k {
                            i
                        } else {
                            i - 1
                        };
                        let sj = if j < k {
                            j
                        } else {
                            j - 1
                        };
                        assert(before[si] == after[i]);
                        assert(before[sj] == after[j]);
                    }
                }
                lemma_labels_update(before, after, k, true);
            }
        }
    }
}

/// A ref as the repository lists it: its full name, and the object it points at, unless it
/// points at another ref.
#[derive(Debug)]
pub struct RawRef {
    pub full_name: String,
    pub target: Option<ObjectId>,
}

/// What a `RawRef` says.
#[verifier::ext_equal]
pub struct RawRefModel {
    pub full_name: Seq<char>,
    pub target: Option<ObjectId>,
}

impl View for RawRef {
    type V = RawRefModel;

    open spec fn view(&self) -> RawRefModel {
        RawRefModel { full_name: self.full_name@, target: self.target }
    }
}

impl DeepView for RawRef {
    type V = RawRefModel;

    open spec fn deep_view(&self) -> RawRefModel {
        self@
    }
}

/// The labels of the listed refs, each behind those before it.
pub open spec fn labels_of_refs(refs: Seq<RawRefModel>) -> Map<ObjectId, Seq<RefLabelModel>>
    decreases refs.len(),
{
    if refs.len() == 0 {
        Map::empty()
    } else {
        let rest = labels_of_refs(refs.drop_last());
        match (refs.last().target, log_label(refs.last().full_name)) {
            (Some(id), Some(label)) => rest.insert(id, labels_of(rest, id).push(label)),
            _ => rest,
        }
    }
}

/// Whether one of the labels is that of the checked-out commit.
pub open spec fn has_head(labels: Seq<RefLabelModel>) -> bool {
    exists|i: int| 0 <= i < labels.len() && (#[trigger] labels[i]).kind == RefKind::Head
}

/// The labels of the log: those of the listed refs, and `HEAD` in front of those of the
/// checked-out commit, unless it is among them.
pub open spec fn log_labels(refs: Seq<RawRefModel>, head: Option<ObjectId>) -> Map<
    ObjectId,
    Seq<RefLabelModel>,
> {
    let map = labels_of_refs(refs);
    match head {
        Some(id) => if has_head(labels_of(map, id)) {
            map
        } else {
            map.insert(
                id,
                seq![RefLabelModel { name: "HEAD"@, kind: RefKind::Head }] + labels_of(map, id),
            )
        },
        None => map,
    }
}

fn any_head(labels: &Vec<RefLabel>) -> (r: bool)
    ensures
        r == has_head(labels.deep_view()),
{
    let mut i: usize = 0;
    while i < labels.len()
        invariant
            i <= labels@.len(),
            forall|j: int|
                0 <= j < i ==> (#[trigger] labels.deep_view()[j]).kind != RefKind::Head,
        decreases labels@.len() - i,
    {
        if labels[i].kind == RefKind::Head {
            assert(labels.deep_view()[i as int].kind == RefKind::Head);
            return true;
        }
        i += 1;
    }
    false
}

/// Groups the listed refs by the commit they label. `head` is the checked-out commit.
pub fn load_refs(refs: Vec<RawRef>, head: Option<ObjectId>) -> (r: RefsMap)
    ensures
        r.wf(),
        r.labels() == log_labels(refs.deep_view(), head),
{
    let mut map: RefsMap = RefsMap::new();
    let ghost raw = refs@;
    let ghost all = refs.deep_view();
    assert(all.take(0) =~= Seq::empty());
    for item in it: refs
        invariant
            it.seq() == raw,
            all == Seq::new(raw.len(), |i: int| raw[i]@),
            map.wf(),
            map.labels() == labels_of_refs(all.take(it.index() as int)),
    {
        proof {
            assert(all.take(it.index() + 1).drop_last() =~= all.take(it.index() as int));
            assert(all.take(it.index() + 1).last() == item@);
        }
        if let Some(id) = item.target {
            if let Some(label) = classify_ref(item.full_name.as_str()) {
                map.add_label(id, label, false);
            }
        }
    }
    assert(all.take(all.len() as int) =~= all);
    if let Some(id) = head {
        let found: bool = match map.get(id) {
            Some(labels) => any_head(labels),
            None => false,
        };
        if !found {
            map.add_label(id, RefLabel { name: "HEAD".to_owned(), kind: RefKind::Head }, true);
        }
    }
    map
}

/// What a `RefEntry` says.
#[verifier::ext_equal]
pub struct RefEntryModel {
    pub name: Seq<char>,
    pub kind: RefKind,
    pub target: ObjectId,
    pub summary: Seq<char>,
    pub authored_relative: Seq<char>,
}

impl View for RefEntry {
    type V = RefEntryModel;

    open spec fn view(&self) -> RefEntryModel {
        RefEntryModel {
            name: self.name@,
            kind: self.kind,
            target: self.target,
            summary: self.summary@,
            authored_relative: self.authored_relative@,
        }
    }
}

impl DeepView for RefEntry {
    type V = RefEntryModel;

    open spec fn deep_view(&self) -> RefEntryModel {
        self@
    }
}

/// When the commit object `data` was written; the epoch where that cannot be read.
pub open spec fn authored_seconds(data: Seq<u8>) -> i64 {
    match commit_author(data) {
        Ok(who) => match who.seconds {
            Ok(s) => s,
            Err(_) => 0,
        },
        Err(_) => 0,
    }
}

/// When the commit object `data` was written; the epoch where that cannot be read.
pub fn author_seconds(data: &[u8]) -> (r: i64)
    ensures
        r == authored_seconds(data@),
{
    match decode_author(data) {
        Ok(who) => match who.seconds {
            Ok(s) => s,
            Err(_) => 0,
        },
        Err(_) => 0,
    }
}

/// The refs-view entry of one ref, as it is at `now`: `data` is the commit object that it
/// leads to, with id `target`. Only branches and tags have one. Of a commit that cannot be
/// read it shows neither summary nor age.
pub open spec fn entry_of(now: Clock, full_name: Seq<char>, target: ObjectId, data: Seq<u8>) -> Option<
    RefEntryModel,
> {
    match branch_or_tag(full_name) {
        Some(label) => Some(
            RefEntryModel {
                name: label.name,
                kind: label.kind,
                target,
                summary: match commit_text(data) {
                    Ok(t) => trim_white_end(byte_text(t.title)),
                    Err(_) => Seq::empty(),
                },
                authored_relative: match commit_text(data) {
                    Ok(_) => age_text(now, authored_seconds(data)),
                    Err(_) => Seq::empty(),
                },
            },
        ),
        None => None,
    }
}

/// The view of an optional entry.
pub open spec fn entry_view(entry: Option<RefEntry>) -> Option<RefEntryModel> {
    match entry {
        Some(e) => Some(e@),
        None => None,
    }
}

/// The refs-view entry of one ref, as it is at `now`.
pub fn ref_entry_at(now: Clock, full_name: &str, target: ObjectId, data: &[u8]) -> (r: Option<
    RefEntry,
>)
    requires
        now.wf(),
    ensures
        entry_view(r) == entry_of(now, full_name@, target, data@),
{
    let label: RefLabel = match classify_branch_or_tag(full_name) {
        Some(l) => l,
        None => {
            return None;
        },
    };
    let entry: RefEntry = match decode_commit(data) {
        Ok(text) => {
            let title: String = byte_string(text.title.as_slice());
            let summary: String = trim_end_white(title.as_str());
            let authored_relative: String = relative_time_at(now, author_seconds(data));
            RefEntry { name: label.name, kind: label.kind, target, summary, authored_relative }
        },
        Err(_) => RefEntry {
            name: label.name,
            kind: label.kind,
            target,
            summary: String::new(),
            authored_relative: String::new(),
        },
    };
    assert(entry@ =~= entry_of(now, full_name@, target, data@)->0);
    Some(entry)
}

/// The refs-view entry of one ref.
pub fn ref_entry(full_name: &str, target: ObjectId, data: &[u8]) -> (r: Option<RefEntry>)
    ensures
        exists|now: Clock|
            now.wf() && entry_view(r) == #[trigger] entry_of(now, full_name@, target, data@),
{
    let now: Clock = read_clock();
    ref_entry_at(now, full_name, target, data)
}

/// A ref with the commit that it leads to, and that commit's object.
#[derive(Debug)]
pub struct PeeledRef {
    pub full_name: String,
    pub target: ObjectId,
    pub data: Vec<u8>,
}

/// What a `PeeledRef` says.
#[verifier::ext_equal]
pub struct PeeledRefModel {
    pub full_name: Seq<char>,
    pub target: ObjectId,
    pub data: Seq<u8>,
}

impl View for PeeledRef {
    type V = PeeledRefModel;

    open spec fn view(&self) -> PeeledRefModel {
        PeeledRefModel { full_name: self.full_name@, target: self.target, data: self.data@ }
    }
}

impl DeepView for PeeledRef {
    type V = PeeledRefModel;

    open spec fn deep_view(&self) -> PeeledRefModel {
        self@
    }
}

/// The entries of `refs`, in order, where `moments` are the readings of the clock at which
/// they are made.
pub open spec fn listed(refs: Seq<PeeledRefModel>, moments: Seq<Clock>) -> Seq<RefEntryModel>
    decreases refs.len(),
{
    if refs.len() == 0 {
        Seq::empty()
    } else {
        let last = refs.last();
        let before = listed(refs.drop_last(), moments.drop_last());
        match entry_of(moments.last(), last.full_name, last.target, last.data) {
            Some(e) => before.push(e),
            None => before,
        }
    }
}

/// The listing of the refs view: the branches and tags among `refs`, sorted.
pub fn load_ref_entries(refs: &Vec<PeeledRef>) -> (r: Vec<RefEntry>)
    ensures
        exists|moments: Seq<Clock>|
            moments.len() == refs@.len() && all_readings(moments) && r.deep_view()
                == sorted_entries(#[trigger] listed(refs.deep_view(), moments)),
{
    let mut entries: Vec<RefEntry> = Vec::new();
    let ghost all = refs.deep_view();
    let ghost mut moments: Seq<Clock> = Seq::empty();
    let mut i: usize = 0;
    assert(all.take(0) =~= Seq::empty());
    assert(entries.deep_view() =~= Seq::empty());
    while i < refs.len()
        invariant
            i <= refs@.len(),
            all == refs.deep_view(),
            moments.len() == i,
            all_readings(moments),
            entries.deep_view() == listed(all.take(i as int), moments),
        decreases refs@.len() - i,
    {
        let now: Clock = read_clock();
        let made: Option<RefEntry> = ref_entry_at(
            now,
            refs[i].full_name.as_str(),
            refs[i].target,
            refs[i].data.as_slice(),
        );
        let ghost before = entries.deep_view();
        proof {
            assert(all.take(i + 1).drop_last() =~= all.take(i as int));
            assert(all.take(i + 1).last() == refs@[i as int]@);
            assert(moments.push(now).drop_last() =~= moments);
            moments = moments.push(now);
        }
        if let Some(e) = made {
            let ghost m = e@;
            entries.push(e);
            assert(entries.deep_view() =~= before.push(m));
        }
        i += 1;
    }
    assert(all.take(i as int) =~= all);
    sort_ref_entries(entries)
}

/// Branches come before remote branches, and those before tags.
pub open spec fn kind_rank(kind: RefKind) -> int {
    match kind {
        RefKind::Head => 0,
        RefKind::LocalBranch => 0,
        RefKind::RemoteBranch => 1,
        RefKind::Tag => 2,
    }
}

/// The order of the refs view: by kind, then by name.
pub open spec fn entry_before(a: RefEntryModel, b: RefEntryModel) -> bool {
    kind_rank(a.kind) < kind_rank(b.kind) || (kind_rank(a.kind) == kind_rank(b.kind)
        && text_before(a.name, b.name))
}

fn rank_of(kind: RefKind) -> (r: u8)
    ensures
        r == kind_rank(kind),
{
    match kind {
        RefKind::Head => 0,
        RefKind::LocalBranch => 0,
        RefKind::RemoteBranch => 1,
        RefKind::Tag => 2,
    }
}

fn is_entry_before(a: &RefEntry, b: &RefEntry) -> (r: bool)
    ensures
        r == entry_before(a@, b@),
{
    let ra: u8 = rank_of(a.kind);
    let rb: u8 = rank_of(b.kind);
    ra < rb || (ra == rb && comes_before(a.name.as_str(), b.name.as_str()))
}

/// `entry` put into `sorted` behind all entries that do not come after it.
pub open spec fn insert_entry(sorted: Seq<RefEntryModel>, entry: RefEntryModel) -> Seq<
    RefEntryModel,
>
    decreases sorted.len(),
{
    if sorted.len() > 0 && entry_before(entry, sorted.last()) {
        insert_entry(sorted.drop_last(), entry).push(sorted.last())
    } else {
        sorted.push(entry)
    }
}

/// `entries` sorted; what is equal in order keeps its order.
pub open spec fn sorted_entries(entries: Seq<RefEntryModel>) -> Seq<RefEntryModel>
    decreases entries.len(),
{
    if entries.len() == 0 {
        Seq::empty()
    } else {
        insert_entry(sorted_entries(entries.drop_last()), entries.last())
    }
}

fn insert_ref_entry(sorted: &mut Vec<RefEntry>, entry: RefEntry)
    ensures
        final(sorted).deep_view() == insert_entry(old(sorted).deep_view(), entry@),
{
    let ghost before = sorted.deep_view();
    let ghost e = entry@;
    let mut pos: usize = sorted.len();
    assert(before.take(pos as int) =~= before);
    assert(before.skip(pos as int) =~= Seq::empty());
    assert(insert_entry(before, e) =~= insert_entry(before.take(pos as int), e) + before.skip(
        pos as int,
    ));
    while pos > 0 && is_entry_before(&entry, &sorted[pos - 1])
        invariant
            pos <= sorted@.len(),
            before == sorted.deep_view(),
            e == entry@,
            insert_entry(before, e) == insert_entry(before.take(pos as int), e) + before.skip(
                pos as int,
            ),
        decreases pos,
    {
        proof {
            let part = before.take(pos as int);
            assert(part.last() == sorted@[pos - 1]@);
            assert(part.drop_last() =~= before.take(pos - 1));
            assert(insert_entry(before.take(pos - 1), e) + before.skip(pos - 1) =~= insert_entry(
                before.take(pos - 1),
                e,
            ).push(part.last()) + before.skip(pos as int));
        }
        pos -= 1;
    }
    proof {
        let part = before.take(pos as int);
        if pos > 0 {
            assert(part.last() == sorted@[pos - 1]@);
        }
        assert(insert_entry(part, e) == part.push(e));
        assert(part.push(e) + before.skip(pos as int) =~= before.insert(pos as int, e));
    }
    sorted.insert(pos, entry);
    assert(sorted.deep_view() =~= before.insert(pos as int, e));
}

/// Sorts the entries of the refs view by kind, then by name.
pub fn sort_ref_entries(entries: Vec<RefEntry>) -> (r: Vec<RefEntry>)
    ensures
        r.deep_view() == sorted_entries(entries.deep_view()),
{
    let mut out: Vec<RefEntry> = Vec::new();
    let ghost raw = entries@;
    let ghost all = entries.deep_view();
    assert(all.take(0) =~= Seq::empty());
    assert(out.deep_view() =~= Seq::empty());
    for entry in it: entries
        invariant
            it.seq() == raw,
            all == Seq::new(raw.len(), |i: int| raw[i]@),
            out.deep_view() == sorted_entries(all.take(it.index() as int)),
    {
        proof {
            assert(all.take(it.index() + 1).drop_last() =~= all.take(it.index() as int));
            assert(all.take(it.index() + 1).last() == entry@);
        }
        insert_ref_entry(&mut out, entry);
    }
    assert(all.take(all.len() as int) =~= all);
    out
}

proof fn lemma_insert_entry(sorted: Seq<RefEntryModel>, entry: RefEntryModel)
    requires
        forall|i: int, j: int|
            0 <= i < j < sorted.len() ==> !entry_before(#[trigger] sorted[j], #[trigger] sorted[i]),
    ensures
        insert_entry(sorted, entry).to_multiset() == sorted.to_multiset().insert(entry),
        forall|i: int, j: int|
            0 <= i < j < insert_entry(sorted, entry).len() ==> !entry_before(
                #[trigger] insert_entry(sorted, entry)[j],
                #[trigger] insert_entry(sorted, entry)[i],
            ),
        forall|i: int|
            0 <= i < insert_entry(sorted, entry).len() ==> #[trigger] insert_entry(
                sorted,
                entry,
            )[i] == entry || sorted.contains(insert_entry(sorted, entry)[i]),
    decreases sorted.len(),
{
    broadcast use vstd::seq_lib::group_to_multiset_ensures;

    let out = insert_entry(sorted, entry);
    if sorted.len() > 0 && entry_before(entry, sorted.last()) {
        let less = sorted.drop_last();
        let last = sorted.last();
        lemma_insert_entry(less, entry);
        let inner = insert_entry(less, entry);
        assert(sorted =~= less.push(last));
        assert(out.to_multiset() =~= sorted.to_multiset().insert(entry));
        assert forall|i: int| 0 <= i < out.len() implies #[trigger] out[i] == entry
            || sorted.contains(out[i]) by {
            if i < inner.len() {
                assert(out[i] == inner[i]);
                if inner[i] != entry {
                    let k = choose|k: int| 0 <= k < less.len() && less[k] == inner[i];
                    assert(sorted[k] == out[i]);
                }
            } else {
                assert(out[i] == sorted[sorted.len() - 1]);
            }
        }
        assert forall|i: int, j: int| 0 <= i < j < out.len() implies !entry_before(
            #[trigger] out[j],
            #[trigger] out[i],
        ) by {
            if j < inner.len() {
                assert(out[i] == inner[i] && out[j] == inner[j]);
            } else {
                assert(out[j] == last && out[i] == inner[i]);
                if inner[i] == entry {
                    lemma_entry_asymmetric(entry, last);
                } else {
                    let k = choose|k: int| 0 <= k < less.len() && less[k] == inner[i];
                    assert(sorted[k] == inner[i]);
                    assert(sorted[sorted.len() - 1] == last);
                }
            }
        }
    } else {
        assert(out == sorted.push(entry));
        assert forall|i: int| 0 <= i < out.len() implies #[trigger] out[i] == entry
            || sorted.contains(out[i]) by {
            if i < sorted.len() {
                assert(out[i] == sorted[i]);
            }
        }
        assert forall|i: int, j: int| 0 <= i < j < out.len() implies !entry_before(
            #[trigger] out[j],
            #[trigger] out[i],
        ) by {
            if j == sorted.len() {
                if entry_before(entry, sorted[i]) {
                    let last = sorted.last();
                    assert(sorted[sorted.len() - 1] == last);
                    if i < sorted.len() - 1 {
                        lemma_entry_step(entry, sorted[i], last);
                    }
                }
            } else {
                assert(out[i] == sorted[i] && out[j] == sorted[j]);
            }
        }
    }
}

proof fn lemma_entry_asymmetric(a: RefEntryModel, b: RefEntryModel)
    requires
        entry_before(a, b),
    ensures
        !entry_before(b, a),
{
    if text_before(a.name, b.name) && text_before(b.name, a.name) {
        lemma_text_before_transitive(a.name, b.name, a.name);
        lemma_text_before_irreflexive(a.name);
    }
}

proof fn lemma_entry_step(e: RefEntryModel, a: RefEntryModel, b: RefEntryModel)
    requires
        entry_before(e, a),
        !entry_before(b, a),
    ensures
        entry_before(e, b),
{
    lemma_text_before_total(a.name, b.name);
    if text_before(e.name, a.name) && text_before(a.name, b.name) {
        lemma_text_before_transitive(e.name, a.name, b.name);
    }
}

/// The refs view lists every entry once, branches first, then remote branches, then tags,
/// each by name.
pub proof fn law_refs_are_sorted(entries: Seq<RefEntryModel>)
    ensures
        sorted_entries(entries).to_multiset() == entries.to_multiset(),
        forall|i: int, j: int|
            0 <= i < j < sorted_entries(entries).len() ==> !entry_before(
                #[trigger] sorted_entries(entries)[j],
                #[trigger] sorted_entries(entries)[i],
            ),
    decreases entries.len(),
{
    broadcast use vstd::seq_lib::group_to_multiset_ensures;

    if entries.len() > 0 {
        law_refs_are_sorted(entries.drop_last());
        lemma_insert_entry(sorted_entries(entries.drop_last()), entries.last());
        assert(entries =~= entries.drop_last().push(entries.last()));
    }
}

/// A ref below `refs/heads/`, `refs/remotes/` or `refs/tags/` is a branch, a remote branch or a
/// tag, named by what follows; the log also labels `HEAD`.
pub proof fn law_refs_are_named_by_what_follows_their_kind(name: Seq<char>)
    ensures
        branch_or_tag("refs/heads/"@ + name) == Some(
            RefLabelModel { name, kind: RefKind::LocalBranch },
        ),
        branch_or_tag("refs/remotes/"@ + name) == Some(
            RefLabelModel { name, kind: RefKind::RemoteBranch },
        ),
        branch_or_tag("refs/tags/"@ + name) == Some(RefLabelModel { name, kind: RefKind::Tag }),
        log_label("HEAD"@) == Some(RefLabelModel { name: "HEAD"@, kind: RefKind::Head }),
        log_label("refs/heads/"@ + name) == branch_or_tag("refs/heads/"@ + name),
        log_label("refs/remotes/"@ + name) == branch_or_tag("refs/remotes/"@ + name),
        log_label("refs/tags/"@ + name) == branch_or_tag("refs/tags/"@ + name),
{
    reveal_strlit("refs/heads/");
    reveal_strlit("refs/remotes/");
    reveal_strlit("refs/tags/");
    reveal_strlit("HEAD");
    let h = "refs/heads/"@ + name;
    let r = "refs/remotes/"@ + name;
    let t = "refs/tags/"@ + name;
    assert(h.take(11) =~= "refs/heads/"@);
    assert(h.skip(11) =~= name);
    assert(r.take(13) =~= "refs/remotes/"@);
    assert(r.skip(13) =~= name);
    assert(t.take(10) =~= "refs/tags/"@);
    assert(t.skip(10) =~= name);
    assert(r[5] == 'r' && t[5] == 't' && h[5] == 'h');
    assert(r.take(11)[5] == 'r');
    assert("refs/heads/"@[5] == 'h');
    if t.len() >= 11 {
        assert(t.take(11)[5] == 't');
    }
    if t.len() >= 13 {
        assert(t.take(13)[5] == 't');
    }
    assert("refs/remotes/"@[5] == 'r');
    assert(h[0] != "HEAD"@[0] && r[0] != "HEAD"@[0] && t[0] != "HEAD"@[0]);
}

/// What is neither below one of the three nor `HEAD` has no label.
pub proof fn law_other_refs_have_no_label(full: Seq<char>)
    ensures
        branch_or_tag(full) matches Some(l) ==> full == (match l.kind {
            RefKind::LocalBranch => "refs/heads/"@,
            RefKind::RemoteBranch => "refs/remotes/"@,
            _ => "refs/tags/"@,
        }) + l.name && l.kind != RefKind::Head,
        log_label(full) matches Some(l) ==> branch_or_tag(full) == Some(l) || full == "HEAD"@,
{
    if let Some(l) = branch_or_tag(full) {
        let prefix = match l.kind {
            RefKind::LocalBranch => "refs/heads/"@,
            RefKind::RemoteBranch => "refs/remotes/"@,
            _ => "refs/tags/"@,
        };
        assert(full =~= prefix + l.name);
    }
}

/// A commit has a label exactly if a ref of that label points at it.
pub proof fn law_labels_are_those_of_the_refs(
    refs: Seq<RawRefModel>,
    id: ObjectId,
    label: RefLabelModel,
)
    ensures
        labels_of(labels_of_refs(refs), id).contains(label) <==> exists|i: int|
            0 <= i < refs.len() && (#[trigger] refs[i]).target == Some(id) && log_label(
                refs[i].full_name,
            ) == Some(label),
    decreases refs.len(),
{
    if refs.len() > 0 {
        let less = refs.drop_last();
        let rest = labels_of(labels_of_refs(less), id);
        let all = labels_of(labels_of_refs(refs), id);
        law_labels_are_those_of_the_refs(less, id, label);
        let n = refs.len() - 1;
        let here = refs[n].target == Some(id) && log_label(refs[n].full_name) == Some(label);
        if all.contains(label) {
            let k = choose|k: int| 0 <= k < all.len() && all[k] == label;
            if k < rest.len() {
                assert(rest[k] == label);
                let i = choose|i: int|
                    0 <= i < less.len() && (#[trigger] less[i]).target == Some(id) && log_label(
                        less[i].full_name,
                    ) == Some(label);
                assert(refs[i] == less[i]);
            } else {
                assert(here);
            }
        }
        if exists|i: int|
            0 <= i < refs.len() && (#[trigger] refs[i]).target == Some(id) && log_label(
                refs[i].full_name,
            ) == Some(label) {
            let i = choose|i: int|
                0 <= i < refs.len() && (#[trigger] refs[i]).target == Some(id) && log_label(
                    refs[i].full_name,
                ) == Some(label);
            if i < n {
                assert(less[i] == refs[i]);
                let k = choose|k: int| 0 <= k < rest.len() && rest[k] == label;
                assert(all[k] == label);
            } else {
                assert(all[rest.len() as int] == label);
            }
        }
    } else {
        assert(!labels_of(labels_of_refs(refs), id).contains(label));
    }
}

/// The commit at `HEAD` has the label `HEAD`, in front of its others if no ref gave it one;
/// the labels of other commits stay as they are.
pub proof fn law_head_is_labelled(refs: Seq<RawRefModel>, head: ObjectId, other: ObjectId)
    ensures
        ({
            let plain = labels_of_refs(refs);
            let map = log_labels(refs, Some(head));
            let labels = labels_of(map, head);
            &&& exists|i: int| 0 <= i < labels.len() && (#[trigger] labels[i]).kind == RefKind::Head
            &&& (forall|i: int|
                0 <= i < labels_of(plain, head).len() ==> (#[trigger] labels_of(
                    plain,
                    head,
                )[i]).kind != RefKind::Head) ==> labels[0].kind == RefKind::Head && labels[0].name
                == "HEAD"@ && labels.skip(1) == labels_of(plain, head)
            &&& other != head ==> labels_of(map, other) == labels_of(plain, other)
            &&& log_labels(refs, None) == plain
        }),
{
    let plain = labels_of_refs(refs);
    let map = log_labels(refs, Some(head));
    let labels = labels_of(map, head);
    if !has_head(labels_of(plain, head)) {
        assert(labels[0].kind == RefKind::Head);
        assert(labels.skip(1) =~= labels_of(plain, head));
    }
}

/// In the refs view all branches come before all remote branches, and these before all tags,
/// whatever their names; within a kind the names decide.
pub proof fn law_branches_come_before_tags(a: RefEntryModel, b: RefEntryModel)
    ensures
        a.kind == RefKind::LocalBranch && b.kind == RefKind::RemoteBranch ==> entry_before(a, b)
            && !entry_before(b, a),
        a.kind == RefKind::LocalBranch && b.kind == RefKind::Tag ==> entry_before(a, b)
            && !entry_before(b, a),
        a.kind == RefKind::RemoteBranch && b.kind == RefKind::Tag ==> entry_before(a, b)
            && !entry_before(b, a),
        a.kind == b.kind ==> (entry_before(a, b) <==> text_before(a.name, b.name)),
{
}

/// An entry of the refs view has the name and the kind of its ref, the commit it points at,
/// and the first line of the commit's message, which does not end in white space. Of a commit
/// that cannot be read it tells nothing more.
pub proof fn law_an_entry_tells_of_its_commit(
    now: Clock,
    full: Seq<char>,
    target: ObjectId,
    data: Seq<u8>,
)
    ensures
        entry_of(now, full, target, data) is Some <==> branch_or_tag(full) is Some,
        entry_of(now, full, target, data) matches Some(e) ==> {
            &&& e.name == branch_or_tag(full)->0.name
            &&& e.kind == branch_or_tag(full)->0.kind
            &&& e.target == target
            &&& commit_text(data) is Err ==> e.summary.len() == 0 && e.authored_relative.len() == 0
            &&& commit_text(data) matches Ok(t) ==> e.summary == byte_text(t.title).take(
                e.summary.len() as int,
            ) && (commit_author(data) matches Ok(who) ==> (who.seconds matches Ok(s)
                ==> e.authored_relative == age_text(now, s)))
        },
{
    if let Ok(t) = commit_text(data) {
        law_trimming_cuts_white_space_at_the_end(byte_text(t.title));
    }
}

/// Each branch and tag has an entry, and each entry is one of a branch or tag, in the same
/// order: the entry of ref `k` is the one behind those of the refs in front of it.
pub proof fn law_each_branch_and_tag_is_listed(
    refs: Seq<PeeledRefModel>,
    moments: Seq<Clock>,
    k: int,
)
    requires
        refs.len() == moments.len(),
        0 <= k < refs.len(),
    ensures
        ({
            let before = listed(refs.take(k), moments.take(k)).len() as int;
            let all = listed(refs, moments);
            match entry_of(moments[k], refs[k].full_name, refs[k].target, refs[k].data) {
                Some(e) => before < all.len() && all[before] == e && listed(
                    refs.take(k + 1),
                    moments.take(k + 1),
                ).len() == before + 1,
                None => listed(refs.take(k + 1), moments.take(k + 1)).len() == before,
            }
        }),
    decreases refs.len(),
{
    assert(refs.take(k + 1).drop_last() =~= refs.take(k));
    assert(moments.take(k + 1).drop_last() =~= moments.take(k));
    if k == refs.len() - 1 {
        assert(refs.take(k + 1) =~= refs);
        assert(moments.take(k + 1) =~= moments);
    } else {
        let r = refs.drop_last();
        let m = moments.drop_last();
        law_each_branch_and_tag_is_listed(r, m, k);
        assert(r.take(k) =~= refs.take(k));
        assert(m.take(k) =~= moments.take(k));
        assert(r.take(k + 1) =~= refs.take(k + 1));
        assert(m.take(k + 1) =~= moments.take(k + 1));
    }
}

/// The seconds of a commit are those of its author; a commit whose author or date cannot be
/// read counts as written at the epoch.
pub proof fn law_the_author_dates_a_commit(data: Seq<u8>)
    ensures
        commit_author(data) matches Ok(who) ==> (who.seconds matches Ok(s) ==> authored_seconds(data)
            == s),
        commit_author(data) matches Ok(who) ==> (who.seconds is Err ==> authored_seconds(data)
            == 0),
        commit_author(data) is Err ==> authored_seconds(data) == 0,
{
}

} // verus!
