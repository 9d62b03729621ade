//! Copying the hash of a commit.

use crate::app::state::{RowModel, YankModel};
use crate::app::{App, AppModel, LogRow, YankFeedback};
use crate::model::ObjectId;
use crate::text::{chars_of, push_chars};
use vstd::prelude::*;

verus! {

/// Digits of the hash in the note that it was copied.
pub const PREVIEW_DIGITS: usize = 12;

impl AppModel {
    /// The hash of commit `id` goes to the clipboard, and a note says so.
    #[verifier::opaque]
    pub open spec fn hash_yanked(self, id: ObjectId) -> AppModel {
        AppModel {
            clipboard: Some(id.hex()),
            yank_message: Some(
                YankModel {
                    text: "Copied: "@ + id.hex().take(PREVIEW_DIGITS as int),
                    shown_at: self.now,
                },
            ),
            ..self
        }
    }

    /// The hash of the selected commit goes to the clipboard.
    #[verifier::opaque]
    pub open spec fn selected_yanked(self) -> AppModel {
        if 0 <= self.log.selected < self.log.rows.len() {
            match self.log.rows[self.log.selected] {
                RowModel::Commit(c) => self.hash_yanked(c.id),
                _ => self,
            }
        } else {
            self
        }
    }

    /// The hash of the commit under the cursor of the blame view goes to the clipboard.
    #[verifier::opaque]
    pub open spec fn blamed_yanked(self) -> AppModel {
        if self.blame_on_line() {
            self.hash_yanked(self.blame.document->0.lines[self.blame.selected].commit_id)
        } else {
            self
        }
    }
}

impl App {
    fn yank_hash(&mut self, id: ObjectId)
        ensures
            final(self)@ == old(self)@.hash_yanked(id),
    {
        proof {
            reveal(AppModel::hash_yanked);
        }
        let hash: String = id.to_hex();
        let chars: Vec<char> = chars_of(hash.as_str());
        let mut text: String = "Copied: ".to_owned();
        push_chars(&mut text, &chars, 0, PREVIEW_DIGITS);
        assert(text@ =~= "Copied: "@ + hash@.take(PREVIEW_DIGITS as int));
        self.clipboard = Some(hash);
        self.yank_message = Some(YankFeedback { text, shown_at: self.now });
    }

    fn selected_commit(&self) -> (r: Option<ObjectId>)
        ensures
            r == (if self@.log.selected < self@.log.rows.len() {
                match self@.log.rows[self@.log.selected] {
                    RowModel::Commit(c) => Some(c.id),
                    _ => None,
                }
            } else {
                None
            }),
    {
        if self.log.selected < self.log.rows.len() {
            assert(self@.log.rows[self.log.selected as int]
                == self.log.rows@[self.log.selected as int]@);
            match &self.log.rows[self.log.selected] {
                LogRow::Commit(c) => Some(c.id),
                _ => None,
            }
        } else {
            None
        }
    }

    /// Copies the hash of the selected commit.
    pub fn yank_selected_hash(&mut self)
        ensures
            final(self)@ == old(self)@.selected_yanked(),
    {
        proof {
            reveal(AppModel::selected_yanked);
        }
        if let Some(id) = self.selected_commit() {
            self.yank_hash(id);
        }
    }

    /// Copies the hash of the commit under the cursor of the blame view.
    pub fn yank_blame_hash(&mut self)
        ensures
            final(self)@ == old(self)@.blamed_yanked(),
    {
        proof {
            reveal(AppModel::blamed_yanked);
        }
        if let Some(id) = self.blamed_commit() {
            self.yank_hash(id);
        }
    }
}

/// To copy a commit is to copy its whole id; the note shows the first twelve digits.
pub proof fn law_the_whole_id_is_copied(m: AppModel, id: ObjectId)
    ensures
        ({
            let n = m.hash_yanked(id);
            &&& n.clipboard == Some(id.hex())
            &&& n.yank_message matches Some(y) && y.text == "Copied: "@ + id.hex().subrange(0, 12)
                && y.shown_at == m.now
            &&& n.log == m.log
            &&& n.diff == m.diff
        }),
{
    reveal(AppModel::hash_yanked);
    assert(id.hex().take(12) =~= id.hex().subrange(0, 12));
}

/// The commit copied is the selected one, in the log and in a blame; a row that is no commit
/// copies nothing.
pub proof fn law_the_selected_commit_is_copied(m: AppModel)
    ensures
        0 <= m.log.selected < m.log.rows.len() ==> match m.log.rows[m.log.selected] {
            RowModel::Commit(c) => m.selected_yanked().clipboard == Some(c.id.hex()),
            _ => m.selected_yanked() == m,
        },
        m.blame.document matches Some(d) ==> (0 <= m.blame.selected < d.lines.len()
            ==> m.blamed_yanked().clipboard == Some(d.lines[m.blame.selected].commit_id.hex())),
        m.blame.document is None ==> m.blamed_yanked() == m,
{
    reveal(AppModel::hash_yanked);
    reveal(AppModel::selected_yanked);
    reveal(AppModel::blamed_yanked);
}

} // verus!
