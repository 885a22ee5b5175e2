//! The selection model: the mutable state behind the interactive loop.
//!
//! It holds the matched files discovered so far, a parallel sequence of
//! selection flags, a cursor, and scan-progress counters.  Every operation
//! preserves the structural invariant [`App::wf`]: the flag sequence always
//! has exactly the length of the file sequence, and the cursor is a valid
//! index exactly when the file sequence is non-empty.

use vstd::prelude::*;

verus! {

/// A file accepted by the classifier: its absolute path and its size in
/// bytes.  Immutable once created; it leaves the model only through deletion.
pub struct FileInfo {
    pub path: String,
    pub size: u64,
}

/// One unit of progress emitted by the walker and consumed by the model.
pub enum ScanMessage {
    /// The classifier accepted a file.
    File(FileInfo),
    /// The walker entered a directory.
    Directory(String),
    /// Every walker worker has finished.
    Done,
    /// A traversal or classification error; informational, never fatal.
    Error(String),
}

/// A key the interactive loop hands to the model for dispatch.
#[derive(Debug, PartialEq, Eq, Structural)]
pub enum Command {
    MoveUp,
    MoveDown,
    ToggleSelect,
    SelectAll,
    DeselectAll,
    DeleteSelected,
    Quit,
    Other,
}

/// What the model asks the interactive loop to do after a key.
#[derive(Debug, PartialEq, Eq, Structural)]
pub enum KeyAction {
    /// The model handled the key itself; keep looping.
    Handled,
    /// Run the deletion batch against the external removal primitive.
    RequestDelete,
    /// End the interactive loop.
    RequestQuit,
}

/// A counter increment that sticks at the top of its range instead of
/// wrapping.
pub open spec fn bumped(c: usize) -> usize {
    if c < usize::MAX {
        (c + 1) as usize
    } else {
        c
    }
}

/// Cursor position after a forward move: one step, wrapping to the front.
pub open spec fn wrap_forward(i: int, len: int) -> int {
    if i + 1 >= len {
        0
    } else {
        i + 1
    }
}

/// Cursor position after a backward move: one step, wrapping to the back.
pub open spec fn wrap_backward(i: int, len: int) -> int {
    if i == 0 {
        len - 1
    } else {
        i - 1
    }
}

/// No entry of the flag sequence is set.
pub open spec fn all_unselected(sel: Seq<bool>) -> bool {
    forall|j: int| 0 <= j < sel.len() ==> !sel[j]
}

/// Total size in bytes of the selected entries among the first `n`.
pub open spec fn selected_size_upto(files: Seq<FileInfo>, sel: Seq<bool>, n: int) -> int
    decreases n,
{
    if n <= 0 {
        0
    } else {
        selected_size_upto(files, sel, n - 1) + (if sel[n - 1] {
            files[n - 1].size as int
        } else {
            0
        })
    }
}

/// Total size in bytes of all selected entries.
pub open spec fn total_selected_size(files: Seq<FileInfo>, sel: Seq<bool>) -> int {
    selected_size_upto(files, sel, files.len() as int)
}

/// The files that a completed deletion batch leaves behind: those whose flag
/// is not set, in their original order.
pub open spec fn surviving_entries(files: Seq<FileInfo>, sel: Seq<bool>) -> Seq<FileInfo>
    decreases files.len(),
{
    if files.len() == 0 {
        Seq::empty()
    } else if sel[0] {
        surviving_entries(files.drop_first(), sel.drop_first())
    } else {
        seq![files[0]] + surviving_entries(files.drop_first(), sel.drop_first())
    }
}

/// A deletion batch ran to completion: only the unselected files remain, in
/// order, and none of them is still flagged.
pub open spec fn rel_delete_complete(pre: App, post: App) -> bool {
    &&& post.files@ == surviving_entries(pre.files@, pre.selected@)
    &&& post.selected@ == Seq::new(post.files@.len(), |j: int| false)
}

/// A deletion batch stopped at original index `p`: every selected entry
/// before `p` is gone, every unselected one is kept, and everything from `p`
/// on (including the entry whose removal failed) is untouched.
pub open spec fn rel_delete_stopped(pre: App, post: App, p: int) -> bool {
    &&& 0 <= p < pre.files@.len()
    &&& pre.selected@[p]
    &&& post.files@ == surviving_entries(pre.files@.take(p), pre.selected@.take(p))
        + pre.files@.skip(p)
    &&& post.selected@ == Seq::new(
        surviving_entries(pre.files@.take(p), pre.selected@.take(p)).len(),
        |j: int| false,
    ) + pre.selected@.skip(p)
}

/// Cursor position after entries have been removed: unchanged while still in
/// bounds, pulled back to the last index when past the end, `None` on an
/// empty model.
pub open spec fn clamped_cursor(cur: Option<usize>, len: nat) -> Option<usize> {
    if len == 0 {
        None
    } else {
        match cur {
            Some(c) => (if c < len {
                Some(c)
            } else {
                Some((len - 1) as usize)
            }),
            None => None,
        }
    }
}

/// The scan-progress fields are the same in both states.
pub open spec fn same_scan_progress(pre: App, post: App) -> bool {
    &&& post.scanning == pre.scanning
    &&& post.current_path == pre.current_path
    &&& post.dirs_scanned == pre.dirs_scanned
    &&& post.files_found == pre.files_found
}

/// The file and flag sequences are the same in both states.
pub open spec fn same_entries(pre: App, post: App) -> bool {
    &&& post.files == pre.files
    &&& post.selected == pre.selected
}

/// Effect of recording one scan message.
pub open spec fn rel_record(pre: App, msg: ScanMessage, post: App) -> bool {
    match msg {
        ScanMessage::File(f) => {
            &&& post.files@ == pre.files@.push(f)
            &&& post.selected@ == pre.selected@.push(false)
            &&& post.files_found == bumped(pre.files_found)
            &&& post.cursor == (if pre.cursor is None {
                Some(0usize)
            } else {
                pre.cursor
            })
            &&& post.scanning == pre.scanning
            &&& post.current_path == pre.current_path
            &&& post.dirs_scanned == pre.dirs_scanned
        },
        ScanMessage::Directory(p) => {
            &&& same_entries(pre, post)
            &&& post.cursor == pre.cursor
            &&& post.current_path == p
            &&& post.dirs_scanned == bumped(pre.dirs_scanned)
            &&& post.scanning == pre.scanning
            &&& post.files_found == pre.files_found
        },
        ScanMessage::Done => {
            &&& same_entries(pre, post)
            &&& post.cursor == pre.cursor
            &&& !post.scanning
            &&& post.current_path == pre.current_path
            &&& post.dirs_scanned == pre.dirs_scanned
            &&& post.files_found == pre.files_found
        },
        ScanMessage::Error(_) => post == pre,
    }
}

/// Effect of toggling the flag under the cursor.
pub open spec fn rel_toggle(pre: App, post: App) -> bool {
    &&& same_scan_progress(pre, post)
    &&& post.files == pre.files
    &&& post.cursor == pre.cursor
    &&& match pre.cursor {
        Some(i) => post.selected@ == pre.selected@.update(i as int, !pre.selected@[i as int]),
        None => post.selected == pre.selected,
    }
}

/// Effect of selecting every entry.
pub open spec fn rel_select_all(pre: App, post: App) -> bool {
    &&& same_scan_progress(pre, post)
    &&& post.files == pre.files
    &&& post.cursor == pre.cursor
    &&& post.selected@ == Seq::new(pre.selected@.len(), |j: int| true)
}

/// Effect of deselecting every entry.
pub open spec fn rel_deselect_all(pre: App, post: App) -> bool {
    &&& same_scan_progress(pre, post)
    &&& post.files == pre.files
    &&& post.cursor == pre.cursor
    &&& post.selected@ == Seq::new(pre.selected@.len(), |j: int| false)
}

/// Effect of a forward cursor move.
pub open spec fn rel_move_next(pre: App, post: App) -> bool {
    &&& same_scan_progress(pre, post)
    &&& same_entries(pre, post)
    &&& match pre.cursor {
        Some(i) => post.cursor == Some(wrap_forward(i as int, pre.files@.len() as int) as usize),
        None => post.cursor == pre.cursor,
    }
}

/// Effect of a backward cursor move.
pub open spec fn rel_move_previous(pre: App, post: App) -> bool {
    &&& same_scan_progress(pre, post)
    &&& same_entries(pre, post)
    &&& match pre.cursor {
        Some(i) => post.cursor == Some(wrap_backward(i as int, pre.files@.len() as int) as usize),
        None => post.cursor == pre.cursor,
    }
}

/// The selection model: matched files, parallel selection flags, cursor, and
/// scan progress.  Owned exclusively by the interactive loop.
pub struct App {
    /// Matched files, in discovery order.
    pub files: Vec<FileInfo>,
    /// Selection flags; `selected[i]` belongs to `files[i]`.
    pub selected: Vec<bool>,
    /// Highlighted index; `None` exactly while no file is listed.
    pub cursor: Option<usize>,
    /// True until the terminal `Done` message has been recorded.
    pub scanning: bool,
    /// The directory the walker reported most recently.
    pub current_path: String,
    /// How many `Directory` messages have been recorded.
    pub dirs_scanned: usize,
    /// How many `File` messages have been recorded.
    pub files_found: usize,
}

impl App {
    /// Structural invariant: the flag sequence is parallel to the file
    /// sequence, and the cursor is an in-bounds index exactly when the file
    /// sequence is non-empty.
    pub open spec fn wf(self) -> bool {
        &&& self.selected@.len() == self.files@.len()
        &&& match self.cursor {
            Some(i) => i < self.files@.len(),
            None => self.files@.len() == 0,
        }
    }

    /// A fresh model: no files, nothing selected, no cursor, scan running,
    /// all counters at zero.
    pub fn new() -> (app: App)
        ensures
            app.wf(),
            app.files@ == Seq::<FileInfo>::empty(),
            app.selected@ == Seq::<bool>::empty(),
            app.cursor is None,
            app.scanning,
            app.current_path@ == Seq::<char>::empty(),
            app.dirs_scanned == 0,
            app.files_found == 0,
    {
        App {
            files: Vec::new(),
            selected: Vec::new(),
            cursor: None,
            scanning: true,
            current_path: String::new(),
            dirs_scanned: 0,
            files_found: 0,
        }
    }

    /// Consume one scan message: append a found file (selecting the cursor's
    /// first position if it was unset), note a directory, finish the scan, or
    /// ignore an informational error.
    pub fn record(&mut self, msg: ScanMessage)
        requires
            old(self).wf(),
        ensures
            final(self).wf(),
            rel_record(*old(self), msg, *final(self)),
    {
        match msg {
            ScanMessage::File(f) => {
                self.files.push(f);
                self.selected.push(false);
                if self.files_found < usize::MAX {
                    self.files_found = self.files_found + 1;
                }
                if self.cursor.is_none() {
                    self.cursor = Some(0);
                }
            },
            ScanMessage::Directory(p) => {
                self.current_path = p;
                if self.dirs_scanned < usize::MAX {
                    self.dirs_scanned = self.dirs_scanned + 1;
                }
            },
            ScanMessage::Done => {
                self.scanning = false;
            },
            ScanMessage::Error(_) => {},
        }
    }

    /// Flip the selection flag under the cursor; no-op while the list is
    /// empty.
    pub fn toggle_selected(&mut self)
        requires
            old(self).wf(),
        ensures
            final(self).wf(),
            rel_toggle(*old(self), *final(self)),
    {
        match self.cursor {
            Some(i) => {
                let cur = self.selected[i];
                self.selected[i] = !cur;
            },
            None => {},
        }
    }

    /// Set every selection flag.
    pub fn select_all(&mut self)
        requires
            old(self).wf(),
        ensures
            final(self).wf(),
            rel_select_all(*old(self), *final(self)),
    {
        let n = self.selected.len();
        self.selected = vec![true; n];
        proof {
            assert(self.selected@ =~= Seq::new(old(self).selected@.len(), |j: int| true));
        }
    }

    /// Clear every selection flag.
    pub fn deselect_all(&mut self)
        requires
            old(self).wf(),
        ensures
            final(self).wf(),
            rel_deselect_all(*old(self), *final(self)),
    {
        let n = self.selected.len();
        self.selected = vec![false; n];
        proof {
            assert(self.selected@ =~= Seq::new(old(self).selected@.len(), |j: int| false));
        }
    }

    /// Move the cursor one step forward, wrapping from the last index to
    /// index 0; no-op while the list is empty.
    pub fn next(&mut self)
        requires
            old(self).wf(),
        ensures
            final(self).wf(),
            rel_move_next(*old(self), *final(self)),
    {
        match self.cursor {
            Some(i) => {
                let len = self.files.len();
                let ni = if i + 1 >= len {
                    0
                } else {
                    i + 1
                };
                self.cursor = Some(ni);
            },
            None => {},
        }
    }

    /// Move the cursor one step backward, wrapping from index 0 to the last
    /// index; no-op while the list is empty.
    pub fn previous(&mut self)
        requires
            old(self).wf(),
        ensures
            final(self).wf(),
            rel_move_previous(*old(self), *final(self)),
    {
        match self.cursor {
            Some(i) => {
                let len = self.files.len();
                let ni = if i == 0 {
                    len - 1
                } else {
                    i - 1
                };
                self.cursor = Some(ni);
            },
            None => {},
        }
    }

    /// Total size in bytes of the selected files, computed afresh from the
    /// entries; the sum of all sizes always fits the result type.
    pub fn get_selected_size(&self) -> (total: u128)
        requires
            self.wf(),
        ensures
            total == total_selected_size(self.files@, self.selected@),
    {
        let mut total: u128 = 0;
        let mut i: usize = 0;
        let n = self.files.len();
        while i < n
            invariant
                self.wf(),
                n == self.files@.len(),
                i <= n,
                total == selected_size_upto(self.files@, self.selected@, i as int),
                total <= (i as int) * (u64::MAX as int),
            decreases n - i,
        {
            if self.selected[i] {
                total = total + (self.files[i].size as u128);
            }
            i = i + 1;
        }
        total
    }

    /// Pull the cursor back into bounds after entries have been removed.
    fn clamp_cursor(&mut self)
        requires
            old(self).selected@.len() == old(self).files@.len(),
            old(self).cursor is None ==> old(self).files@.len() == 0,
        ensures
            final(self).wf(),
            final(self).cursor == clamped_cursor(old(self).cursor, final(self).files@.len()),
            final(self).files == old(self).files,
            final(self).selected == old(self).selected,
            same_scan_progress(*old(self), *final(self)),
    {
        let len = self.files.len();
        match self.cursor {
            Some(c) => {
                if len == 0 {
                    self.cursor = None;
                } else if c >= len {
                    self.cursor = Some(len - 1);
                }
            },
            None => {},
        }
    }

    /// Delete the selected files, front to back.  For each selected entry the
    /// external removal primitive `remove` is invoked on its path; only after
    /// it answers `Ok` do the file and its flag leave the model together, so
    /// a success of the whole batch certifies an `Ok` from the primitive on
    /// every selected path.  The first failure stops the batch: entries
    /// already removed stay removed, the failing entry and everything after
    /// it stay untouched, and the reason is returned.  Afterwards the cursor
    /// is pulled back into bounds.
    pub fn delete_selected<F: Fn(String) -> Result<(), String>>(&mut self, remove: F) -> (r:
        Result<(), String>)
        requires
            old(self).wf(),
            forall|q: String| call_requires(remove, (q,)),
        ensures
            final(self).wf(),
            same_scan_progress(*old(self), *final(self)),
            final(self).cursor == clamped_cursor(old(self).cursor, final(self).files@.len()),
            r is Ok ==> rel_delete_complete(*old(self), *final(self)),
            r is Ok ==> forall|t: int|
                0 <= t < old(self).files@.len() && old(self).selected@[t] ==> call_ensures(
                    remove,
                    (old(self).files@[t].path,),
                    Result::<(), String>::Ok(()),
                ),
            all_unselected(old(self).selected@) ==> r is Ok && final(self).files@ == old(
                self,
            ).files@,
            r matches Err(e) ==> exists|p: int|
                rel_delete_stopped(*old(self), *final(self), p) && call_ensures(
                    remove,
                    (old(self).files@[p].path,),
                    Result::<(), String>::Err(e),
                ) && (forall|t: int|
                    0 <= t < p && old(self).selected@[t] ==> call_ensures(
                        remove,
                        (old(self).files@[t].path,),
                        Result::<(), String>::Ok(()),
                    )),
    {
        let ghost orig = *old(self);
        let ghost mut p: int = 0;
        let mut i: usize = 0;
        proof {
            assert(orig.files@.take(0) =~= Seq::<FileInfo>::empty());
            assert(orig.selected@.take(0) =~= Seq::<bool>::empty());
            assert(self.files@ =~= surviving_entries(orig.files@.take(0), orig.selected@.take(0))
                + orig.files@.skip(0));
            assert(self.selected@ =~= Seq::new(0nat, |j: int| false) + orig.selected@.skip(0));
        }
        while i < self.files.len()
            invariant
                forall|q: String| call_requires(remove, (q,)),
                orig == *old(self),
                orig.wf(),
                0 <= p <= orig.files@.len(),
                self.selected@.len() == self.files@.len(),
                i as int == surviving_entries(
                    orig.files@.take(p),
                    orig.selected@.take(p),
                ).len(),
                self.files@ == surviving_entries(orig.files@.take(p), orig.selected@.take(p))
                    + orig.files@.skip(p),
                self.selected@ == Seq::new(i as nat, |j: int| false) + orig.selected@.skip(p),
                forall|t: int|
                    0 <= t < p && orig.selected@[t] ==> call_ensures(
                        remove,
                        (orig.files@[t].path,),
                        Result::<(), String>::Ok(()),
                    ),
                self.cursor == orig.cursor,
                same_scan_progress(orig, *self),
            decreases orig.files@.len() - p,
        {
            proof {
                assert(self.files@[i as int] == orig.files@[p]);
                assert(self.selected@[i as int] == orig.selected@[p]);
            }
            if self.selected[i] {
                let path = self.files[i].path.clone();
                let res = remove(path);
                match res {
                    Ok(u) => {
                        self.files.remove(i);
                        self.selected.remove(i);
                        proof {
                            lemma_surviving_snoc(orig.files@, orig.selected@, p);
                            assert(u == ());
                            assert(call_ensures(
                                remove,
                                (orig.files@[p].path,),
                                Result::<(), String>::Ok(()),
                            ));
                            p = p + 1;
                            assert(self.files@ =~= surviving_entries(
                                orig.files@.take(p),
                                orig.selected@.take(p),
                            ) + orig.files@.skip(p));
                            assert(self.selected@ =~= Seq::new(i as nat, |j: int| false)
                                + orig.selected@.skip(p));
                        }
                    },
                    Err(e) => {
                        let ghost fail_at = p;
                        self.clamp_cursor();
                        proof {
                            assert(rel_delete_stopped(orig, *self, fail_at));
                            assert(call_ensures(
                                remove,
                                (orig.files@[fail_at].path,),
                                Result::<(), String>::Err(e),
                            ));
                        }
                        return Err(e);
                    },
                }
            } else {
                proof {
                    lemma_surviving_snoc(orig.files@, orig.selected@, p);
                }
                i = i + 1;
                proof {
                    p = p + 1;
                    assert(self.files@ =~= surviving_entries(
                        orig.files@.take(p),
                        orig.selected@.take(p),
                    ) + orig.files@.skip(p));
                    assert(self.selected@ =~= Seq::new(i as nat, |j: int| false)
                        + orig.selected@.skip(p));
                }
            }
        }
        proof {
            assert(p == orig.files@.len());
            assert(orig.files@.take(p) =~= orig.files@);
            assert(orig.selected@.take(p) =~= orig.selected@);
            assert(self.files@ =~= surviving_entries(orig.files@, orig.selected@));
            assert(self.selected@ =~= Seq::new(self.files@.len(), |j: int| false));
            if all_unselected(orig.selected@) {
                lemma_surviving_unselected(orig.files@, orig.selected@);
            }
        }
        self.clamp_cursor();
        Ok(())
    }

    /// Dispatch one key: cursor moves, selection changes and unrecognised
    /// keys are handled in place; deletion and quitting are reported back to
    /// the interactive loop, which owns the external effects.
    pub fn handle_key(&mut self, cmd: Command) -> (act: KeyAction)
        requires
            old(self).wf(),
        ensures
            final(self).wf(),
            match cmd {
                Command::MoveUp => act == KeyAction::Handled && rel_move_previous(
                    *old(self),
                    *final(self),
                ),
                Command::MoveDown => act == KeyAction::Handled && rel_move_next(
                    *old(self),
                    *final(self),
                ),
                Command::ToggleSelect => act == KeyAction::Handled && rel_toggle(
                    *old(self),
                    *final(self),
                ),
                Command::SelectAll => act == KeyAction::Handled && rel_select_all(
                    *old(self),
                    *final(self),
                ),
                Command::DeselectAll => act == KeyAction::Handled && rel_deselect_all(
                    *old(self),
                    *final(self),
                ),
                Command::DeleteSelected => act == KeyAction::RequestDelete && *final(self) == *old(
                    self,
                ),
                Command::Quit => act == KeyAction::RequestQuit && *final(self) == *old(self),
                Command::Other => act == KeyAction::Handled && *final(self) == *old(self),
            },
    {
        match cmd {
            Command::MoveUp => {
                self.previous();
                KeyAction::Handled
            },
            Command::MoveDown => {
                self.next();
                KeyAction::Handled
            },
            Command::ToggleSelect => {
                self.toggle_selected();
                KeyAction::Handled
            },
            Command::SelectAll => {
                self.select_all();
                KeyAction::Handled
            },
            Command::DeselectAll => {
                self.deselect_all();
                KeyAction::Handled
            },
            Command::DeleteSelected => KeyAction::RequestDelete,
            Command::Quit => KeyAction::RequestQuit,
            Command::Other => KeyAction::Handled,
        }
    }
}

/// Extending a processed prefix by one entry keeps the surviving files the
/// same when that entry is selected, and appends it when it is not.
pub proof fn lemma_surviving_snoc(files: Seq<FileInfo>, sel: Seq<bool>, n: int)
    requires
        0 <= n < files.len(),
        sel.len() == files.len(),
    ensures
        surviving_entries(files.take(n + 1), sel.take(n + 1)) == surviving_entries(
            files.take(n),
            sel.take(n),
        ) + (if sel[n] {
            Seq::<FileInfo>::empty()
        } else {
            seq![files[n]]
        }),
    decreases n,
{
    let tail = (if sel[n] {
        Seq::<FileInfo>::empty()
    } else {
        seq![files[n]]
    });
    if n == 0 {
        assert(files.take(1) =~= seq![files[0]]);
        assert(sel.take(1) =~= seq![sel[0]]);
        assert(seq![files[0]].drop_first() =~= Seq::<FileInfo>::empty());
        assert(seq![sel[0]].drop_first() =~= Seq::<bool>::empty());
        assert(files.take(0) =~= Seq::<FileInfo>::empty());
        assert(sel.take(0) =~= Seq::<bool>::empty());
        assert(surviving_entries(Seq::<FileInfo>::empty(), Seq::<bool>::empty())
            == Seq::<FileInfo>::empty());
        assert(seq![files[0]] + Seq::<FileInfo>::empty() =~= seq![files[0]]);
        assert(surviving_entries(files.take(1), sel.take(1)) =~= tail);
        assert(surviving_entries(files.take(0), sel.take(0)) + tail =~= tail);
    } else {
        let ft = files.drop_first();
        let st = sel.drop_first();
        lemma_surviving_snoc(ft, st, n - 1);
        assert(files.take(n + 1).drop_first() =~= ft.take(n));
        assert(sel.take(n + 1).drop_first() =~= st.take(n));
        assert(files.take(n).drop_first() =~= ft.take(n - 1));
        assert(sel.take(n).drop_first() =~= st.take(n - 1));
        assert(st[n - 1] == sel[n]);
        assert(ft[n - 1] == files[n]);
        assert(files.take(n + 1)[0] == files[0]);
        assert(sel.take(n + 1)[0] == sel[0]);
        assert(sel.take(n)[0] == sel[0]);
        if sel[0] {
            assert(surviving_entries(files.take(n + 1), sel.take(n + 1)) == surviving_entries(
                ft.take(n),
                st.take(n),
            ));
            assert(surviving_entries(files.take(n), sel.take(n)) == surviving_entries(
                ft.take(n - 1),
                st.take(n - 1),
            ));
        } else {
            assert(surviving_entries(files.take(n + 1), sel.take(n + 1)) == seq![files[0]]
                + surviving_entries(ft.take(n), st.take(n)));
            assert(surviving_entries(files.take(n), sel.take(n)) == seq![files[0]]
                + surviving_entries(ft.take(n - 1), st.take(n - 1)));
            assert(seq![files[0]] + (surviving_entries(ft.take(n - 1), st.take(n - 1)) + tail) =~= (
            seq![files[0]] + surviving_entries(ft.take(n - 1), st.take(n - 1))) + tail);
        }
    }
}

/// Among the first `n` entries nothing is selected, so their byte total is
/// zero.
pub proof fn lemma_size_of_unselected(files: Seq<FileInfo>, sel: Seq<bool>, n: int)
    requires
        n <= sel.len(),
        all_unselected(sel),
    ensures
        selected_size_upto(files, sel, n) == 0,
    decreases n,
{
    if n > 0 {
        lemma_size_of_unselected(files, sel, n - 1);
    }
}

/// Law: recording a message keeps the flag sequence parallel to the file
/// sequence, so the parallel shape holds after every step of any sequence of
/// `record` calls that starts from a well-formed model.
pub proof fn lemma_record_keeps_parallel(a: App, msg: ScanMessage, b: App)
    requires
        a.wf(),
        rel_record(a, msg, b),
    ensures
        b.selected@.len() == b.files@.len(),
{
}

/// Law: selecting every entry and then deselecting every entry leaves a flag
/// sequence that is false everywhere and a selected byte total of zero,
/// whatever the prior state was.
pub proof fn lemma_select_all_then_deselect_all(a: App, b: App, c: App)
    requires
        a.wf(),
        rel_select_all(a, b),
        rel_deselect_all(b, c),
    ensures
        all_unselected(c.selected@),
        total_selected_size(c.files@, c.selected@) == 0,
{
    lemma_size_of_unselected(c.files@, c.selected@, c.files@.len() as int);
}

/// Law: a deletion batch that ran to completion leaves no entry selected;
/// every file still in the model has its flag cleared.
pub proof fn lemma_delete_complete_unselected(a: App, b: App)
    requires
        rel_delete_complete(a, b),
    ensures
        all_unselected(b.selected@),
{
}

/// Law: moving the cursor forward from the last index wraps it to index 0.
pub proof fn lemma_cursor_wraps_forward(a: App, b: App, i: usize)
    requires
        a.wf(),
        a.cursor == Some(i),
        i as int == a.files@.len() - 1,
        rel_move_next(a, b),
    ensures
        b.cursor == Some(0usize),
{
}

/// Law: moving the cursor backward from index 0 wraps it to the last index.
pub proof fn lemma_cursor_wraps_backward(a: App, b: App)
    requires
        a.wf(),
        a.files@.len() > 0,
        a.cursor == Some(0usize),
        rel_move_previous(a, b),
    ensures
        b.cursor matches Some(i) && i as int == a.files@.len() - 1,
{
    assert(a.files.len() == a.files@.len());
}

/// Law: on an empty model both cursor moves change nothing.
pub proof fn lemma_cursor_move_empty(a: App, b: App)
    requires
        a.wf(),
        a.files@.len() == 0,
        rel_move_next(a, b) || rel_move_previous(a, b),
    ensures
        b.cursor == a.cursor,
        same_entries(a, b),
        same_scan_progress(a, b),
{
}

/// Law: a completed deletion batch keeps every unselected file.  Whatever
/// stood at an unselected index of the old state appears among the surviving
/// files.
pub proof fn lemma_unselected_files_survive(files: Seq<FileInfo>, sel: Seq<bool>, j: int)
    requires
        sel.len() == files.len(),
        0 <= j < files.len(),
        !sel[j],
    ensures
        surviving_entries(files, sel).contains(files[j]),
    decreases files.len(),
{
    let surv = surviving_entries(files, sel);
    if j == 0 {
        assert(surv[0] == files[0]);
    } else {
        let tail_surv = surviving_entries(files.drop_first(), sel.drop_first());
        lemma_unselected_files_survive(files.drop_first(), sel.drop_first(), j - 1);
        assert(files.drop_first()[j - 1] == files[j]);
        if !sel[0] {
            let k = choose|k: int| 0 <= k < tail_surv.len() && tail_surv[k] == files[j];
            assert(surv[k + 1] == files[j]);
        }
    }
}

/// Law: a deletion batch removes only selected files.  Every file that
/// survives a completed batch stood at some unselected index of the old
/// state.
pub proof fn lemma_survivors_were_unselected(files: Seq<FileInfo>, sel: Seq<bool>, k: int)
    requires
        sel.len() == files.len(),
        0 <= k < surviving_entries(files, sel).len(),
    ensures
        exists|j: int|
            0 <= j < files.len() && !sel[j] && files[j] == surviving_entries(files, sel)[k],
    decreases files.len(),
{
    let surv = surviving_entries(files, sel);
    if sel[0] {
        lemma_survivors_were_unselected(files.drop_first(), sel.drop_first(), k);
        let j = choose|j: int|
            0 <= j < files.drop_first().len() && !sel.drop_first()[j] && files.drop_first()[j]
                == surviving_entries(files.drop_first(), sel.drop_first())[k];
        assert(0 <= j + 1 < files.len() && !sel[j + 1] && files[j + 1] == surv[k]);
    } else {
        if k == 0 {
            assert(0 <= 0 < files.len() && !sel[0] && files[0] == surv[0]);
        } else {
            lemma_survivors_were_unselected(files.drop_first(), sel.drop_first(), k - 1);
            let j = choose|j: int|
                0 <= j < files.drop_first().len() && !sel.drop_first()[j] && files.drop_first()[j]
                    == surviving_entries(files.drop_first(), sel.drop_first())[k - 1];
            assert(surv[k] == surviving_entries(files.drop_first(), sel.drop_first())[k - 1]);
            assert(0 <= j + 1 < files.len() && !sel[j + 1] && files[j + 1] == surv[k]);
        }
    }
}

/// With no entry selected, a completed deletion batch keeps every file.
pub proof fn lemma_surviving_unselected(files: Seq<FileInfo>, sel: Seq<bool>)
    requires
        sel.len() == files.len(),
        all_unselected(sel),
    ensures
        surviving_entries(files, sel) == files,
    decreases files.len(),
{
    if files.len() > 0 {
        assert(all_unselected(sel.drop_first()));
        lemma_surviving_unselected(files.drop_first(), sel.drop_first());
        assert(seq![files[0]] + files.drop_first() =~= files);
    }
}

} // verus!
