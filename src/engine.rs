//! The reconcile engine: what each tick asks the host to do on disk.
use vstd::prelude::*;
use std::path::PathBuf;
use crate::save::{Entry, Save, State};
use crate::scan::{get_state, scan_result};

verus! {

/// Declares std's `PathBuf` to Verus as an opaque type: the engine only
/// carries the two directory paths for the host, and never looks inside them.
#[verifier::external_type_specification]
#[verifier::external_body]
pub struct ExPathBuf(PathBuf);

/// The user's delete selection.
#[derive(Clone, Copy, Debug, PartialEq, Eq, Structural)]
pub enum DeleteState {
    NotDeleting,
    AwaitingIndex,
    /// Delete the record at this position of the current state.
    Delete(usize),
}

/// The kind of a filesystem step, always on a base name.
#[derive(Clone, Copy, Debug, PartialEq, Eq, Structural)]
pub enum ActionKind {
    /// Copy the save directory's file into the backup directory, unless the
    /// source is gone or the destination already exists.
    CopyToBackup,
    /// Copy the backup directory's file into the save directory, unless the
    /// source is gone or the destination already exists.
    CopyToSave,
    /// Remove the file from the backup directory, if it is there.
    RemoveFromBackup,
    /// Remove the file from the save directory, if it is there.
    RemoveFromSave,
}

/// One filesystem step for the host to perform.
pub struct Action {
    pub kind: ActionKind,
    pub name: String,
}

impl View for Action {
    type V = (ActionKind, Seq<char>);

    open spec fn view(&self) -> (ActionKind, Seq<char>) {
        (self.kind, self.name@)
    }
}

/// A step in the abstract: its kind and the base name it acts on.
pub type Step = (ActionKind, Seq<char>);

/// The abstract steps of a list of actions.
pub open spec fn steps(actions: Seq<Action>) -> Seq<Step> {
    actions.map_values(|a: Action| a@)
}

/// The synchronization step for one record: copy the missing side.
pub open spec fn sync_step(s: Save) -> Seq<Step> {
    match s {
        Save::OriginalFileOnly(f) => seq![(ActionKind::CopyToBackup, f.name@)],
        Save::BackupFileOnly(f) => seq![(ActionKind::CopyToSave, f.name@)],
        Save::Both(_, _) => seq![],
    }
}

/// The synchronization branch: each record's step, in order.
pub open spec fn sync_plan(saves: Seq<Save>) -> Seq<Step>
    decreases saves.len(),
{
    if saves.len() == 0 {
        seq![]
    } else {
        sync_plan(saves.drop_last()) + sync_step(saves.last())
    }
}

/// The deletion branch for one record: remove every side that holds it,
/// the backup before the save.
pub open spec fn delete_plan(s: Save) -> Seq<Step> {
    match s {
        Save::OriginalFileOnly(f) => seq![(ActionKind::RemoveFromSave, f.name@)],
        Save::BackupFileOnly(f) => seq![(ActionKind::RemoveFromBackup, f.name@)],
        Save::Both(o, b) => seq![
            (ActionKind::RemoveFromBackup, b.name@),
            (ActionKind::RemoveFromSave, o.name@),
        ],
    }
}

/// What one tick does: a pending delete at a valid position runs the
/// deletion branch alone; a pending delete at a position past the end does
/// nothing; otherwise the synchronization branch runs.
pub open spec fn tick_plan(d: DeleteState, saves: Seq<Save>) -> Seq<Step> {
    match d {
        DeleteState::Delete(i) => if i < saves.len() {
            delete_plan(saves[i as int])
        } else {
            seq![]
        },
        _ => sync_plan(saves),
    }
}

/// The delete selection after a tick: a delete at a valid position is
/// consumed; any other selection stays.
pub open spec fn tick_delete_state(d: DeleteState, saves: Seq<Save>) -> DeleteState {
    match d {
        DeleteState::Delete(i) => if i < saves.len() {
            DeleteState::NotDeleting
        } else {
            d
        },
        _ => d,
    }
}

/// A key press, as far as the engine tells keys apart.
#[derive(Clone, Copy, Debug, PartialEq, Eq, Structural)]
pub enum Key {
    Char(char),
    Esc,
    Other,
}

/// What a key press does: `q` quits, Esc cancels a selection, `d` starts
/// one, and while a selection is awaited a lower-case letter picks the
/// position it names (`a` for the first record). Whether to quit, and the
/// new selection.
pub open spec fn key_transition(d: DeleteState, k: Key) -> (bool, DeleteState) {
    match k {
        Key::Char(c) => if c == 'q' {
            (true, d)
        } else if c == 'd' {
            (false, DeleteState::AwaitingIndex)
        } else if d == DeleteState::AwaitingIndex && 'a' <= c <= 'z' {
            (false, DeleteState::Delete((c as u32 - 'a' as u32) as usize))
        } else {
            (false, d)
        },
        Key::Esc => (false, DeleteState::NotDeleting),
        Key::Other => (false, d),
    }
}

/// The letter that names position `idx` of the displayed state.
pub fn letter(idx: usize) -> (r: char)
    requires
        idx < 26,
    ensures
        r as u32 == 'a' as u32 + idx,
{
    let b: u8 = 97u8 + idx as u8;
    b as char
}

/// The engine: the two directories, the current state and the delete selection.
pub struct App {
    pub save_dir: PathBuf,
    pub backup_dir: PathBuf,
    pub delete_state: DeleteState,
    pub state: State,
}

impl App {
    /// An engine over the two directories, with an empty state and no selection.
    pub fn new(save_dir: PathBuf, backup_dir: PathBuf) -> (r: App)
        ensures
            r.save_dir == save_dir,
            r.backup_dir == backup_dir,
            r.delete_state == DeleteState::NotDeleting,
            r.state.saves@.len() == 0,
    {
        App { save_dir, backup_dir, delete_state: DeleteState::NotDeleting, state: State::new() }
    }

    /// Replaces the state with a fresh scan of the two listings.
    pub fn update_state(&mut self, save_files: &Vec<Entry>, backup_files: &Vec<Entry>)
        ensures
            scan_result(final(self).state.saves@, save_files@, backup_files@),
            final(self).delete_state == old(self).delete_state,
            final(self).save_dir == old(self).save_dir,
            final(self).backup_dir == old(self).backup_dir,
    {
        let state = get_state(save_files, backup_files);
        self.state = state;
    }

    fn sync_actions(saves: &Vec<Save>) -> (r: Vec<Action>)
        ensures
            steps(r@) == sync_plan(saves@),
    {
        let mut plan: Vec<Action> = Vec::new();
        let mut i: usize = 0;
        while i < saves.len()
            invariant
                i <= saves@.len(),
                steps(plan@) == sync_plan(saves@.subrange(0, i as int)),
            decreases saves@.len() - i,
        {
            let ghost before = plan@;
            match &saves[i] {
                Save::OriginalFileOnly(f) => {
                    plan.push(Action { kind: ActionKind::CopyToBackup, name: f.name.clone() });
                },
                Save::BackupFileOnly(f) => {
                    plan.push(Action { kind: ActionKind::CopyToSave, name: f.name.clone() });
                },
                Save::Both(_, _) => {},
            }
            proof {
                let sub = saves@.subrange(0, i as int + 1);
                assert(sub.drop_last() =~= saves@.subrange(0, i as int));
                assert(sub.last() == saves@[i as int]);
                assert(steps(plan@) =~= steps(before) + sync_step(saves@[i as int]));
            }
            i = i + 1;
        }
        assert(saves@.subrange(0, saves@.len() as int) =~= saves@);
        plan
    }

    fn delete_actions(s: &Save) -> (r: Vec<Action>)
        ensures
            steps(r@) == delete_plan(*s),
    {
        let mut plan: Vec<Action> = Vec::new();
        match s {
            Save::OriginalFileOnly(f) => {
                plan.push(Action { kind: ActionKind::RemoveFromSave, name: f.name.clone() });
            },
            Save::BackupFileOnly(f) => {
                plan.push(Action { kind: ActionKind::RemoveFromBackup, name: f.name.clone() });
            },
            Save::Both(o, b) => {
                plan.push(Action { kind: ActionKind::RemoveFromBackup, name: b.name.clone() });
                plan.push(Action { kind: ActionKind::RemoveFromSave, name: o.name.clone() });
            },
        }
        assert(steps(plan@) =~= delete_plan(*s));
        plan
    }

    fn reconcile(&mut self) -> (r: Vec<Action>)
        ensures
            steps(r@) == tick_plan(old(self).delete_state, old(self).state.saves@),
            final(self).delete_state == tick_delete_state(old(self).delete_state, old(self).state.saves@),
            final(self).state.saves@ == old(self).state.saves@,
            final(self).save_dir == old(self).save_dir,
            final(self).backup_dir == old(self).backup_dir,
    {
        if let DeleteState::Delete(idx) = self.delete_state {
            if idx < self.state.saves.len() {
                let plan = Self::delete_actions(&self.state.saves[idx]);
                self.delete_state = DeleteState::NotDeleting;
                return plan;
            }
            return Vec::new();
        }
        Self::sync_actions(&self.state.saves)
    }

    /// One tick of the engine: the steps for the host to perform, in order,
    /// and the delete selection consumed where it was acted on.
    pub fn on_tick(&mut self) -> (r: Vec<Action>)
        ensures
            steps(r@) == tick_plan(old(self).delete_state, old(self).state.saves@),
            final(self).delete_state == tick_delete_state(old(self).delete_state, old(self).state.saves@),
            final(self).state.saves@ == old(self).state.saves@,
            final(self).save_dir == old(self).save_dir,
            final(self).backup_dir == old(self).backup_dir,
    {
        self.reconcile()
    }

    /// Applies a key press to the delete selection; true where the key asks to quit.
    pub fn on_key(&mut self, key: Key) -> (quit: bool)
        ensures
            (quit, final(self).delete_state) == key_transition(old(self).delete_state, key),
            final(self).state.saves@ == old(self).state.saves@,
            final(self).save_dir == old(self).save_dir,
            final(self).backup_dir == old(self).backup_dir,
    {
        match key {
            Key::Char(c) => {
                if c == 'q' {
                    true
                } else if c == 'd' {
                    self.delete_state = DeleteState::AwaitingIndex;
                    false
                } else if self.delete_state == DeleteState::AwaitingIndex && 'a' <= c && c <= 'z' {
                    self.delete_state = DeleteState::Delete((c as u32 - 'a' as u32) as usize);
                    false
                } else {
                    false
                }
            },
            Key::Esc => {
                self.delete_state = DeleteState::NotDeleting;
                false
            },
            Key::Other => false,
        }
    }
}

} // verus!
