//! The event-dispatch engine: session state, removal pass, dispatch of
//! creation-class events, move planning, and read-failure escalation.
//!
//! The surrounding application owns the notification stream and the
//! filesystem; it hands raw notifications in as plain values, and performs
//! the actions decided here.

use vstd::prelude::*;

use crate::directory::{join_spec, join_under_spec, Directory};
use crate::policy::{
    is_hidden, is_hidden_spec, is_ignored_dir, is_ignored_dir_spec, matches_spec, Policy, SLASH,
};
use crate::table::{
    dir_of, has_wd, remove_wd, wd_index, WatchError, WatchTable,
};

verus! {

/// One raw filesystem notification, as plain values: a watch handle, the
/// event-class flags, and the optional entry name.
pub struct FsEvent {
    /// The watch handle the event refers back to.
    pub wd: i32,
    /// Terminal acknowledgment that always follows a self-removal.
    pub ignored: bool,
    /// The watched directory itself was deleted.
    pub delete_self: bool,
    /// The watched directory itself was moved away.
    pub move_self: bool,
    /// The named entry is a directory.
    pub is_dir: bool,
    /// The entry the event is about, if it is about an entry.
    pub name: Option<Vec<u8>>,
}

impl FsEvent {
    /// Removal-class events are applied before any other event of a batch.
    pub open spec fn is_removal(&self) -> bool {
        self.ignored || self.delete_self || self.move_self
    }
}

/// What the removal pass does to the table for one event: a self-deletion
/// or self-move removes the handle's entry; the terminal acknowledgment
/// and creation-class events change nothing.
pub open spec fn rm_step(s: Seq<(i32, Directory)>, e: FsEvent) -> Seq<(i32, Directory)> {
    if e.ignored {
        s
    } else if e.delete_self || e.move_self {
        remove_wd(s, e.wd)
    } else {
        s
    }
}

/// The removal pass over a whole batch, in arrival order.
pub open spec fn rm_all(s: Seq<(i32, Directory)>, evs: Seq<FsEvent>) -> Seq<(i32, Directory)>
    decreases evs.len(),
{
    if evs.len() == 0 {
        s
    } else {
        rm_all(rm_step(s, evs[0]), evs.skip(1))
    }
}

/// The events of a batch that survive the removal pass, in arrival order.
pub open spec fn surviving(evs: Seq<FsEvent>) -> Seq<FsEvent>
    decreases evs.len(),
{
    if evs.len() == 0 {
        evs
    } else if !evs[0].is_removal() {
        seq![evs[0]] + surviving(evs.skip(1))
    } else {
        surviving(evs.skip(1))
    }
}

/// A self-move must also deregister the underlying watch: the path it
/// pointed to no longer resolves to the same logical directory.
pub open spec fn needs_dereg(e: FsEvent) -> bool {
    !e.ignored && !e.delete_self && e.move_self
}

/// The watch handles of a batch whose underlying watches must be
/// deregistered, in arrival order.
pub open spec fn dereg_wds(evs: Seq<FsEvent>) -> Seq<i32>
    decreases evs.len(),
{
    if evs.len() == 0 {
        Seq::empty()
    } else if needs_dereg(evs[0]) {
        seq![evs[0].wd] + dereg_wds(evs.skip(1))
    } else {
        dereg_wds(evs.skip(1))
    }
}

/// The outcome of the removal pass on one event.
pub enum RemovalOutcome {
    /// Not a removal-class event: it must be handled in the second pass.
    NotRemoval,
    /// The terminal acknowledgment: the real cleanup already happened on
    /// the self-deletion or self-move event.
    Acknowledged,
    /// The entry was removed. `found` says whether a live entry existed
    /// (duplicate removal notifications are possible); `deregister` says
    /// the underlying watch itself must be deregistered.
    Removed { found: bool, deregister: bool },
}

/// After a read attempt, the failure flag stands exactly when the read
/// failed.
pub open spec fn read_fail_next(ok: bool) -> bool {
    !ok
}

/// A failed read is fatal exactly when the previous read also failed, with
/// no success in between.
pub open spec fn read_fatal(prev_fail: bool, ok: bool) -> bool {
    prev_fail && !ok
}

/// The reported outcome of the exclusive-create claim of a destination
/// name.
#[derive(Clone, Copy, Debug, PartialEq, Eq, Structural)]
pub enum ClaimOutcome {
    /// The name did not exist and was exclusively created.
    Created,
    /// The name already exists: a collision.
    AlreadyExists,
    /// The claim could not be made at all.
    Failed,
}

/// Errors of the per-file relocation.
#[derive(Clone, Copy, Debug, PartialEq, Eq, Structural)]
pub enum MoveError {
    /// The destination name already exists; the file is not moved.
    CollisionOnClaim,
    /// The destination name could not be claimed.
    ClaimFailed,
    /// The rename after a successful claim failed; the claimed empty
    /// placeholder is left behind and reported.
    RenameFailed,
}

/// The rename may proceed only when the destination name was exclusively
/// created by the claim.
pub open spec fn rename_permitted(claim: ClaimOutcome) -> bool {
    claim == ClaimOutcome::Created
}

/// Decides the fate of one live (non-dry) move after the claim step.
pub fn after_claim(claim: ClaimOutcome) -> (r: Result<(), MoveError>)
    ensures
        (r is Ok) <==> rename_permitted(claim),
        claim == ClaimOutcome::AlreadyExists ==> r == Err::<(), MoveError>(
            MoveError::CollisionOnClaim,
        ),
        claim == ClaimOutcome::Failed ==> r == Err::<(), MoveError>(MoveError::ClaimFailed),
{
    match claim {
        ClaimOutcome::Created => Ok(()),
        ClaimOutcome::AlreadyExists => Err(MoveError::CollisionOnClaim),
        ClaimOutcome::Failed => Err(MoveError::ClaimFailed),
    }
}

/// Refusing to overwrite: a destination name that already exists collides
/// on the claim, and a collision never permits the rename, so the existing
/// file and the source file are left untouched.
pub proof fn lemma_collision_never_renames()
    ensures
        !rename_permitted(ClaimOutcome::AlreadyExists),
        !rename_permitted(ClaimOutcome::Failed),
{
}

/// The monitor session: the watch table, the destination root, and the
/// dry-run and consecutive-failure flags.
pub struct Monitor {
    /// The live watch entries.
    pub table: WatchTable,
    /// The destination root path.
    pub dest: Vec<u8>,
    /// When set, no filesystem mutation is planned; intended actions are
    /// only reported.
    pub dry: bool,
    /// Set after a failed blocking read; a second consecutive failure is
    /// fatal.
    pub fail: bool,
}

impl Monitor {
    /// The session invariant: the watch table's bookkeeping invariant.
    pub open spec fn wf(&self) -> bool {
        self.table.wf()
    }

    /// A fresh session over an empty table.
    pub fn new(dest: Vec<u8>, dry: bool) -> (m: Monitor)
        ensures
            m.wf(),
            m.table.entries@.len() == 0,
            m.dest@ == dest@,
            m.dry == dry,
            !m.fail,
    {
        Monitor { table: WatchTable::new(), dest, dry, fail: false }
    }

    /// First-pass handling of one event: applies a removal if the event is
    /// one, and says what the caller must still do.
    pub fn handle_rm(&mut self, e: &FsEvent) -> (r: RemovalOutcome)
        requires
            old(self).wf(),
        ensures
            final(self).wf(),
            final(self).table.entries@ == rm_step(old(self).table.entries@, *e),
            final(self).dest@ == old(self).dest@,
            final(self).dry == old(self).dry,
            final(self).fail == old(self).fail,
            match r {
                RemovalOutcome::NotRemoval => !e.is_removal(),
                RemovalOutcome::Acknowledged => e.ignored,
                RemovalOutcome::Removed { found, deregister } => !e.ignored && (e.delete_self
                    || e.move_self) && deregister == needs_dereg(*e) && found == has_wd(
                    old(self).table.entries@,
                    e.wd,
                ),
            },
    {
        if e.ignored {
            // The real cleanup happened on the self-deletion or self-move
            // event that this acknowledges.
            return RemovalOutcome::Acknowledged;
        }
        if e.delete_self {
            let found = self.table.remove(e.wd).is_some();
            return RemovalOutcome::Removed { found, deregister: false };
        }
        if e.move_self {
            let found = self.table.remove(e.wd).is_some();
            return RemovalOutcome::Removed { found, deregister: true };
        }
        RemovalOutcome::NotRemoval
    }

    /// Records the outcome of one blocking read of the notification
    /// stream. Returns whether the failure is fatal: a second consecutive
    /// failure with no intervening success.
    pub fn note_read_result(&mut self, ok: bool) -> (fatal: bool)
        requires
            old(self).wf(),
        ensures
            final(self).wf(),
            final(self).table == old(self).table,
            final(self).dest@ == old(self).dest@,
            final(self).dry == old(self).dry,
            final(self).fail == read_fail_next(ok),
            fatal == read_fatal(old(self).fail, ok),
    {
        if ok {
            self.fail = false;
            false
        } else {
            let fatal = self.fail;
            self.fail = true;
            fatal
        }
    }
}

/// The fully resolved plan for relocating one file, handed to the caller
/// for execution.
pub struct MovePlan {
    /// Source path of the file, relative to the watch root.
    pub src: Vec<u8>,
    /// The mirrored destination directory under the destination root.
    pub dst_dir: Vec<u8>,
    /// The full destination path of the file.
    pub dst: Vec<u8>,
    /// Whether the destination directory must be created first: true
    /// exactly on its first use, and never on a dry run.
    pub create_dir: bool,
    /// A dry run: report the intent only, touch nothing.
    pub dry: bool,
    /// Pay the settle delay before this move: set for the first move
    /// attempt of a batch only.
    pub settle: bool,
}

/// What the second pass decides for one surviving event.
pub enum Dispatch {
    /// Nothing to do: the event carries no name, the name is hidden, or
    /// the file is no move candidate.
    Nothing,
    /// The event's handle has no live entry — expected transiently when
    /// removals and creations interleave in one batch; logged and dropped.
    UnknownWd,
    /// A new subdirectory: extend watching recursively at this relative
    /// path.
    WatchSubdir(Vec<u8>),
    /// A matching file: relocate it as planned.
    Move(MovePlan),
}

impl Monitor {
    /// Plans the relocation of `name` out of the directory watched under
    /// `wd`, marking the destination mirror materialized on first use
    /// (unless this is a dry run, which never touches the filesystem).
    pub fn plan_move(&mut self, wd: i32, name: &[u8], settle: bool) -> (r: Result<
        MovePlan,
        WatchError,
    >)
        requires
            old(self).wf(),
        ensures
            final(self).wf(),
            final(self).dest@ == old(self).dest@,
            final(self).dry == old(self).dry,
            final(self).fail == old(self).fail,
            match r {
                Err(err) => err == WatchError::NotFound && !has_wd(old(self).table.entries@, wd)
                    && final(self).table == old(self).table,
                Ok(plan) => has_wd(old(self).table.entries@, wd) && ({
                    let i = wd_index(old(self).table.entries@, wd);
                    let d = dir_of(old(self).table.entries@, wd);
                    &&& plan.src@ == join_spec(d.path@, name@)
                    &&& plan.dst_dir@ == join_under_spec(old(self).dest@, d.path@)
                    &&& plan.dst@ == plan.dst_dir@ + seq![SLASH] + name@
                    &&& plan.dry == old(self).dry
                    &&& plan.settle == settle
                    &&& plan.create_dir == (!old(self).dry && !d.dst_created)
                    &&& (if old(self).dry {
                        final(self).table == old(self).table
                    } else {
                        final(self).table.entries@ == old(self).table.entries@.update(
                            i,
                            (wd, (Directory { dst_created: true, ..d })),
                        )
                    })
                }),
            },
    {
        let i = match self.table.find(wd) {
            Some(i) => i,
            None => {
                return Err(WatchError::NotFound);
            },
        };
        let src = self.table.entries[i].1.join(name);
        let dst_dir = self.table.entries[i].1.dst_path(self.dest.as_slice());
        let was_created = self.table.entries[i].1.dst_created;
        let create_dir = !self.dry && !was_created;
        if !self.dry {
            self.table.mark_dst_created(i);
        }
        let mut dst: Vec<u8> = Vec::new();
        crate::directory::push_all(&mut dst, dst_dir.as_slice());
        dst.push(SLASH);
        crate::directory::push_all(&mut dst, name);
        Ok(MovePlan { src, dst_dir, dst, create_dir, dry: self.dry, settle })
    }

    /// Second-pass handling of one surviving event: resolves its handle,
    /// skips hidden entries, extends watching into new subdirectories, and
    /// plans the move of matching files. The settle delay is planned at
    /// most once per batch, before the first move attempt.
    pub fn handle(&mut self, e: &FsEvent, slept: &mut bool, policy: &Policy) -> (r: Dispatch)
        requires
            old(self).wf(),
        ensures
            final(self).wf(),
            final(self).dest@ == old(self).dest@,
            final(self).dry == old(self).dry,
            final(self).fail == old(self).fail,
            match r {
                Dispatch::Nothing => final(self).table == old(self).table && *final(slept) == *old(
                    slept,
                ) && (e.name is None || is_hidden_spec(e.name->0@) || (has_wd(
                    old(self).table.entries@,
                    e.wd,
                ) && !e.is_dir && !matches_spec(
                    e.name->0@,
                    dir_of(old(self).table.entries@, e.wd).allow_img,
                    policy.exts(),
                ))),
                Dispatch::UnknownWd => final(self).table == old(self).table && *final(slept)
                    == *old(slept) && e.name is Some && !is_hidden_spec(e.name->0@) && !has_wd(
                    old(self).table.entries@,
                    e.wd,
                ),
                Dispatch::WatchSubdir(p) => final(self).table == old(self).table && *final(slept)
                    == *old(slept) && e.name is Some && !is_hidden_spec(e.name->0@) && e.is_dir
                    && has_wd(old(self).table.entries@, e.wd) && p@ == join_spec(
                    dir_of(old(self).table.entries@, e.wd).path@,
                    e.name->0@,
                ),
                Dispatch::Move(plan) => e.name is Some && !is_hidden_spec(e.name->0@) && !e.is_dir
                    && has_wd(old(self).table.entries@, e.wd) && ({
                    let i = wd_index(old(self).table.entries@, e.wd);
                    let d = dir_of(old(self).table.entries@, e.wd);
                    let name = e.name->0;
                    &&& matches_spec(name@, d.allow_img, policy.exts())
                    &&& plan.settle == !*old(slept)
                    &&& *final(slept)
                    &&& plan.src@ == join_spec(d.path@, name@)
                    &&& plan.dst_dir@ == join_under_spec(old(self).dest@, d.path@)
                    &&& plan.dst@ == plan.dst_dir@ + seq![SLASH] + name@
                    &&& plan.dry == old(self).dry
                    &&& plan.create_dir == (!old(self).dry && !d.dst_created)
                    &&& (if old(self).dry {
                        final(self).table == old(self).table
                    } else {
                        final(self).table.entries@ == old(self).table.entries@.update(
                            i,
                            (e.wd, (Directory { dst_created: true, ..d })),
                        )
                    })
                }),
            },
    {
        let name = match &e.name {
            Some(name) => name,
            None => {
                return Dispatch::Nothing;
            },
        };
        if is_hidden(name.as_slice()) {
            return Dispatch::Nothing;
        }
        let i = match self.table.find(e.wd) {
            Some(i) => i,
            None => {
                return Dispatch::UnknownWd;
            },
        };
        if e.is_dir {
            return Dispatch::WatchSubdir(self.table.entries[i].1.join(name.as_slice()));
        }
        if !self.table.entries[i].1.filter_name(name.as_slice(), policy) {
            return Dispatch::Nothing;
        }
        // Wait for the external scanner to settle before the first move
        // attempt of a batch, and only before that one.
        let settle = !*slept;
        *slept = true;
        match self.plan_move(e.wd, name.as_slice(), settle) {
            Ok(plan) => Dispatch::Move(plan),
            Err(_) => {
                // The entry was just found; the plan cannot miss it.
                proof {
                    assert(false);
                }
                Dispatch::UnknownWd
            },
        }
    }
}

/// What a recursive scan does with one directory entry it lists.
pub enum ScanStep {
    /// Skip the entry: hidden, or a file that is not to be moved now.
    Skip,
    /// Skip the subdirectory: its name marks it as already processed.
    SkipIgnored,
    /// Recurse into this subdirectory, at this relative path.
    Recurse(Vec<u8>),
    /// In-place mode: an already-present matching file, to be moved now.
    MoveExisting,
}

/// Decides what a recursive scan does with one listed entry of a watched
/// directory.
pub fn classify_entry(
    dir: &Directory,
    name: &[u8],
    is_dir: bool,
    inplace: bool,
    policy: &Policy,
) -> (r: ScanStep)
    ensures
        match r {
            ScanStep::Skip => is_hidden_spec(name@) || (!is_dir && !(inplace && matches_spec(
                name@,
                dir.allow_img,
                policy.exts(),
            ))),
            ScanStep::SkipIgnored => !is_hidden_spec(name@) && is_dir && is_ignored_dir_spec(
                name@,
                inplace,
            ),
            ScanStep::Recurse(p) => !is_hidden_spec(name@) && is_dir && !is_ignored_dir_spec(
                name@,
                inplace,
            ) && p@ == join_spec(dir.path@, name@),
            ScanStep::MoveExisting => !is_hidden_spec(name@) && !is_dir && inplace && matches_spec(
                name@,
                dir.allow_img,
                policy.exts(),
            ),
        },
{
    if is_hidden(name) {
        return ScanStep::Skip;
    }
    if is_dir {
        if is_ignored_dir(name, inplace) {
            return ScanStep::SkipIgnored;
        }
        return ScanStep::Recurse(dir.join(name));
    }
    if inplace && dir.filter_name(name, policy) {
        return ScanStep::MoveExisting;
    }
    ScanStep::Skip
}

proof fn lemma_rm_all_snoc(s: Seq<(i32, Directory)>, evs: Seq<FsEvent>, e: FsEvent)
    ensures
        rm_all(s, evs.push(e)) == rm_step(rm_all(s, evs), e),
    decreases evs.len(),
{
    reveal_with_fuel(rm_all, 3);
    if evs.len() == 0 {
        assert(evs.push(e)[0] == e);
        assert(evs.push(e).skip(1) =~= Seq::<FsEvent>::empty());
    } else {
        assert(evs.push(e)[0] == evs[0]);
        assert(evs.push(e).skip(1) =~= evs.skip(1).push(e));
        lemma_rm_all_snoc(rm_step(s, evs[0]), evs.skip(1), e);
    }
}

proof fn lemma_surviving_snoc(evs: Seq<FsEvent>, e: FsEvent)
    ensures
        surviving(evs.push(e)) == surviving(evs) + (if !e.is_removal() {
            seq![e]
        } else {
            Seq::<FsEvent>::empty()
        }),
    decreases evs.len(),
{
    reveal_with_fuel(surviving, 3);
    if evs.len() == 0 {
        assert(evs.push(e)[0] == e);
        assert(evs.push(e).skip(1) =~= Seq::<FsEvent>::empty());
        if !e.is_removal() {
            assert(surviving(evs.push(e)) =~= surviving(evs) + seq![e]);
        } else {
            assert(surviving(evs.push(e)) =~= surviving(evs) + Seq::<FsEvent>::empty());
        }
    } else {
        assert(evs.push(e)[0] == evs[0]);
        assert(evs.push(e).skip(1) =~= evs.skip(1).push(e));
        lemma_surviving_snoc(evs.skip(1), e);
        if !evs[0].is_removal() {
            assert(seq![evs[0]] + (surviving(evs.skip(1)) + (if !e.is_removal() {
                seq![e]
            } else {
                Seq::<FsEvent>::empty()
            })) =~= (seq![evs[0]] + surviving(evs.skip(1))) + (if !e.is_removal() {
                seq![e]
            } else {
                Seq::<FsEvent>::empty()
            }));
        }
    }
}

proof fn lemma_dereg_snoc(evs: Seq<FsEvent>, e: FsEvent)
    ensures
        dereg_wds(evs.push(e)) == dereg_wds(evs) + (if needs_dereg(e) {
            seq![e.wd]
        } else {
            Seq::<i32>::empty()
        }),
    decreases evs.len(),
{
    reveal_with_fuel(dereg_wds, 3);
    if evs.len() == 0 {
        assert(evs.push(e)[0] == e);
        assert(evs.push(e).skip(1) =~= Seq::<FsEvent>::empty());
        if needs_dereg(e) {
            assert(dereg_wds(evs.push(e)) =~= dereg_wds(evs) + seq![e.wd]);
        } else {
            assert(dereg_wds(evs.push(e)) =~= dereg_wds(evs) + Seq::<i32>::empty());
        }
    } else {
        assert(evs.push(e)[0] == evs[0]);
        assert(evs.push(e).skip(1) =~= evs.skip(1).push(e));
        lemma_dereg_snoc(evs.skip(1), e);
        if needs_dereg(evs[0]) {
            assert(seq![evs[0].wd] + (dereg_wds(evs.skip(1)) + (if needs_dereg(e) {
                seq![e.wd]
            } else {
                Seq::<i32>::empty()
            })) =~= (seq![evs[0].wd] + dereg_wds(evs.skip(1))) + (if needs_dereg(e) {
                seq![e.wd]
            } else {
                Seq::<i32>::empty()
            }));
        }
    }
}

impl Monitor {
    /// The first pass over a batch: applies every removal-class event, in
    /// arrival order and before any other event is looked at, so that an
    /// inode about to be freed cannot collide with a directory added later
    /// in the same batch. Returns the surviving events, in arrival order,
    /// and the handles whose underlying watches must be deregistered.
    pub fn apply_removals(&mut self, events: Vec<FsEvent>) -> (r: (Vec<FsEvent>, Vec<i32>))
        requires
            old(self).wf(),
        ensures
            final(self).wf(),
            final(self).table.entries@ == rm_all(old(self).table.entries@, events@),
            final(self).dest@ == old(self).dest@,
            final(self).dry == old(self).dry,
            final(self).fail == old(self).fail,
            r.0@ == surviving(events@),
            r.1@ == dereg_wds(events@),
    {
        let ghost evs0 = events@;
        let mut events = events;
        let mut survivors: Vec<FsEvent> = Vec::new();
        let mut deregs: Vec<i32> = Vec::new();
        let ghost mut k: int = 0;
        while events.len() > 0
            invariant
                self.wf(),
                0 <= k <= evs0.len(),
                events@ == evs0.skip(k),
                self.table.entries@ == rm_all(old(self).table.entries@, evs0.take(k)),
                self.dest@ == old(self).dest@,
                self.dry == old(self).dry,
                self.fail == old(self).fail,
                survivors@ == surviving(evs0.take(k)),
                deregs@ == dereg_wds(evs0.take(k)),
            decreases events@.len(),
        {
            let e = events.remove(0);
            proof {
                assert(e == evs0[k]);
                assert(events@ =~= evs0.skip(k + 1));
            }
            let outcome = self.handle_rm(&e);
            proof {
                lemma_rm_all_snoc(old(self).table.entries@, evs0.take(k), evs0[k]);
                lemma_surviving_snoc(evs0.take(k), evs0[k]);
                lemma_dereg_snoc(evs0.take(k), evs0[k]);
                assert(evs0.take(k + 1) =~= evs0.take(k).push(evs0[k]));
            }
            match outcome {
                RemovalOutcome::NotRemoval => {
                    survivors.push(e);
                    proof {
                        assert(survivors@ =~= surviving(evs0.take(k + 1)));
                        assert(deregs@ =~= dereg_wds(evs0.take(k + 1)));
                    }
                },
                RemovalOutcome::Acknowledged => {
                    proof {
                        assert(survivors@ =~= surviving(evs0.take(k + 1)));
                        assert(deregs@ =~= dereg_wds(evs0.take(k + 1)));
                    }
                },
                RemovalOutcome::Removed { found: _, deregister } => {
                    if deregister {
                        deregs.push(e.wd);
                    }
                    proof {
                        assert(survivors@ =~= surviving(evs0.take(k + 1)));
                        assert(deregs@ =~= dereg_wds(evs0.take(k + 1)));
                    }
                },
            }
            proof {
                k = k + 1;
            }
        }
        proof {
            assert(evs0.take(k) =~= evs0);
        }
        (survivors, deregs)
    }
}

/// A self-removal followed by its terminal acknowledgment produces exactly
/// one logical removal from the table, not two: the acknowledgment changes
/// nothing. And under unique handles, even a duplicate removal
/// notification for the same handle changes nothing more.
pub proof fn lemma_removal_applied_once(s: Seq<(i32, Directory)>, del: FsEvent, ack: FsEvent)
    requires
        !del.ignored,
        del.delete_self || del.move_self,
        ack.ignored,
        forall|a: int, b: int| 0 <= a < b < s.len() ==> s[a].0 != s[b].0,
    ensures
        rm_step(rm_step(s, del), ack) == remove_wd(s, del.wd),
        rm_step(rm_step(rm_step(s, del), ack), del) == remove_wd(s, del.wd),
{
    lemma_remove_wd_gone(s, del.wd);
    crate::table::lemma_remove_wd_absent(remove_wd(s, del.wd), del.wd);
}

/// After a removal under unique handles, the handle has no live entry
/// left.
pub proof fn lemma_remove_wd_gone(s: Seq<(i32, Directory)>, wd: i32)
    requires
        forall|a: int, b: int| 0 <= a < b < s.len() ==> s[a].0 != s[b].0,
    ensures
        !has_wd(remove_wd(s, wd), wd),
    decreases s.len(),
{
    if s.len() > 0 {
        if s[0].0 == wd {
            assert forall|i: int| 0 <= i < s.skip(1).len() implies s.skip(1)[i].0 != wd by {
                assert(s.skip(1)[i] == s[i + 1]);
            }
        } else {
            assert forall|a: int, b: int|
                0 <= a < b < s.skip(1).len() implies s.skip(1)[a].0 != s.skip(1)[b].0 by {
                assert(s.skip(1)[a] == s[a + 1]);
                assert(s.skip(1)[b] == s[b + 1]);
            }
            lemma_remove_wd_gone(s.skip(1), wd);
            let t = seq![s[0]] + remove_wd(s.skip(1), wd);
            assert forall|i: int| 0 <= i < t.len() implies t[i].0 != wd by {
                if i > 0 {
                    assert(t[i] == remove_wd(s.skip(1), wd)[i - 1]);
                }
            }
        }
    }
}

/// Two consecutive failures of the blocking read with no intervening
/// success are fatal; one isolated failure followed by a success is not,
/// and does not make a later failure fatal either.
pub proof fn lemma_read_failure_escalation()
    ensures
        read_fatal(read_fail_next(false), false),
        !read_fatal(read_fail_next(false), true),
        !read_fatal(read_fail_next(true), false),
{
}

} // verus!
