//! The dispatcher: the single owner of the device-to-job registry.
//!
//! The dispatcher turns the racing inputs of the daemon — device attachments,
//! device detachments, and the delayed results of asynchronous start
//! sequences — into a consistent registry holding at most one live job per
//! attached device. It is a pure state machine: every transition takes one
//! message and returns an [`Action`] for the surrounding event loop to
//! perform (launch a start sequence, cancel and join a job). The event loop
//! feeds messages in serially, so the registry has a single writer.
//!
//! Each start sequence is named by a fresh token. A `JobReady` result is
//! registered only if its token is still the one the registry expects for
//! that device; a detachment, or a newer attachment of the same device,
//! retires the token, so a late or superseded job is discarded — cancelled
//! without ever being registered.

use vstd::prelude::*;

verus! {

/// One tracked device: its object path, the token of its current start
/// sequence or job, and whether that job is live (registered) or the start
/// sequence is still in flight.
pub struct DeviceEntry {
    /// The object path of the device; the registry key.
    pub id: String,
    /// The token naming the device's current start sequence or job.
    pub token: u64,
    /// True when a job is registered; false while the start is in flight.
    pub live: bool,
}

/// Mathematical model of one registry entry.
pub struct EntryModel {
    pub id: Seq<char>,
    pub token: int,
    pub live: bool,
}

impl View for DeviceEntry {
    type V = EntryModel;

    open spec fn view(&self) -> EntryModel {
        EntryModel { id: self.id@, token: self.token as int, live: self.live }
    }
}

/// What the dispatcher asks its event loop to do after one transition.
pub enum Action {
    /// Launch the asynchronous start sequence (mount, resolve the
    /// configuration, build the job) for this device, under this token.
    StartSequence { object_path: String, token: u64 },
    /// Cancel the registered job named by this token and wait until it has
    /// fully stopped before handling further messages for its device.
    CancelAndJoin { token: u64 },
    /// Cancel the never-registered job named by this token: its device is no
    /// longer wanted, so the job is discarded without entering the registry.
    DiscardJob { token: u64 },
    /// Nothing to do.
    Nothing,
}

/// Mathematical model of an [`Action`].
pub enum ActionModel {
    StartSequence { id: Seq<char>, token: int },
    CancelAndJoin { token: int },
    DiscardJob { token: int },
    Nothing,
}

impl View for Action {
    type V = ActionModel;

    open spec fn view(&self) -> ActionModel {
        match self {
            Action::StartSequence { object_path, token } => ActionModel::StartSequence {
                id: object_path@,
                token: *token as int,
            },
            Action::CancelAndJoin { token } => ActionModel::CancelAndJoin {
                token: *token as int,
            },
            Action::DiscardJob { token } => ActionModel::DiscardJob { token: *token as int },
            Action::Nothing => ActionModel::Nothing,
        }
    }
}

/// Mathematical model of the dispatcher. `started` holds the tokens of every
/// job ever registered; `stopped` holds the tokens of every registered job
/// for which a cancel-and-join has been ordered. Both only grow.
pub struct DispatcherModel {
    pub entries: Seq<EntryModel>,
    pub next_token: int,
    pub shut_down: bool,
    pub started: Set<int>,
    pub stopped: Set<int>,
}

/// Index of the first entry with this id, or -1 if there is none.
pub open spec fn find_entry_from(s: Seq<EntryModel>, id: Seq<char>, i: int) -> int
    decreases s.len() - i,
{
    if i < 0 || i >= s.len() {
        -1
    } else if s[i].id == id {
        i
    } else {
        find_entry_from(s, id, i + 1)
    }
}

pub open spec fn find_entry(s: Seq<EntryModel>, id: Seq<char>) -> int {
    find_entry_from(s, id, 0)
}

/// Index of the first entry with this token, or -1 if there is none.
pub open spec fn find_token_from(s: Seq<EntryModel>, token: int, i: int) -> int
    decreases s.len() - i,
{
    if i < 0 || i >= s.len() {
        -1
    } else if s[i].token == token {
        i
    } else {
        find_token_from(s, token, i + 1)
    }
}

pub open spec fn find_token(s: Seq<EntryModel>, token: int) -> int {
    find_token_from(s, token, 0)
}

/// The tokens of the live (registered) entries.
pub open spec fn live_tokens(s: Seq<EntryModel>) -> Set<int>
    decreases s.len(),
{
    if s.len() == 0 {
        Set::empty()
    } else if s.last().live {
        live_tokens(s.drop_last()).insert(s.last().token)
    } else {
        live_tokens(s.drop_last())
    }
}

/// How many entries hold a live job.
pub open spec fn count_live(s: Seq<EntryModel>) -> int
    decreases s.len(),
{
    if s.len() == 0 {
        0
    } else {
        count_live(s.drop_last()) + (if s.last().live {
            1int
        } else {
            0int
        })
    }
}

/// The cancel-and-join orders for every live entry, in registry order.
pub open spec fn shutdown_actions(s: Seq<EntryModel>) -> Seq<ActionModel>
    decreases s.len(),
{
    if s.len() == 0 {
        Seq::empty()
    } else if s.last().live {
        shutdown_actions(s.drop_last()).push(
            ActionModel::CancelAndJoin { token: s.last().token },
        )
    } else {
        shutdown_actions(s.drop_last())
    }
}

impl DispatcherModel {
    /// The dispatcher's invariant: device ids are distinct, so the registry
    /// holds at most one entry — and hence at most one job — per device;
    /// tokens are distinct and below the counter, so no token is ever issued
    /// twice; every job ever registered is either still live or has had
    /// exactly one cancel-and-join ordered for it, never both.
    pub open spec fn wf(self) -> bool {
        &&& 0 <= self.next_token
        &&& forall|i: int, j: int|
            0 <= i < j < self.entries.len() ==> self.entries[i].id != self.entries[j].id
        &&& forall|i: int, j: int|
            0 <= i < j < self.entries.len() ==> self.entries[i].token != self.entries[j].token
        &&& forall|i: int|
            0 <= i < self.entries.len() ==> 0 <= #[trigger] self.entries[i].token
                < self.next_token
        &&& forall|t: int| self.started.contains(t) ==> 0 <= t < self.next_token
        &&& self.started == self.stopped.union(live_tokens(self.entries))
        &&& self.stopped.disjoint(live_tokens(self.entries))
        &&& forall|i: int|
            0 <= i < self.entries.len() && !(#[trigger] self.entries[i]).live
                ==> !self.started.contains(self.entries[i].token)
    }
}

/// The transition for a device attachment. A device with a live job keeps it
/// (a duplicate attach notification is a bus race and is idempotent); a
/// device whose start is still in flight gets a fresh token, superseding the
/// old start; an unknown device is entered with a fresh token. Either way a
/// new start sequence is ordered, except after shutdown, which accepts no
/// new starts.
pub open spec fn spec_attached(d: DispatcherModel, id: Seq<char>) -> (DispatcherModel, ActionModel) {
    if d.shut_down {
        (d, ActionModel::Nothing)
    } else {
        let j = find_entry(d.entries, id);
        if j >= 0 {
            if d.entries[j].live {
                (d, ActionModel::Nothing)
            } else {
                (
                    DispatcherModel {
                        entries: d.entries.update(
                            j,
                            EntryModel { id: d.entries[j].id, token: d.next_token, live: false },
                        ),
                        next_token: d.next_token + 1,
                        ..d
                    },
                    ActionModel::StartSequence { id, token: d.next_token },
                )
            }
        } else {
            (
                DispatcherModel {
                    entries: d.entries.push(EntryModel { id, token: d.next_token, live: false }),
                    next_token: d.next_token + 1,
                    ..d
                },
                ActionModel::StartSequence { id, token: d.next_token },
            )
        }
    }
}

/// The transition for a device detachment. A live job is removed from the
/// registry and ordered cancelled and joined; an in-flight start is retired,
/// so its eventual result will be discarded; an unknown device changes
/// nothing — a stray detach notification is valid and idempotent.
pub open spec fn spec_detached(d: DispatcherModel, id: Seq<char>) -> (DispatcherModel, ActionModel) {
    let j = find_entry(d.entries, id);
    if j >= 0 {
        if d.entries[j].live {
            (
                DispatcherModel {
                    entries: d.entries.remove(j),
                    stopped: d.stopped.insert(d.entries[j].token),
                    ..d
                },
                ActionModel::CancelAndJoin { token: d.entries[j].token },
            )
        } else {
            (DispatcherModel { entries: d.entries.remove(j), ..d }, ActionModel::Nothing)
        }
    } else {
        (d, ActionModel::Nothing)
    }
}

/// The transition for a completed start sequence. The job is registered only
/// if its token is still the one expected for its device: otherwise — the
/// device detached meanwhile, a newer attachment superseded this start, or
/// shutdown began — the job is discarded, cancelled without ever being
/// registered.
pub open spec fn spec_job_ready(d: DispatcherModel, token: int) -> (DispatcherModel, ActionModel) {
    if d.shut_down {
        (d, ActionModel::DiscardJob { token })
    } else {
        let j = find_token(d.entries, token);
        if j >= 0 && !d.entries[j].live {
            (
                DispatcherModel {
                    entries: d.entries.update(
                        j,
                        EntryModel { id: d.entries[j].id, token: d.entries[j].token, live: true },
                    ),
                    started: d.started.insert(token),
                    ..d
                },
                ActionModel::Nothing,
            )
        } else {
            (d, ActionModel::DiscardJob { token })
        }
    }
}

/// The transition for a failed start sequence (mount or configuration
/// failure, or backups disabled). The device's pending entry is dropped; the
/// failure is per-device and the dispatcher keeps serving other events.
pub open spec fn spec_start_failed(d: DispatcherModel, token: int) -> DispatcherModel {
    let j = find_token(d.entries, token);
    if j >= 0 && !d.entries[j].live {
        DispatcherModel { entries: d.entries.remove(j), ..d }
    } else {
        d
    }
}

/// The transition for a job that stopped itself because its work unit failed
/// irrecoverably. The failure is per-device and non-fatal: the job leaves the
/// registry and its task is joined; every other device is unaffected.
pub open spec fn spec_job_failed(d: DispatcherModel, token: int) -> (DispatcherModel, ActionModel) {
    let j = find_token(d.entries, token);
    if j >= 0 && d.entries[j].live {
        (
            DispatcherModel {
                entries: d.entries.remove(j),
                stopped: d.stopped.insert(d.entries[j].token),
                ..d
            },
            ActionModel::CancelAndJoin { token: d.entries[j].token },
        )
    } else {
        (d, ActionModel::Nothing)
    }
}

/// The shutdown transition: every live job is ordered cancelled and joined,
/// the registry empties, and no new starts are accepted from here on.
pub open spec fn spec_shutdown(d: DispatcherModel) -> (DispatcherModel, Seq<ActionModel>) {
    (
        DispatcherModel {
            entries: Seq::empty(),
            shut_down: true,
            stopped: d.stopped.union(live_tokens(d.entries)),
            ..d
        },
        shutdown_actions(d.entries),
    )
}

proof fn lemma_find_entry_from_none(s: Seq<EntryModel>, id: Seq<char>, i: int)
    requires
        0 <= i <= s.len(),
        forall|k: int| i <= k < s.len() ==> s[k].id != id,
    ensures
        find_entry_from(s, id, i) == -1,
    decreases s.len() - i,
{
    if i < s.len() {
        lemma_find_entry_from_none(s, id, i + 1);
    }
}

proof fn lemma_find_entry_from_at(s: Seq<EntryModel>, id: Seq<char>, i: int, j: int)
    requires
        0 <= i <= j < s.len(),
        s[j].id == id,
        forall|k: int| i <= k < j ==> s[k].id != id,
    ensures
        find_entry_from(s, id, i) == j,
    decreases j - i,
{
    if i < j {
        lemma_find_entry_from_at(s, id, i + 1, j);
    }
}

proof fn lemma_find_entry_props(s: Seq<EntryModel>, id: Seq<char>, i: int)
    requires
        0 <= i <= s.len(),
    ensures
        find_entry_from(s, id, i) == -1 || find_entry_from(s, id, i) >= i,
        find_entry_from(s, id, i) == -1 ==> forall|k: int| i <= k < s.len() ==> s[k].id != id,
        find_entry_from(s, id, i) >= 0 ==> i <= find_entry_from(s, id, i) < s.len()
            && s[find_entry_from(s, id, i)].id == id,
    decreases s.len() - i,
{
    if i < s.len() && s[i].id != id {
        lemma_find_entry_props(s, id, i + 1);
    }
}

proof fn lemma_find_token_from_none(s: Seq<EntryModel>, token: int, i: int)
    requires
        0 <= i <= s.len(),
        forall|k: int| i <= k < s.len() ==> s[k].token != token,
    ensures
        find_token_from(s, token, i) == -1,
    decreases s.len() - i,
{
    if i < s.len() {
        lemma_find_token_from_none(s, token, i + 1);
    }
}

proof fn lemma_find_token_from_at(s: Seq<EntryModel>, token: int, i: int, j: int)
    requires
        0 <= i <= j < s.len(),
        s[j].token == token,
        forall|k: int| i <= k < j ==> s[k].token != token,
    ensures
        find_token_from(s, token, i) == j,
    decreases j - i,
{
    if i < j {
        lemma_find_token_from_at(s, token, i + 1, j);
    }
}

proof fn lemma_find_token_props(s: Seq<EntryModel>, token: int, i: int)
    requires
        0 <= i <= s.len(),
    ensures
        find_token_from(s, token, i) == -1 || find_token_from(s, token, i) >= i,
        find_token_from(s, token, i) == -1 ==> forall|k: int| i <= k < s.len() ==> s[k].token
            != token,
        find_token_from(s, token, i) >= 0 ==> i <= find_token_from(s, token, i) < s.len()
            && s[find_token_from(s, token, i)].token == token,
    decreases s.len() - i,
{
    if i < s.len() && s[i].token != token {
        lemma_find_token_props(s, token, i + 1);
    }
}

/// A token is live exactly when some live entry carries it.
proof fn lemma_live_tokens_membership(s: Seq<EntryModel>)
    ensures
        forall|t: int|
            live_tokens(s).contains(t) <==> exists|i: int|
                0 <= i < s.len() && #[trigger] s[i].live && s[i].token == t,
    decreases s.len(),
{
    if s.len() > 0 {
        lemma_live_tokens_membership(s.drop_last());
        assert forall|t: int| live_tokens(s).contains(t) implies exists|i: int|
            0 <= i < s.len() && #[trigger] s[i].live && s[i].token == t by {
            if s.last().live && s.last().token == t {
                assert(s[s.len() - 1].live && s[s.len() - 1].token == t);
            } else {
                assert(live_tokens(s.drop_last()).contains(t));
                let i = choose|i: int|
                    0 <= i < s.drop_last().len() && #[trigger] s.drop_last()[i].live
                        && s.drop_last()[i].token == t;
                assert(s[i].live && s[i].token == t);
            }
        }
        assert forall|t: int|
            (exists|i: int| 0 <= i < s.len() && #[trigger] s[i].live && s[i].token == t)
            implies live_tokens(s).contains(t) by {
            let i = choose|i: int| 0 <= i < s.len() && #[trigger] s[i].live && s[i].token == t;
            if i == s.len() - 1 {
                assert(live_tokens(s).contains(t));
            } else {
                assert(s.drop_last()[i].live && s.drop_last()[i].token == t);
                assert(live_tokens(s.drop_last()).contains(t));
            }
        }
    }
}

proof fn lemma_live_tokens_push_nonlive(s: Seq<EntryModel>, e: EntryModel)
    requires
        !e.live,
    ensures
        live_tokens(s.push(e)) == live_tokens(s),
{
    assert(s.push(e).drop_last() =~= s);
}

proof fn lemma_live_tokens_update_nonlive(s: Seq<EntryModel>, j: int, e: EntryModel)
    requires
        0 <= j < s.len(),
        !s[j].live,
        !e.live,
    ensures
        live_tokens(s.update(j, e)) == live_tokens(s),
{
    let s2 = s.update(j, e);
    lemma_live_tokens_membership(s);
    lemma_live_tokens_membership(s2);
    assert forall|t: int| live_tokens(s2).contains(t) implies live_tokens(s).contains(t) by {
        let i = choose|i: int| 0 <= i < s2.len() && #[trigger] s2[i].live && s2[i].token == t;
        assert(s[i].live && s[i].token == t);
    }
    assert forall|t: int| live_tokens(s).contains(t) implies live_tokens(s2).contains(t) by {
        let i = choose|i: int| 0 <= i < s.len() && #[trigger] s[i].live && s[i].token == t;
        assert(s2[i].live && s2[i].token == t);
    }
    assert(live_tokens(s2) =~= live_tokens(s));
}

proof fn lemma_live_tokens_update_register(s: Seq<EntryModel>, j: int, e: EntryModel)
    requires
        0 <= j < s.len(),
        !s[j].live,
        e.live,
    ensures
        live_tokens(s.update(j, e)) == live_tokens(s).insert(e.token),
{
    let s2 = s.update(j, e);
    lemma_live_tokens_membership(s);
    lemma_live_tokens_membership(s2);
    assert forall|t: int|
        live_tokens(s2).contains(t) implies live_tokens(s).insert(e.token).contains(t) by {
        let i = choose|i: int| 0 <= i < s2.len() && #[trigger] s2[i].live && s2[i].token == t;
        if i != j {
            assert(s[i].live && s[i].token == t);
        }
    }
    assert forall|t: int|
        live_tokens(s).insert(e.token).contains(t) implies live_tokens(s2).contains(t) by {
        if t == e.token {
            assert(s2[j].live && s2[j].token == t);
        } else {
            let i = choose|i: int| 0 <= i < s.len() && #[trigger] s[i].live && s[i].token == t;
            assert(i != j);
            assert(s2[i].live && s2[i].token == t);
        }
    }
    assert(live_tokens(s2) =~= live_tokens(s).insert(e.token));
}

proof fn lemma_live_tokens_remove_nonlive(s: Seq<EntryModel>, j: int)
    requires
        0 <= j < s.len(),
        !s[j].live,
    ensures
        live_tokens(s.remove(j)) == live_tokens(s),
{
    let s2 = s.remove(j);
    s.remove_ensures(j);
    lemma_live_tokens_membership(s);
    lemma_live_tokens_membership(s2);
    assert forall|t: int| live_tokens(s2).contains(t) implies live_tokens(s).contains(t) by {
        let i = choose|i: int| 0 <= i < s2.len() && #[trigger] s2[i].live && s2[i].token == t;
        if i < j {
            assert(s[i].live && s[i].token == t);
        } else {
            assert(s[i + 1].live && s[i + 1].token == t);
        }
    }
    assert forall|t: int| live_tokens(s).contains(t) implies live_tokens(s2).contains(t) by {
        let i = choose|i: int| 0 <= i < s.len() && #[trigger] s[i].live && s[i].token == t;
        assert(i != j);
        if i < j {
            assert(s2[i].live && s2[i].token == t);
        } else {
            assert(s2[i - 1].live && s2[i - 1].token == t);
        }
    }
    assert(live_tokens(s2) =~= live_tokens(s));
}

proof fn lemma_live_tokens_remove_live(s: Seq<EntryModel>, j: int)
    requires
        0 <= j < s.len(),
        s[j].live,
        forall|i: int, k: int| 0 <= i < k < s.len() ==> s[i].token != s[k].token,
    ensures
        live_tokens(s.remove(j)) == live_tokens(s).remove(s[j].token),
{
    let s2 = s.remove(j);
    let t0 = s[j].token;
    s.remove_ensures(j);
    lemma_live_tokens_membership(s);
    lemma_live_tokens_membership(s2);
    assert forall|t: int|
        live_tokens(s2).contains(t) implies live_tokens(s).remove(t0).contains(t) by {
        let i = choose|i: int| 0 <= i < s2.len() && #[trigger] s2[i].live && s2[i].token == t;
        if i < j {
            assert(s[i].live && s[i].token == t);
            assert(t != t0);
        } else {
            assert(s[i + 1].live && s[i + 1].token == t);
            assert(t != t0);
        }
    }
    assert forall|t: int|
        live_tokens(s).remove(t0).contains(t) implies live_tokens(s2).contains(t) by {
        let i = choose|i: int| 0 <= i < s.len() && #[trigger] s[i].live && s[i].token == t;
        assert(i != j);
        if i < j {
            assert(s2[i].live && s2[i].token == t);
        } else {
            assert(s2[i - 1].live && s2[i - 1].token == t);
        }
    }
    assert(live_tokens(s2) =~= live_tokens(s).remove(t0));
}

/// The attachment transition preserves the invariant.
pub proof fn lemma_attached_preserves_wf(d: DispatcherModel, id: Seq<char>)
    requires
        d.wf(),
    ensures
        spec_attached(d, id).0.wf(),
{
    if !d.shut_down {
        let j = find_entry(d.entries, id);
        lemma_find_entry_props(d.entries, id, 0);
        if j >= 0 {
            if !d.entries[j].live {
                let e = EntryModel { id: d.entries[j].id, token: d.next_token, live: false };
                lemma_live_tokens_update_nonlive(d.entries, j, e);
                let d2 = spec_attached(d, id).0;
                assert forall|i: int, k: int|
                    0 <= i < k < d2.entries.len() implies d2.entries[i].id
                    != d2.entries[k].id by {
                    assert(d2.entries[i].id == d.entries[i].id);
                    assert(d2.entries[k].id == d.entries[k].id);
                }
                assert(d2.started == d2.stopped.union(live_tokens(d2.entries)));
            }
        } else {
            let e = EntryModel { id, token: d.next_token, live: false };
            lemma_live_tokens_push_nonlive(d.entries, e);
            let d2 = spec_attached(d, id).0;
            assert(forall|k: int|
                0 <= k < d.entries.len() ==> d2.entries[k] == d.entries[k]);
            assert(d2.entries[d.entries.len() as int] == e);
            assert forall|i: int, k: int|
                0 <= i < k < d2.entries.len() implies d2.entries[i].id != d2.entries[k].id by {
                if k == d.entries.len() as int {
                    assert(d.entries[i].id != id);
                }
            }
            assert(d2.started == d2.stopped.union(live_tokens(d2.entries)));
        }
    }
}

/// The detachment transition preserves the invariant.
pub proof fn lemma_detached_preserves_wf(d: DispatcherModel, id: Seq<char>)
    requires
        d.wf(),
    ensures
        spec_detached(d, id).0.wf(),
{
    let j = find_entry(d.entries, id);
    lemma_find_entry_props(d.entries, id, 0);
    if j >= 0 {
        let d2 = spec_detached(d, id).0;
        d.entries.remove_ensures(j);
        lemma_live_tokens_membership(d.entries);
        if d.entries[j].live {
            let t0 = d.entries[j].token;
            lemma_live_tokens_remove_live(d.entries, j);
            assert(live_tokens(d.entries).contains(t0));
            assert(d2.started =~= d2.stopped.union(live_tokens(d2.entries)));
            assert(d2.stopped.disjoint(live_tokens(d2.entries)));
            assert forall|i: int|
                0 <= i < d2.entries.len() && !(#[trigger] d2.entries[i]).live
                implies !d2.started.contains(d2.entries[i].token) by {
                if i < j {
                    assert(d2.entries[i] == d.entries[i]);
                } else {
                    assert(d2.entries[i] == d.entries[i + 1]);
                }
            }
        } else {
            lemma_live_tokens_remove_nonlive(d.entries, j);
            assert(d2.started == d2.stopped.union(live_tokens(d2.entries)));
        }
    }
}

/// The job-registration transition preserves the invariant.
pub proof fn lemma_job_ready_preserves_wf(d: DispatcherModel, token: int)
    requires
        d.wf(),
    ensures
        spec_job_ready(d, token).0.wf(),
{
    if !d.shut_down {
        let j = find_token(d.entries, token);
        lemma_find_token_props(d.entries, token, 0);
        if j >= 0 && !d.entries[j].live {
            let e = EntryModel { id: d.entries[j].id, token: d.entries[j].token, live: true };
            lemma_live_tokens_update_register(d.entries, j, e);
            let d2 = spec_job_ready(d, token).0;
            assert(!d.started.contains(token));
            assert(!d.stopped.contains(token)) by {
                assert(d.stopped.subset_of(d.started));
            }
            assert(d2.started =~= d2.stopped.union(live_tokens(d2.entries)));
            assert(d2.stopped.disjoint(live_tokens(d2.entries)));
        }
    }
}

/// The failed-start transition preserves the invariant.
pub proof fn lemma_start_failed_preserves_wf(d: DispatcherModel, token: int)
    requires
        d.wf(),
    ensures
        spec_start_failed(d, token).wf(),
{
    let j = find_token(d.entries, token);
    lemma_find_token_props(d.entries, token, 0);
    if j >= 0 && !d.entries[j].live {
        let d2 = spec_start_failed(d, token);
        d.entries.remove_ensures(j);
        lemma_live_tokens_remove_nonlive(d.entries, j);
        assert(d2.started == d2.stopped.union(live_tokens(d2.entries)));
        assert forall|i: int|
            0 <= i < d2.entries.len() && !(#[trigger] d2.entries[i]).live
            implies !d2.started.contains(d2.entries[i].token) by {
            if i < j {
                assert(d2.entries[i] == d.entries[i]);
            } else {
                assert(d2.entries[i] == d.entries[i + 1]);
            }
        }
    }
}

/// The job-failure transition preserves the invariant.
pub proof fn lemma_job_failed_preserves_wf(d: DispatcherModel, token: int)
    requires
        d.wf(),
    ensures
        spec_job_failed(d, token).0.wf(),
{
    let j = find_token(d.entries, token);
    lemma_find_token_props(d.entries, token, 0);
    if j >= 0 && d.entries[j].live {
        let t0 = d.entries[j].token;
        let d2 = spec_job_failed(d, token).0;
        d.entries.remove_ensures(j);
        lemma_live_tokens_membership(d.entries);
        lemma_live_tokens_remove_live(d.entries, j);
        assert(live_tokens(d.entries).contains(t0));
        assert(d2.started =~= d2.stopped.union(live_tokens(d2.entries)));
        assert(d2.stopped.disjoint(live_tokens(d2.entries)));
        assert forall|i: int|
            0 <= i < d2.entries.len() && !(#[trigger] d2.entries[i]).live
            implies !d2.started.contains(d2.entries[i].token) by {
            if i < j {
                assert(d2.entries[i] == d.entries[i]);
            } else {
                assert(d2.entries[i] == d.entries[i + 1]);
            }
        }
    }
}

/// The shutdown transition preserves the invariant, and afterwards every job
/// ever registered has had its one cancel-and-join ordered: nothing leaks.
pub proof fn lemma_shutdown_preserves_wf(d: DispatcherModel)
    requires
        d.wf(),
    ensures
        spec_shutdown(d).0.wf(),
        spec_shutdown(d).0.started == spec_shutdown(d).0.stopped,
{
    let d2 = spec_shutdown(d).0;
    assert(live_tokens(d2.entries) =~= Set::<int>::empty());
    assert(d2.stopped =~= d2.started);
    assert(d2.started =~= d2.stopped.union(live_tokens(d2.entries)));
}

/// The registry holds at most one entry — and hence at most one job — per
/// device identity: two entries with the same id are the same entry.
pub proof fn lemma_one_job_per_device(d: DispatcherModel, i: int, j: int)
    requires
        d.wf(),
        0 <= i < d.entries.len(),
        0 <= j < d.entries.len(),
        d.entries[i].id == d.entries[j].id,
    ensures
        i == j,
{
    if i < j {
        assert(d.entries[i].id != d.entries[j].id);
    }
    if j < i {
        assert(d.entries[j].id != d.entries[i].id);
    }
}

/// The undisturbed start path always registers: a new device attaches, its
/// start sequence completes, nothing intervenes — then exactly that job is
/// live under the device's identity, registered under the issued token.
pub proof fn lemma_undisturbed_start_registers_job(d: DispatcherModel, id: Seq<char>)
    requires
        d.wf(),
        !d.shut_down,
        find_entry(d.entries, id) == -1,
    ensures
        ({
            let t = d.next_token;
            let d1 = spec_attached(d, id).0;
            let d2 = spec_job_ready(d1, t).0;
            let j = find_entry(d2.entries, id);
            &&& spec_job_ready(d1, t).1 == ActionModel::Nothing
            &&& 0 <= j < d2.entries.len()
            &&& d2.entries[j].live
            &&& d2.entries[j].token == t
            &&& d2.started.contains(t)
        }),
{
    let t = d.next_token;
    let len = d.entries.len() as int;
    lemma_find_entry_props(d.entries, id, 0);
    let e1 = EntryModel { id, token: t, live: false };
    let p = d.entries.push(e1);
    let d1 = spec_attached(d, id).0;
    assert(d1.entries == p);
    assert(forall|k: int| 0 <= k < len ==> p[k] == d.entries[k]);
    assert(p[len] == e1);
    assert(forall|k: int| 0 <= k < len ==> p[k].token != t);
    lemma_find_token_from_at(p, t, 0, len);
    let d2 = spec_job_ready(d1, t).0;
    let reg = EntryModel { id, token: t, live: true };
    assert(d2.entries == p.update(len, reg));
    assert(forall|k: int| 0 <= k < len ==> d2.entries[k].id != id);
    assert(d2.entries[len] == reg);
    lemma_find_entry_from_at(d2.entries, id, 0, len);
}

/// A failed start leaves no trace: a new device attaches, and its start
/// sequence fails (the mount failed, the configuration could not be
/// resolved, or backups are disabled) — the registry returns to exactly what
/// it was, no job was ever registered, and the device has no entry.
pub proof fn lemma_failed_start_leaves_no_trace(d: DispatcherModel, id: Seq<char>)
    requires
        d.wf(),
        !d.shut_down,
        find_entry(d.entries, id) == -1,
    ensures
        ({
            let t = d.next_token;
            let d1 = spec_attached(d, id).0;
            let d2 = spec_start_failed(d1, t);
            &&& d2.entries == d.entries
            &&& d2.started == d.started
            &&& find_entry(d2.entries, id) == -1
        }),
{
    let t = d.next_token;
    let len = d.entries.len() as int;
    lemma_find_entry_props(d.entries, id, 0);
    let e1 = EntryModel { id, token: t, live: false };
    let p = d.entries.push(e1);
    let d1 = spec_attached(d, id).0;
    assert(d1.entries == p);
    assert(forall|k: int| 0 <= k < len ==> p[k] == d.entries[k]);
    assert(p[len] == e1);
    assert(forall|k: int| 0 <= k < len ==> p[k].token != t);
    lemma_find_token_from_at(p, t, 0, len);
    let d2 = spec_start_failed(d1, t);
    assert(d2.entries == p.remove(len));
    p.remove_ensures(len);
    assert(p.remove(len) =~= d.entries);
}

/// A registered job is stopped exactly once. When its device detaches, the
/// ordered cancel-and-join names a token that was never stopped before; and
/// since the token leaves the registry for good, no later transition can
/// order it again.
pub proof fn lemma_detach_stops_job_exactly_once(d: DispatcherModel, id: Seq<char>)
    requires
        d.wf(),
        find_entry(d.entries, id) >= 0,
        d.entries[find_entry(d.entries, id)].live,
    ensures
        ({
            let t = d.entries[find_entry(d.entries, id)].token;
            let d2 = spec_detached(d, id).0;
            &&& spec_detached(d, id).1 == ActionModel::CancelAndJoin { token: t }
            &&& !d.stopped.contains(t)
            &&& d2.stopped.contains(t)
            &&& find_token(d2.entries, t) == -1
        }),
{
    let j = find_entry(d.entries, id);
    lemma_find_entry_props(d.entries, id, 0);
    let t = d.entries[j].token;
    lemma_live_tokens_membership(d.entries);
    assert(live_tokens(d.entries).contains(t));
    let d2 = spec_detached(d, id).0;
    d.entries.remove_ensures(j);
    assert forall|k: int| 0 <= k < d2.entries.len() implies d2.entries[k].token != t by {
        if k < j {
            assert(d2.entries[k] == d.entries[k]);
        } else {
            assert(d2.entries[k] == d.entries[k + 1]);
        }
    }
    lemma_find_token_from_none(d2.entries, t, 0);
}

/// An attachment followed at once by a detachment, before its start sequence
/// completes: when the start's result finally arrives it is discarded —
/// ordered cancelled without ever being registered — and the registry is
/// exactly as it was before the attachment.
pub proof fn lemma_detach_before_ready_discards_job(d: DispatcherModel, id: Seq<char>)
    requires
        d.wf(),
        !d.shut_down,
        find_entry(d.entries, id) == -1,
    ensures
        ({
            let t = d.next_token;
            let d1 = spec_attached(d, id).0;
            let d2 = spec_detached(d1, id).0;
            let d3 = spec_job_ready(d2, t).0;
            &&& spec_attached(d, id).1 == ActionModel::StartSequence { id, token: t }
            &&& spec_detached(d1, id).1 == ActionModel::Nothing
            &&& spec_job_ready(d2, t).1 == ActionModel::DiscardJob { token: t }
            &&& d3.entries == d.entries
            &&& find_entry(d3.entries, id) == -1
            &&& d3.started == d.started
        }),
{
    let t = d.next_token;
    let len = d.entries.len() as int;
    lemma_find_entry_props(d.entries, id, 0);
    let e1 = EntryModel { id, token: t, live: false };
    let p = d.entries.push(e1);
    let d1 = spec_attached(d, id).0;
    assert(d1.entries == p);
    assert(forall|k: int| 0 <= k < len ==> p[k] == d.entries[k]);
    assert(p[len] == e1);
    lemma_find_entry_from_at(p, id, 0, len);
    assert(find_entry(d1.entries, id) == len);
    assert(!d1.entries[len].live);
    let d2 = spec_detached(d1, id).0;
    assert(d2.entries == p.remove(len));
    p.remove_ensures(len);
    assert(p.remove(len) =~= d.entries);
    assert(d2.entries == d.entries);
    assert(!d2.shut_down);
    assert(forall|k: int| 0 <= k < len ==> d2.entries[k].token != t);
    lemma_find_token_from_none(d2.entries, t, 0);
    assert(find_token(d2.entries, t) == -1);
    let d3 = spec_job_ready(d2, t).0;
    assert(d3 == d2);
}

/// Attach, detach, attach in quick succession: whichever order the two start
/// sequences' results arrive in, exactly the job of the second attachment is
/// registered; the first attachment's job is discarded and its token never
/// enters the registry.
pub proof fn lemma_reattach_keeps_only_second_job(d: DispatcherModel, id: Seq<char>)
    requires
        d.wf(),
        !d.shut_down,
        find_entry(d.entries, id) == -1,
    ensures
        ({
            let t1 = d.next_token;
            let t2 = d.next_token + 1;
            let d1 = spec_attached(d, id).0;
            let d2 = spec_detached(d1, id).0;
            let d3 = spec_attached(d2, id).0;
            let d4 = spec_job_ready(d3, t1).0;
            let d5 = spec_job_ready(d4, t2).0;
            let d4b = spec_job_ready(d3, t2).0;
            let d5b = spec_job_ready(d4b, t1).0;
            let j = find_entry(d5.entries, id);
            &&& spec_attached(d, id).1 == ActionModel::StartSequence { id, token: t1 }
            &&& spec_attached(d2, id).1 == ActionModel::StartSequence { id, token: t2 }
            // first start's late result is discarded, then the second registers
            &&& spec_job_ready(d3, t1).1 == ActionModel::DiscardJob { token: t1 }
            &&& spec_job_ready(d4, t2).1 == ActionModel::Nothing
            // in the other arrival order the outcome is the same state
            &&& spec_job_ready(d3, t2).1 == ActionModel::Nothing
            &&& spec_job_ready(d4b, t1).1 == ActionModel::DiscardJob { token: t1 }
            &&& d5b == d5
            // exactly one live job for the device, carrying the second token
            &&& 0 <= j < d5.entries.len()
            &&& d5.entries[j].live
            &&& d5.entries[j].token == t2
            &&& d5.started.contains(t2)
            &&& !d5.started.contains(t1)
        }),
{
    let t1 = d.next_token;
    let t2 = d.next_token + 1;
    let len = d.entries.len() as int;
    lemma_find_entry_props(d.entries, id, 0);
    let e1 = EntryModel { id, token: t1, live: false };
    let p = d.entries.push(e1);
    let d1 = spec_attached(d, id).0;
    assert(d1.entries == p);
    assert(forall|k: int| 0 <= k < len ==> p[k] == d.entries[k]);
    assert(p[len] == e1);
    lemma_find_entry_from_at(p, id, 0, len);
    assert(!d1.entries[len].live);
    let d2 = spec_detached(d1, id).0;
    assert(d2.entries == p.remove(len));
    p.remove_ensures(len);
    assert(p.remove(len) =~= d.entries);
    assert(d2.entries == d.entries);
    assert(d2.next_token == t2);
    assert(!d2.shut_down);
    // second attachment enters the fresh token t2
    let e2 = EntryModel { id, token: t2, live: false };
    let q = d.entries.push(e2);
    let d3 = spec_attached(d2, id).0;
    assert(d3.entries == q);
    assert(forall|k: int| 0 <= k < len ==> q[k] == d.entries[k]);
    assert(q[len] == e2);
    assert(forall|k: int| 0 <= k < len ==> q[k].token != t1 && q[k].token != t2);
    // the retired token t1 matches no entry, so its job is discarded
    lemma_find_token_from_none(q, t1, 0);
    let d4 = spec_job_ready(d3, t1).0;
    assert(d4 == d3);
    // the current token t2 matches the pending entry, which registers
    lemma_find_token_from_at(q, t2, 0, len);
    let reg = EntryModel { id, token: t2, live: true };
    let d5 = spec_job_ready(d4, t2).0;
    assert(d5.entries == q.update(len, reg));
    let d4b = spec_job_ready(d3, t2).0;
    assert(d4b.entries == q.update(len, reg));
    assert(d4b.started == d.started.insert(t2));
    // in the other order, t1 still matches nothing after registration
    assert(forall|k: int| 0 <= k < len ==> d4b.entries[k] == d.entries[k]);
    assert(d4b.entries[len] == reg);
    assert(forall|k: int| 0 <= k <= len ==> d4b.entries[k].token != t1);
    lemma_find_token_from_none(d4b.entries, t1, 0);
    let d5b = spec_job_ready(d4b, t1).0;
    assert(d5b == d4b);
    assert(d5b == d5);
    // the registered entry is the one found for the device
    assert(forall|k: int| 0 <= k < len ==> d5.entries[k].id != id);
    assert(d5.entries[len] == reg);
    lemma_find_entry_from_at(d5.entries, id, 0, len);
    assert(find_entry(d5.entries, id) == len);
    // the first token was never issued to a registered job
    assert(!d.started.contains(t1));
}

/// The registry entries as their mathematical models.
pub open spec fn entries_view(s: Seq<DeviceEntry>) -> Seq<EntryModel> {
    s.map_values(|e: DeviceEntry| e@)
}

proof fn lemma_entries_view_push(s: Seq<DeviceEntry>, e: DeviceEntry)
    ensures
        entries_view(s.push(e)) == entries_view(s).push(e@),
{
    assert(entries_view(s.push(e)) =~= entries_view(s).push(e@));
}

proof fn lemma_entries_view_update(s: Seq<DeviceEntry>, j: int, e: DeviceEntry)
    requires
        0 <= j < s.len(),
    ensures
        entries_view(s.update(j, e)) == entries_view(s).update(j, e@),
{
    assert(entries_view(s.update(j, e)) =~= entries_view(s).update(j, e@));
}

proof fn lemma_entries_view_remove(s: Seq<DeviceEntry>, j: int)
    requires
        0 <= j < s.len(),
    ensures
        entries_view(s.remove(j)) == entries_view(s).remove(j),
{
    s.remove_ensures(j);
    entries_view(s).remove_ensures(j);
    assert(entries_view(s.remove(j)) =~= entries_view(s).remove(j));
}

/// The dispatcher: the single writer of the device-to-job registry. The
/// surrounding event loop feeds it one message at a time and performs the
/// action each transition returns.
pub struct Dispatcher {
    /// The registry: one entry per tracked device.
    pub entries: Vec<DeviceEntry>,
    /// The next unissued start-sequence token.
    pub next_token: u64,
    /// Whether shutdown has begun.
    pub shut_down: bool,
    /// Tokens of every job ever registered.
    pub started: Ghost<Set<int>>,
    /// Tokens of every job whose cancel-and-join has been ordered.
    pub stopped: Ghost<Set<int>>,
}

impl View for Dispatcher {
    type V = DispatcherModel;

    open spec fn view(&self) -> DispatcherModel {
        DispatcherModel {
            entries: entries_view(self.entries@),
            next_token: self.next_token as int,
            shut_down: self.shut_down,
            started: self.started@,
            stopped: self.stopped@,
        }
    }
}

fn find_device(entries: &Vec<DeviceEntry>, object_path: &String) -> (r: Option<usize>)
    ensures
        match r {
            Some(j) => j < entries@.len() && find_entry(entries_view(entries@), object_path@)
                == j as int,
            None => find_entry(entries_view(entries@), object_path@) == -1,
        },
{
    let n = entries.len();
    let mut i: usize = 0;
    while i < n
        invariant
            i <= n,
            n == entries@.len(),
            forall|k: int| 0 <= k < i ==> entries@[k].id@ != object_path@,
        decreases n - i,
    {
        if entries[i].id.eq(object_path) {
            proof {
                lemma_find_entry_from_at(entries_view(entries@), object_path@, 0, i as int);
            }
            return Some(i);
        }
        i = i + 1;
    }
    proof {
        lemma_find_entry_from_none(entries_view(entries@), object_path@, 0);
    }
    None
}

fn find_by_token(entries: &Vec<DeviceEntry>, token: u64) -> (r: Option<usize>)
    ensures
        match r {
            Some(j) => j < entries@.len() && find_token(entries_view(entries@), token as int)
                == j as int,
            None => find_token(entries_view(entries@), token as int) == -1,
        },
{
    let n = entries.len();
    let mut i: usize = 0;
    while i < n
        invariant
            i <= n,
            n == entries@.len(),
            forall|k: int| 0 <= k < i ==> entries@[k].token != token,
        decreases n - i,
    {
        if entries[i].token == token {
            proof {
                lemma_find_token_from_at(entries_view(entries@), token as int, 0, i as int);
            }
            return Some(i);
        }
        i = i + 1;
    }
    proof {
        lemma_find_token_from_none(entries_view(entries@), token as int, 0);
    }
    None
}

impl Dispatcher {
    /// The dispatcher's invariant; established by [`Dispatcher::new`] and
    /// preserved by every transition.
    pub open spec fn wf(&self) -> bool {
        self@.wf()
    }

    /// A fresh dispatcher: empty registry, accepting events.
    pub fn new() -> (d: Dispatcher)
        ensures
            d@.entries == Seq::<EntryModel>::empty(),
            d@.next_token == 0,
            !d@.shut_down,
            d@.started == Set::<int>::empty(),
            d@.stopped == Set::<int>::empty(),
            d.wf(),
    {
        let d = Dispatcher {
            entries: Vec::new(),
            next_token: 0,
            shut_down: false,
            started: Ghost(Set::empty()),
            stopped: Ghost(Set::empty()),
        };
        proof {
            assert(entries_view(d.entries@) =~= Seq::<EntryModel>::empty());
            assert(live_tokens(d@.entries) =~= Set::<int>::empty());
            assert(d@.started =~= d@.stopped.union(live_tokens(d@.entries)));
        }
        d
    }

    /// Handles a device attachment; see [`spec_attached`] for the rule.
    pub fn on_attached(&mut self, object_path: String) -> (a: Action)
        requires
            old(self).wf(),
            old(self).next_token < u64::MAX,
        ensures
            final(self)@ == spec_attached(old(self)@, object_path@).0,
            a@ == spec_attached(old(self)@, object_path@).1,
            final(self).wf(),
    {
        let ghost d0 = self@;
        proof {
            lemma_attached_preserves_wf(d0, object_path@);
        }
        if self.shut_down {
            return Action::Nothing;
        }
        let found = find_device(&self.entries, &object_path);
        match found {
            Some(j) => {
                if self.entries[j].live {
                    Action::Nothing
                } else {
                    let tok = self.next_token;
                    let prev_id = self.entries[j].id.clone();
                    let ghost prev_entries = self.entries@;
                    self.entries[j] = DeviceEntry { id: prev_id, token: tok, live: false };
                    self.next_token = tok + 1;
                    proof {
                        lemma_entries_view_update(
                            prev_entries,
                            j as int,
                            DeviceEntry { id: prev_id, token: tok, live: false },
                        );
                        assert(self@ == spec_attached(d0, object_path@).0);
                    }
                    Action::StartSequence { object_path, token: tok }
                }
            },
            None => {
                let tok = self.next_token;
                let ghost prev_entries = self.entries@;
                let entry = DeviceEntry { id: object_path.clone(), token: tok, live: false };
                let ghost entry_model = entry@;
                self.entries.push(entry);
                self.next_token = tok + 1;
                proof {
                    lemma_entries_view_push(
                        prev_entries,
                        DeviceEntry { id: object_path, token: tok, live: false },
                    );
                    assert(entries_view(self.entries@) == entries_view(prev_entries).push(
                        entry_model,
                    ));
                    assert(self@ == spec_attached(d0, object_path@).0);
                }
                Action::StartSequence { object_path, token: tok }
            },
        }
    }

    /// Handles a device detachment; see [`spec_detached`] for the rule.
    pub fn on_detached(&mut self, object_path: &String) -> (a: Action)
        requires
            old(self).wf(),
        ensures
            final(self)@ == spec_detached(old(self)@, object_path@).0,
            a@ == spec_detached(old(self)@, object_path@).1,
            final(self).wf(),
    {
        let ghost d0 = self@;
        proof {
            lemma_detached_preserves_wf(d0, object_path@);
        }
        let found = find_device(&self.entries, object_path);
        match found {
            Some(j) => {
                let ghost prev_entries = self.entries@;
                let e = self.entries.remove(j);
                proof {
                    lemma_entries_view_remove(prev_entries, j as int);
                }
                if e.live {
                    self.stopped = Ghost(self.stopped@.insert(e.token as int));
                    proof {
                        assert(self@ == spec_detached(d0, object_path@).0);
                    }
                    Action::CancelAndJoin { token: e.token }
                } else {
                    proof {
                        assert(self@ == spec_detached(d0, object_path@).0);
                    }
                    Action::Nothing
                }
            },
            None => Action::Nothing,
        }
    }

    /// Handles the successful completion of a start sequence; see
    /// [`spec_job_ready`] for the rule.
    pub fn on_job_ready(&mut self, token: u64) -> (a: Action)
        requires
            old(self).wf(),
        ensures
            final(self)@ == spec_job_ready(old(self)@, token as int).0,
            a@ == spec_job_ready(old(self)@, token as int).1,
            final(self).wf(),
    {
        let ghost d0 = self@;
        proof {
            lemma_job_ready_preserves_wf(d0, token as int);
        }
        if self.shut_down {
            return Action::DiscardJob { token };
        }
        let found = find_by_token(&self.entries, token);
        match found {
            Some(j) => {
                if self.entries[j].live {
                    Action::DiscardJob { token }
                } else {
                    let id = self.entries[j].id.clone();
                    let ghost prev_entries = self.entries@;
                    self.entries[j] = DeviceEntry { id, token, live: true };
                    self.started = Ghost(self.started@.insert(token as int));
                    proof {
                        lemma_entries_view_update(
                            prev_entries,
                            j as int,
                            DeviceEntry { id, token, live: true },
                        );
                        lemma_find_token_props(d0.entries, token as int, 0);
                        assert(d0.entries[j as int].token == token as int);
                        assert(self@ == spec_job_ready(d0, token as int).0);
                    }
                    Action::Nothing
                }
            },
            None => Action::DiscardJob { token },
        }
    }

    /// Handles a job's report that its work unit failed and it has stopped
    /// itself; see [`spec_job_failed`] for the rule.
    pub fn on_job_failed(&mut self, token: u64) -> (a: Action)
        requires
            old(self).wf(),
        ensures
            final(self)@ == spec_job_failed(old(self)@, token as int).0,
            a@ == spec_job_failed(old(self)@, token as int).1,
            final(self).wf(),
    {
        let ghost d0 = self@;
        proof {
            lemma_job_failed_preserves_wf(d0, token as int);
        }
        let found = find_by_token(&self.entries, token);
        match found {
            Some(j) => {
                if self.entries[j].live {
                    let ghost prev_entries = self.entries@;
                    let _ = self.entries.remove(j);
                    self.stopped = Ghost(self.stopped@.insert(token as int));
                    proof {
                        lemma_entries_view_remove(prev_entries, j as int);
                        lemma_find_token_props(d0.entries, token as int, 0);
                        assert(self@ == spec_job_failed(d0, token as int).0);
                    }
                    Action::CancelAndJoin { token }
                } else {
                    Action::Nothing
                }
            },
            None => Action::Nothing,
        }
    }

    /// Handles the failure of a start sequence (mount or configuration
    /// failure, or backups disabled); see [`spec_start_failed`] for the rule.
    pub fn on_start_failed(&mut self, token: u64)
        requires
            old(self).wf(),
        ensures
            final(self)@ == spec_start_failed(old(self)@, token as int),
            final(self).wf(),
    {
        let ghost d0 = self@;
        proof {
            lemma_start_failed_preserves_wf(d0, token as int);
        }
        let found = find_by_token(&self.entries, token);
        match found {
            Some(j) => {
                if !self.entries[j].live {
                    let ghost prev_entries = self.entries@;
                    let _ = self.entries.remove(j);
                    proof {
                        lemma_entries_view_remove(prev_entries, j as int);
                        assert(self@ == spec_start_failed(d0, token as int));
                    }
                }
            },
            None => {},
        }
    }

    /// Shuts the dispatcher down: orders one cancel-and-join for every live
    /// job, empties the registry, and refuses new starts from here on.
    pub fn shutdown(&mut self) -> (acts: Vec<Action>)
        requires
            old(self).wf(),
        ensures
            final(self)@ == spec_shutdown(old(self)@).0,
            acts@.map_values(|a: Action| a@) == spec_shutdown(old(self)@).1,
            final(self)@.started == final(self)@.stopped,
            final(self).wf(),
    {
        let ghost d0 = self@;
        proof {
            lemma_shutdown_preserves_wf(d0);
        }
        let mut acts: Vec<Action> = Vec::new();
        let n = self.entries.len();
        let mut i: usize = 0;
        while i < n
            invariant
                i <= n,
                *self == *old(self),
                n == self.entries@.len(),
                d0 == self@,
                acts@.map_values(|a: Action| a@) == shutdown_actions(
                    d0.entries.subrange(0, i as int),
                ),
            decreases n - i,
        {
            let ghost prev_acts = acts@;
            if self.entries[i].live {
                acts.push(Action::CancelAndJoin { token: self.entries[i].token });
            }
            proof {
                let sub = d0.entries.subrange(0, i + 1);
                assert(sub.drop_last() =~= d0.entries.subrange(0, i as int));
                assert(sub.last() == d0.entries[i as int]);
                assert(acts@.map_values(|a: Action| a@) =~= shutdown_actions(sub));
            }
            i = i + 1;
        }
        proof {
            assert(d0.entries.subrange(0, n as int) =~= d0.entries);
        }
        self.stopped = Ghost(self.stopped@.union(live_tokens(entries_view(self.entries@))));
        self.entries.clear();
        self.shut_down = true;
        proof {
            assert(entries_view(self.entries@) =~= Seq::<EntryModel>::empty());
            assert(self@ == spec_shutdown(d0).0);
        }
        acts
    }

    /// The token of the live job registered for this device, if there is one.
    pub fn registered_job(&self, object_path: &String) -> (r: Option<u64>)
        ensures
            match r {
                Some(t) => {
                    let j = find_entry(self@.entries, object_path@);
                    &&& j >= 0
                    &&& self@.entries[j].live
                    &&& self@.entries[j].token == t as int
                },
                None => {
                    let j = find_entry(self@.entries, object_path@);
                    j == -1 || !self@.entries[j].live
                },
            },
    {
        let found = find_device(&self.entries, object_path);
        match found {
            Some(j) => {
                if self.entries[j].live {
                    Some(self.entries[j].token)
                } else {
                    None
                }
            },
            None => None,
        }
    }

    /// How many live jobs the registry holds.
    pub fn live_job_count(&self) -> (n: usize)
        ensures
            n as int == count_live(self@.entries),
    {
        let total = self.entries.len();
        let mut n: usize = 0;
        let mut i: usize = 0;
        while i < total
            invariant
                i <= total,
                total == self.entries@.len(),
                n <= i,
                n as int == count_live(entries_view(self.entries@).subrange(0, i as int)),
            decreases total - i,
        {
            if self.entries[i].live {
                n = n + 1;
            }
            proof {
                let sub = entries_view(self.entries@).subrange(0, i + 1);
                assert(sub.drop_last() =~= entries_view(self.entries@).subrange(0, i as int));
                assert(sub.last() == entries_view(self.entries@)[i as int]);
            }
            i = i + 1;
        }
        proof {
            assert(entries_view(self.entries@).subrange(0, total as int) =~= entries_view(
                self.entries@,
            ));
        }
        n
    }

    /// Whether shutdown has begun; afterwards no new start is ever ordered.
    pub fn is_shut_down(&self) -> (r: bool)
        ensures
            r == self@.shut_down,
    {
        self.shut_down
    }
}

} // verus!
