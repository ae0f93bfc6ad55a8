//! Opening a session: its row, its change on every source, and the journal
//! entry that carries its instruction.

use crate::config::{Actor, ActorView, InstructionFidelity, JournalPolicy};
use crate::coordination::{
    FactView,
    SessionRowView,
    StoreView,
    duplicate_fact,
    fresh_session,
    has_fact,
    ids_exhausted,
    in_source_order,
    session_with,
    with_change,
    without_session,
};
use crate::error::Error;
use crate::journal::{Act, EntryView, JournalEntry};
use crate::ledger::{
    Ledger,
    LedgerView,
    session_unreadable,
    session_view,
    session_with_id,
    source_list_is,
    with_entry,
};
use crate::session::{Instruction, Session, SessionId, SessionState, session_label};
use crate::words::{joined, lex_lt, opt_text, owned, owned_opt, signed_decimal};
use vstd::prelude::*;

verus! {

/// What the journal keeps of an instruction's verbatim body: all of it
/// under the verbatim policy, nothing under the summary policy.
pub open spec fn kept_verbatim(instruction: Instruction, policy: JournalPolicy) -> Option<Seq<char>> {
    match policy.instruction_fidelity {
        InstructionFidelity::Summary => None,
        InstructionFidelity::Verbatim => opt_text(instruction.verbatim),
    }
}

/// What the journal keeps of an instruction's verbatim body.
fn keep_verbatim(instruction: &Instruction, policy: &JournalPolicy) -> (r: Option<String>)
    ensures
        opt_text(r) == kept_verbatim(*instruction, *policy),
{
    match policy.instruction_fidelity {
        InstructionFidelity::Summary => None,
        InstructionFidelity::Verbatim => owned_opt(&instruction.verbatim),
    }
}

/// The journal entry of an opened session.
pub open spec fn open_entry(
    id: int,
    actor: ActorView,
    instruction: Instruction,
    policy: JournalPolicy,
    at_ms: int,
) -> EntryView {
    EntryView {
        at_ms,
        actor_name: actor.name,
        actor_kind: actor.kind,
        act: Act::SessionOpen,
        session: Some(session_label(id)),
        instruction_summary: Some(instruction.summary@),
        instruction_run_ref: opt_text(instruction.run_ref),
        instruction_verbatim: kept_verbatim(instruction, policy),
        reference: None,
    }
}

/// The name of a session's workspace inside an engine.
pub fn session_workspace_name(id: SessionId) -> (r: String)
    ensures
        r@ == "session-"@ + session_label(id.0 as int),
{
    joined("session-", id.to_text().as_str())
}

/// The description of a session's change, which becomes the landed commit's
/// message: the summary, and a trailer that names the session.
pub fn session_description(summary: &str, id: SessionId) -> (r: String)
    ensures
        r@ == summary@ + "\n\nAtelier-Session: "@ + session_label(id.0 as int),
{
    let mut out = joined(summary, "\n\nAtelier-Session: ");
    out.push_str(id.to_text().as_str());
    out
}

/// The ledger with a session taken back.
pub open spec fn without_opened(ledger: LedgerView, id: int) -> LedgerView {
    LedgerView {
        store: StoreView {
            sessions: without_session(ledger.store.sessions, id),
            ..ledger.store
        },
        ..ledger
    }
}

/// Whether the session has a change recorded on a mount; its change on the
/// root can be recorded again.
pub open spec fn has_change(ledger: LedgerView, id: int, source: Option<Seq<char>>) -> bool {
    source is Some && has_fact(ledger.store.session_changes, id, source->0)
}

/// The ledger with the session's change on a source recorded.
pub open spec fn after_change(
    ledger: LedgerView,
    id: int,
    source: Option<Seq<char>>,
    change: Seq<char>,
) -> LedgerView {
    let store = match source {
        None => StoreView {
            sessions: with_change(ledger.store.sessions, id, change),
            ..ledger.store
        },
        Some(mount) => StoreView {
            session_changes: ledger.store.session_changes.insert((id, mount, change)),
            ..ledger.store
        },
    };
    LedgerView { store, ..ledger }
}

impl Ledger {
    /// Store a new session for `actor`; its id.
    pub fn begin_session(
        &mut self,
        actor: &Actor,
        instruction: &Instruction,
        policy: &JournalPolicy,
        at_ms: i64,
    ) -> (r: Result<SessionId, Error>)
        requires
            old(self).wf(),
        ensures
            final(self).wf(),
            old(self)@.store.last_session < i64::MAX ==> {
                let id = old(self)@.store.last_session + 1;
                &&& r is Ok
                &&& (r->Ok_0).0 == id
                &&& final(self)@ == (LedgerView {
                    store: StoreView {
                        sessions: old(self)@.store.sessions.push(
                            fresh_session(
                                id,
                                *actor,
                                instruction.summary@,
                                opt_text(instruction.run_ref),
                                kept_verbatim(*instruction, *policy),
                                at_ms as int,
                            ),
                        ),
                        last_session: id,
                        ..old(self)@.store
                    },
                    ..old(self)@
                })
            },
            old(self)@.store.last_session >= i64::MAX ==> {
                &&& r is Err
                &&& (r->Err_0)@ == ids_exhausted()
                &&& final(self)@ == old(self)@
            },
    {
        let verbatim = keep_verbatim(instruction, policy);
        match self.store.create_session(
            actor,
            instruction.summary.as_str(),
            &instruction.run_ref,
            &verbatim,
            at_ms,
        ) {
            Ok(row) => Ok(SessionId(row)),
            Err(error) => Err(error),
        }
    }

    /// Take back a session whose engine bootstrap failed.
    pub fn cancel_session(&mut self, id: SessionId)
        requires
            old(self).wf(),
        ensures
            final(self).wf(),
            final(self)@ == without_opened(old(self)@, id.0 as int),
    {
        self.store.delete_session(id.0);
    }

    /// Record the change an engine created for the session: on the root
    /// when `source` is `None`, else on that mount.
    pub fn record_change(&mut self, id: SessionId, source: &Option<String>, change_id: &str) -> (r:
        Result<(), Error>)
        requires
            old(self).wf(),
        ensures
            final(self).wf(),
            !has_change(old(self)@, id.0 as int, opt_text(*source)) ==> {
                &&& r is Ok
                &&& final(self)@ == after_change(
                    old(self)@,
                    id.0 as int,
                    opt_text(*source),
                    change_id@,
                )
            },
            has_change(old(self)@, id.0 as int, opt_text(*source)) ==> {
                &&& r is Err
                &&& (r->Err_0)@ == duplicate_fact(
                    "session_changes.session_id, session_changes.source"@,
                )
                &&& final(self)@ == old(self)@
            },
    {
        match source {
            None => {
                self.store.set_session_change(id.0, change_id);
                Ok(())
            },
            Some(name) => self.store.set_session_source_change(id.0, name.as_str(), change_id),
        }
    }

    /// Take in what an engine made of the session on a line: its change is
    /// recorded; a failure takes the session back, and stands.
    pub fn settle_change(
        &mut self,
        id: SessionId,
        source: &Option<String>,
        created: Result<String, Error>,
    ) -> (r: Result<(), Error>)
        requires
            old(self).wf(),
        ensures
            final(self).wf(),
            created is Err ==> {
                &&& r is Err
                &&& (r->Err_0)@ == (created->Err_0)@
                &&& final(self)@ == without_opened(old(self)@, id.0 as int)
            },
            created is Ok && !has_change(old(self)@, id.0 as int, opt_text(*source)) ==> {
                &&& r is Ok
                &&& final(self)@ == after_change(
                    old(self)@,
                    id.0 as int,
                    opt_text(*source),
                    (created->Ok_0)@,
                )
            },
            created is Ok && has_change(old(self)@, id.0 as int, opt_text(*source)) ==> {
                &&& r is Err
                &&& (r->Err_0)@ == duplicate_fact(
                    "session_changes.session_id, session_changes.source"@,
                )
                &&& final(self)@ == old(self)@
            },
    {
        match created {
            Ok(change) => self.record_change(id, source, change.as_str()),
            Err(error) => {
                self.cancel_session(id);
                Err(error)
            },
        }
    }

    /// Journal the opened session, and read it back.
    pub fn finish_open(
        &mut self,
        root: &str,
        id: SessionId,
        actor: &Actor,
        instruction: &Instruction,
        policy: &JournalPolicy,
        at_ms: i64,
    ) -> (r: Result<Session, Error>)
        requires
            old(self).wf(),
        ensures
            final(self).wf(),
            final(self)@ == with_entry(
                old(self)@,
                open_entry(id.0 as int, actor@, *instruction, *policy, at_ms as int),
            ),
            r is Ok <==> session_unreadable(old(self)@.store, id.0 as int) is None,
            r is Ok ==> (r->Ok_0)@ == session_view(
                old(self)@.store,
                root@,
                session_with(old(self)@.store.sessions, id.0 as int)->0,
            ),
            r is Err ==> Some((r->Err_0)@) == session_unreadable(old(self)@.store, id.0 as int),
    {
        self.journal.append(
            JournalEntry {
                at_ms,
                actor_name: owned(actor.name.as_str()),
                actor_kind: actor.kind,
                act: Act::SessionOpen,
                session: Some(id.to_text()),
                instruction_summary: Some(owned(instruction.summary.as_str())),
                instruction_run_ref: owned_opt(&instruction.run_ref),
                instruction_verbatim: keep_verbatim(instruction, policy),
                reference: None,
            },
        );
        self.session(root, id)
    }
}

/// Under the summary policy the verbatim body of an instruction reaches
/// neither the store nor the journal.
pub proof fn summary_policy_keeps_no_verbatim(
    id: int,
    actor: ActorView,
    instruction: Instruction,
    policy: JournalPolicy,
    at_ms: int,
)
    requires
        policy.instruction_fidelity == InstructionFidelity::Summary,
    ensures
        open_entry(id, actor, instruction, policy, at_ms).instruction_verbatim is None,
        kept_verbatim(instruction, policy) is None,
{
}

/// The ledger with the session's changes recorded one after another.
pub open spec fn after_changes(
    ledger: LedgerView,
    id: int,
    changes: Seq<(Option<Seq<char>>, Seq<char>)>,
) -> LedgerView
    decreases changes.len(),
{
    if changes.len() == 0 {
        ledger
    } else {
        after_change(
            after_changes(ledger, id, changes.drop_last()),
            id,
            changes.last().0,
            changes.last().1,
        )
    }
}

/// A session's changes: the one on the root, and one on each mount.
pub open spec fn all_changes(root: Seq<char>, mounts: Seq<(Seq<char>, Seq<char>)>) -> Seq<
    (Option<Seq<char>>, Seq<char>),
> {
    seq![(None::<Seq<char>>, root)] + mounts.map_values(
        |change: (Seq<char>, Seq<char>)| (Some(change.0), change.1),
    )
}

/// What recording a session's changes leaves in the store.
proof fn recorded_changes(
    ledger: LedgerView,
    id: int,
    root: Seq<char>,
    mounts: Seq<(Seq<char>, Seq<char>)>,
)
    ensures
        ({
            let store = after_changes(ledger, id, all_changes(root, mounts)).store;
            &&& store.sessions == with_change(ledger.store.sessions, id, root)
            &&& forall|fact: (int, Seq<char>, Seq<char>)| #[trigger]
                store.session_changes.contains(fact) <==> (
                ledger.store.session_changes.contains(fact) || (fact.0 == id && mounts.contains(
                    (fact.1, fact.2),
                )))
        }),
    decreases mounts.len(),
{
    let changes = all_changes(root, mounts);
    if mounts.len() == 0 {
        assert(changes.drop_last() =~= Seq::empty());
        assert(changes.last() == (None::<Seq<char>>, root));
        assert(after_changes(ledger, id, changes.drop_last()) == ledger);
    } else {
        let rest = mounts.drop_last();
        recorded_changes(ledger, id, root, rest);
        assert(changes.drop_last() =~= all_changes(root, rest));
        assert(changes.last() == (Some(mounts.last().0), mounts.last().1));
        assert forall|a: Seq<char>, b: Seq<char>| mounts.contains((a, b)) == (rest.contains(
            (a, b),
        ) || mounts.last() == (a, b)) by {
            if mounts.contains((a, b)) {
                let i = choose|i: int| 0 <= i < mounts.len() && mounts[i] == (a, b);
                if i < rest.len() {
                    assert(rest[i] == (a, b));
                }
            }
            if rest.contains((a, b)) {
                let i = choose|i: int| 0 <= i < rest.len() && rest[i] == (a, b);
                assert(mounts[i] == (a, b));
            }
            if mounts.last() == (a, b) {
                assert(mounts[mounts.len() - 1] == (a, b));
            }
        }
    }
}

/// Looking a session up after its change was set finds it with that change.
proof fn changed_session(rows: Seq<SessionRowView>, id: int, change: Seq<char>)
    requires
        session_with(rows, id) is Some,
    ensures
        session_with(with_change(rows, id, change), id) == Some(
            SessionRowView { change_id: Some(change), ..session_with(rows, id)->0 },
        ),
    decreases rows.len(),
{
    let after = with_change(rows, id, change);
    assert(after.last() == if rows.last().id == id {
        SessionRowView { change_id: Some(change), ..rows.last() }
    } else {
        rows.last()
    });
    if rows.last().id != id {
        assert(after.drop_last() =~= with_change(rows.drop_last(), id, change));
        changed_session(rows.drop_last(), id, change);
    }
}

/// A session spans every source: once its changes on the root and on every
/// mount are recorded, it reads back with exactly those, the root's first and
/// the mounts' in name order.
pub proof fn a_session_spans_every_source(
    ledger: LedgerView,
    workspace: Seq<char>,
    id: int,
    root: Seq<char>,
    mounts: Seq<(Seq<char>, Seq<char>)>,
)
    requires
        session_with(ledger.store.sessions, id) is Some,
        forall|mount: Seq<char>| !has_fact(ledger.store.session_changes, id, mount),
        forall|i: int, j: int|
            #![trigger mounts[i], mounts[j]]
            0 <= i < j < mounts.len() ==> lex_lt(mounts[i].0, mounts[j].0),
    ensures
        ({
            let store = after_changes(ledger, id, all_changes(root, mounts)).store;
            let row = session_with(store.sessions, id)->0;
            &&& session_unreadable(store, id) is None
            &&& session_view(store, workspace, row).change_id == root
            &&& session_view(store, workspace, row).changes == all_changes(root, mounts)
        }),
{
    let store = after_changes(ledger, id, all_changes(root, mounts)).store;
    recorded_changes(ledger, id, root, mounts);
    changed_session(ledger.store.sessions, id, root);
    session_with_id(ledger.store.sessions, id);
    assert(in_source_order(store.session_changes, id, mounts)) by {
        assert forall|i: int|
            #![trigger mounts[i]]
            0 <= i < mounts.len() implies store.session_changes.contains(
            (id, mounts[i].0, mounts[i].1),
        ) by {
            assert(mounts.contains((mounts[i].0, mounts[i].1)));
        }
        assert forall|source: Seq<char>, value: Seq<char>|
            #![trigger store.session_changes.contains((id, source, value))]
            store.session_changes.contains((id, source, value)) implies mounts.contains(
            (source, value),
        ) by {
            assert(!has_fact(ledger.store.session_changes, id, source));
        }
    }
    source_list_is(store.session_changes, id, mounts);
}

/// An opening is told with the session, its actor, and its instruction, and
/// refers to nothing; the instruction's own words are kept exactly where
/// policy asks for them.
pub proof fn openings_are_told(
    id: int,
    actor: ActorView,
    instruction: Instruction,
    policy: JournalPolicy,
    at_ms: int,
)
    ensures
        ({
            let entry = open_entry(id, actor, instruction, policy, at_ms);
            &&& entry.act == Act::SessionOpen
            &&& entry.at_ms == at_ms
            &&& entry.actor_name == actor.name
            &&& entry.actor_kind == actor.kind
            &&& entry.session == Some(seq!['s'] + signed_decimal(id))
            &&& entry.reference is None
            &&& entry.instruction_summary == Some(instruction.summary@)
            &&& entry.instruction_run_ref is Some <==> instruction.run_ref is Some
            &&& instruction.run_ref is Some ==> entry.instruction_run_ref == Some(
                (instruction.run_ref->0)@,
            )
            &&& entry.instruction_verbatim is Some <==> policy.instruction_fidelity
                == InstructionFidelity::Verbatim && instruction.verbatim is Some
            &&& entry.instruction_verbatim is Some ==> entry.instruction_verbatim == Some(
                (instruction.verbatim->0)@,
            )
        }),
{
}

/// A session opens in its actor's name, open and without a change yet, with
/// the instruction it was given.
pub proof fn sessions_open_empty(
    id: int,
    actor: Actor,
    summary: Seq<char>,
    run_ref: Option<Seq<char>>,
    verbatim: Option<Seq<char>>,
    at_ms: int,
)
    ensures
        ({
            let row = fresh_session(id, actor, summary, run_ref, verbatim, at_ms);
            &&& row.id == id
            &&& row.state == SessionState::Open
            &&& row.change_id is None
            &&& row.actor_name == actor.name@
            &&& row.actor_kind == actor.kind
            &&& row.instruction_summary == summary
            &&& row.instruction_run_ref == run_ref
            &&& row.instruction_verbatim == verbatim
            &&& row.opened_at_ms == at_ms
        }),
{
}

/// An opening that failed leaves the sessions as they were before it, and
/// nothing else changes.
pub proof fn failed_openings_leave_nothing(ledger: LedgerView, row: SessionRowView)
    requires
        forall|i: int|
            #![trigger ledger.store.sessions[i]]
            0 <= i < ledger.store.sessions.len() ==> ledger.store.sessions[i].id != row.id,
    ensures
        ({
            let opened = LedgerView {
                store: StoreView {
                    sessions: ledger.store.sessions.push(row),
                    ..ledger.store
                },
                ..ledger
            };
            without_opened(opened, row.id) == ledger
        }),
{
    let rows = ledger.store.sessions;
    assert(rows.push(row).drop_last() =~= rows);
    nobody_leaves(rows, row.id);
}

/// Taking out a session that is not there takes out nothing.
proof fn nobody_leaves(rows: Seq<SessionRowView>, id: int)
    requires
        forall|i: int| #![trigger rows[i]] 0 <= i < rows.len() ==> rows[i].id != id,
    ensures
        without_session(rows, id) == rows,
    decreases rows.len(),
{
    if rows.len() > 0 {
        let rest = rows.drop_last();
        assert(rows[rows.len() - 1].id != id);
        assert forall|i: int| #![trigger rest[i]] 0 <= i < rest.len() implies rest[i].id != id by {
            assert(rest[i] == rows[i]);
        }
        nobody_leaves(rest, id);
        assert(rest.push(rows.last()) =~= rows);
    }
}

/// A change on the root is the session's own, and one on a mount is recorded
/// beside it under the mount; no other session's changes.
pub proof fn changes_are_recorded(
    ledger: LedgerView,
    id: int,
    mount: Seq<char>,
    change: Seq<char>,
)
    ensures
        ({
            let rows = ledger.store.sessions;
            let on_root = after_change(ledger, id, None, change);
            let on_mount = after_change(ledger, id, Some(mount), change);
            &&& on_root == LedgerView {
                store: StoreView { sessions: on_root.store.sessions, ..ledger.store },
                ..ledger
            }
            &&& on_root.store.sessions.len() == rows.len()
            &&& forall|i: int|
                #![trigger on_root.store.sessions[i]]
                0 <= i < rows.len() ==> on_root.store.sessions[i] == if rows[i].id == id {
                    SessionRowView { change_id: Some(change), ..rows[i] }
                } else {
                    rows[i]
                }
            &&& on_mount == LedgerView {
                store: StoreView {
                    session_changes: on_mount.store.session_changes,
                    ..ledger.store
                },
                ..ledger
            }
            &&& forall|fact: FactView|
                #![trigger on_mount.store.session_changes.contains(fact)]
                on_mount.store.session_changes.contains(fact) <==> fact == (id, mount, change)
                    || ledger.store.session_changes.contains(fact)
        }),
{
}

/// A session has a change on a mount exactly once one was recorded there for
/// it; its change on the root is not counted so.
pub proof fn recorded_changes_are_had(
    ledger: LedgerView,
    id: int,
    mount: Seq<char>,
    change: Seq<char>,
    other: Seq<char>,
)
    ensures
        has_change(after_change(ledger, id, Some(mount), change), id, Some(mount)),
        other != mount ==> has_change(
            after_change(ledger, id, Some(mount), change),
            id,
            Some(other),
        ) == has_change(ledger, id, Some(other)),
        !has_change(ledger, id, None),
{
    let before = ledger.store.session_changes;
    let after = after_change(ledger, id, Some(mount), change).store.session_changes;
    assert(after.contains((id, mount, change)));
    if other != mount {
        if has_fact(before, id, other) {
            let value = choose|value: Seq<char>| before.contains((id, other, value));
            assert(after.contains((id, other, value)));
        }
        if has_fact(after, id, other) {
            let value = choose|value: Seq<char>| after.contains((id, other, value));
            assert(before.contains((id, other, value)));
        }
    }
}

} // verus!
