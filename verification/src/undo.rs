//! Undo: a landed request steps back off every line it landed, and its gate
//! re-opens for a new decision.

use crate::apply::{landings_first_root, landings_where, recorded_landings};
use crate::config::{Actor, ActorView};
use crate::coordination::{
    StoreView,
    dismissed,
    request_with,
    requests_moved,
    sessions_moved,
    source_key,
};
use crate::error::{Error, ErrorView};
use crate::journal::Act;
use crate::landing::{
    Landing,
    RequestId,
    RequestState,
    Restore,
    landing_views,
    request_label,
    request_state_name,
};
use crate::ledger::{
    Ledger,
    LedgerView,
    entry_of,
    scoped,
    scoped_text,
    two_words,
    two_words_text,
    with_entry,
};
use crate::session::{SessionId, SessionState};
use crate::words::{joined, opt_text, owned, owned_opt};
use vstd::prelude::*;

verus! {

/// What one undo attempt did to a shared line.
#[derive(Debug, Clone, PartialEq, Eq)]
pub enum StepBack {
    /// The line stepped back off the landed snapshot to `restored`.
    Stepped { restored: String },
    /// The line already sits on the landed snapshot's parent: a prior
    /// attempt stepped it; nothing to do.
    AlreadyStepped,
    /// The line moved past the landing; `head` is what sits on it now.
    LineMoved { head: String },
}

/// Why a request cannot be undone, if it cannot: there is no such request,
/// or it has not landed.
pub open spec fn undo_refusal(store: StoreView, id: int) -> Option<ErrorView> {
    match request_with(store.requests, id) {
        None => Some(ErrorView::RequestNotFound(request_label(id))),
        Some(row) => if row.state == RequestState::Landed {
            None
        } else {
            Some(
                ErrorView::Config(
                    "only a landed request undoes; "@ + request_label(id) + " is "@
                        + request_state_name(row.state),
                ),
            )
        },
    }
}

/// The error of a line that moved past the request's landing.
pub open spec fn moved_past(id: int, source: Option<Seq<char>>, head: Seq<char>) -> ErrorView {
    ErrorView::Config(
        scoped(source, "the line moved past "@ + request_label(id) + "; its head is "@ + head),
    )
}

/// The ledger after a line stepped back off the request's landing: the
/// landing un-recorded, the step journaled.
pub open spec fn after_line_stepped(
    ledger: LedgerView,
    id: int,
    session_id: int,
    source: Option<Seq<char>>,
    landed: Seq<char>,
    restored: Seq<char>,
    actor: ActorView,
    at_ms: int,
) -> LedgerView {
    with_entry(
        LedgerView {
            store: StoreView {
                landings: ledger.store.landings.remove((id, source_key(source), landed)),
                ..ledger.store
            },
            ..ledger
        },
        entry_of(
            actor,
            Act::Undo,
            Some(session_id),
            Some(scoped(source, two_words(request_label(id), restored))),
            at_ms,
        ),
    )
}

/// The ledger after every line stepped back: the landing gate re-opens with no
/// approval counting, and the session is open for work again.
pub open spec fn after_undo(ledger: LedgerView, id: int, session_id: int) -> LedgerView {
    LedgerView {
        store: StoreView {
            approvals: dismissed(ledger.store.approvals, id),
            requests: requests_moved(
                ledger.store.requests,
                id,
                seq![RequestState::Landed],
                RequestState::Open,
            ),
            sessions: sessions_moved(
                ledger.store.sessions,
                session_id,
                SessionState::Landed,
                SessionState::Open,
            ),
            ..ledger.store
        },
        ..ledger
    }
}

/// The order an undo steps lines back in: the mounts last name first, then
/// the root.
pub open spec fn undo_order(landings: Seq<(Option<Seq<char>>, Seq<char>)>) -> Seq<
    (Option<Seq<char>>, Seq<char>),
> {
    landings_first_root(landings).reverse()
}

impl Ledger {
    /// The landings an undo of the request steps back off, in the order it
    /// steps them, and the session the request is about.
    pub fn undoable(&self, id: RequestId) -> (r: Result<(SessionId, Vec<Landing>), Error>)
        requires
            self.wf(),
        ensures
            r is Ok <==> undo_refusal(self@.store, id.0 as int) is None,
            r is Err ==> Some((r->Err_0)@) == undo_refusal(self@.store, id.0 as int),
            r is Ok ==> (r->Ok_0).0.0 == (request_with(
                self@.store.requests,
                id.0 as int,
            )->0).session_id,
            r is Ok ==> landing_views((r->Ok_0).1@) == undo_order(
                recorded_landings(self@.store, id.0 as int),
            ),
    {
        let row = match self.store.request(id.0) {
            Some(row) => row,
            None => return Err(Error::RequestNotFound(id.to_text())),
        };
        match row.state {
            RequestState::Landed => {},
            _ => {
                let mut detail = joined("only a landed request undoes; ", id.to_text().as_str());
                detail.push_str(" is ");
                detail.push_str(row.state.as_str());
                return Err(Error::Config(detail));
            },
        }
        let landings = self.landings_of(id);
        let ordered = crate::apply::root_first(landings);
        let ghost views = landing_views(ordered@);
        let mut out: Vec<Landing> = Vec::new();
        let mut i: usize = ordered.len();
        while i > 0
            invariant
                i <= ordered@.len(),
                views == landing_views(ordered@),
                landing_views(out@) == views.reverse().take(views.len() - i),
            decreases i,
        {
            let ghost seen = landing_views(out@);
            let landing = Landing {
                source: owned_opt(&ordered[i - 1].source),
                snapshot: owned(ordered[i - 1].snapshot.as_str()),
            };
            assert(landing@ == views[i - 1]);
            out.push(landing);
            assert(landing_views(out@) =~= seen.push(views[i - 1]));
            assert(views.reverse().take(views.len() - i + 1) =~= views.reverse().take(
                views.len() - i,
            ).push(views.reverse()[views.len() - i]));
            i = i - 1;
        }
        assert(views.reverse().take(views.len() as int) =~= views.reverse());
        Ok((SessionId(row.session_id), out))
    }

    /// Record what stepping one line back did. A line that moved past the
    /// landing refuses by name and records nothing. `head` is the line's
    /// head after the attempt.
    pub fn record_step(
        &mut self,
        id: RequestId,
        session_id: SessionId,
        landing: &Landing,
        step: &StepBack,
        head: &str,
        actor: &Actor,
        at_ms: i64,
    ) -> (r: Result<Restore, Error>)
        requires
            old(self).wf(),
        ensures
            final(self).wf(),
            *step is LineMoved ==> {
                &&& r is Err
                &&& (r->Err_0)@ == moved_past(
                    id.0 as int,
                    opt_text(landing.source),
                    (step->head)@,
                )
                &&& final(self)@ == old(self)@
            },
            !(*step is LineMoved) ==> {
                let restored = match *step {
                    StepBack::Stepped { restored } => restored@,
                    _ => head@,
                };
                &&& r is Ok
                &&& (r->Ok_0)@ == (opt_text(landing.source), restored)
                &&& final(self)@ == after_line_stepped(
                    old(self)@,
                    id.0 as int,
                    session_id.0 as int,
                    opt_text(landing.source),
                    landing.snapshot@,
                    restored,
                    actor@,
                    at_ms as int,
                )
            },
    {
        let restored = match step {
            StepBack::Stepped { restored } => owned(restored.as_str()),
            StepBack::AlreadyStepped => owned(head),
            StepBack::LineMoved { head } => {
                let mut detail = joined("the line moved past ", id.to_text().as_str());
                detail.push_str("; its head is ");
                detail.push_str(head.as_str());
                return Err(Error::Config(scoped_text(&landing.source, detail.as_str())));
            },
        };
        self.store.delete_landing(id.0, &landing.source, landing.snapshot.as_str());
        let named = two_words_text(id.to_text().as_str(), restored.as_str());
        let reference = scoped_text(&landing.source, named.as_str());
        self.append_session_entry(actor, Act::Undo, session_id, Some(reference), at_ms);
        Ok(Restore { source: owned_opt(&landing.source), head: restored })
    }

    /// Re-open the landing gate once every line stepped back: the request is open
    /// with no approval counting, and its session is open for work again.
    pub fn reopen(&mut self, id: RequestId, session_id: SessionId)
        requires
            old(self).wf(),
        ensures
            final(self).wf(),
            final(self)@ == after_undo(old(self)@, id.0 as int, session_id.0 as int),
    {
        let ghost before = self@;
        let _count = self.store.dismiss_approvals(id.0);
        let from = [RequestState::Landed];
        let _moved = self.store.move_request_state(id.0, &from, RequestState::Open);
        let _opened = self.store.move_session_state(
            session_id.0,
            SessionState::Landed,
            SessionState::Open,
        );
        assert(from@ =~= seq![RequestState::Landed]);
        assert(self@ =~= after_undo(before, id.0 as int, session_id.0 as int));
    }
}

/// Undoing takes back every recorded landing once: the mounts from the last
/// landed to the first, and the root behind them all.
pub proof fn undoing_goes_backwards(landings: Seq<(Option<Seq<char>>, Seq<char>)>) -> (at: Seq<int>)
    ensures
        at.len() == landings.len(),
        undo_order(landings).len() == landings.len(),
        forall|k: int|
            #![trigger at[k]]
            0 <= k < at.len() ==> 0 <= at[k] < landings.len() && undo_order(landings)[k]
                == landings[at[k]],
        forall|i: int| 0 <= i < landings.len() ==> #[trigger] at.contains(i),
        forall|j: int, k: int|
            #![trigger at[j], at[k]]
            0 <= j < k < at.len() ==> at[j] != at[k] && (landings[at[j]].0 is None
                ==> landings[at[k]].0 is None) && ((landings[at[j]].0 is None) == (
            landings[at[k]].0 is None) ==> at[k] < at[j]),
{
    let first = landings_in_place(landings, true);
    let rest = landings_in_place(landings, false);
    let both = first + rest;
    let at = both.reverse();
    both_sides_are_all(landings);
    assert forall|i: int| 0 <= i < landings.len() implies #[trigger] at.contains(i) by {
        if landings[i].0 is None {
            let k = choose|k: int| 0 <= k < first.len() && first[k] == i;
            assert(both[k] == i);
            assert(at[at.len() - 1 - k] == i);
        } else {
            let k = choose|k: int| 0 <= k < rest.len() && rest[k] == i;
            assert(both[first.len() + k] == i);
            assert(at[at.len() - 1 - (first.len() + k)] == i);
        }
    }
    assert forall|k: int| #![trigger at[k]] 0 <= k < at.len() implies 0 <= at[k] < landings.len()
        && undo_order(landings)[k] == landings[at[k]] by {
        let b = at.len() - 1 - k;
        assert(at[k] == both[b]);
        if b < first.len() {
            assert(both[b] == first[b]);
        } else {
            assert(both[b] == rest[b - first.len()]);
        }
    }
    assert forall|j: int, k: int| #![trigger at[j], at[k]] 0 <= j < k < at.len() implies at[j]
        != at[k] && (landings[at[j]].0 is None ==> landings[at[k]].0 is None) && ((
    landings[at[j]].0 is None) == (landings[at[k]].0 is None) ==> at[k] < at[j]) by {
        let a = at.len() - 1 - k;
        let b = at.len() - 1 - j;
        assert(at[k] == both[a] && at[j] == both[b]);
        if b < first.len() {
            assert(both[a] == first[a] && both[b] == first[b]);
        } else if a < first.len() {
            assert(both[a] == first[a] && both[b] == rest[b - first.len()]);
        } else {
            assert(both[a] == rest[a - first.len()] && both[b] == rest[b - first.len()]);
        }
    }
    at
}

/// The landings of one side are taken in order.
proof fn landings_in_place(landings: Seq<(Option<Seq<char>>, Seq<char>)>, root: bool) -> (at: Seq<
    int,
>)
    ensures
        at.len() == landings_where(landings, root).len(),
        forall|k: int|
            #![trigger at[k]]
            0 <= k < at.len() ==> 0 <= at[k] < landings.len() && landings_where(
                landings,
                root,
            )[k] == landings[at[k]] && (landings[at[k]].0 is None) == root,
        forall|j: int, k: int| #![trigger at[j], at[k]] 0 <= j < k < at.len() ==> at[j] < at[k],
        forall|i: int|
            #![trigger landings[i]]
            0 <= i < landings.len() && (landings[i].0 is None) == root ==> at.contains(i),
    decreases landings.len(),
{
    if landings.len() == 0 {
        Seq::empty()
    } else {
        let rest = landings.drop_last();
        let before = landings_in_place(rest, root);
        let last = landings.len() - 1;
        let at = if (landings.last().0 is None) == root {
            before.push(last)
        } else {
            before
        };
        assert forall|k: int| #![trigger at[k]] 0 <= k < at.len() implies 0 <= at[k]
            < landings.len() && landings_where(landings, root)[k] == landings[at[k]] && (
        landings[at[k]].0 is None) == root by {
            if k < before.len() {
                assert(at[k] == before[k]);
                assert(rest[before[k]] == landings[before[k]]);
            }
        }
        assert forall|j: int, k: int| #![trigger at[j], at[k]] 0 <= j < k < at.len() implies at[j]
            < at[k] by {
            assert(at[j] == before[j]);
            if k < before.len() {
                assert(at[k] == before[k]);
            }
        }
        assert forall|i: int|
            #![trigger landings[i]]
            0 <= i < landings.len() && (landings[i].0 is None) == root implies at.contains(i) by {
            if i < last {
                assert(rest[i] == landings[i]);
                let k = choose|k: int| 0 <= k < before.len() && before[k] == i;
                assert(at[k] == i);
            } else {
                assert(at[before.len() as int] == i);
            }
        }
        at
    }
}

/// The two sides together are as many as the landings.
proof fn both_sides_are_all(landings: Seq<(Option<Seq<char>>, Seq<char>)>)
    ensures
        landings_where(landings, true).len() + landings_where(landings, false).len()
            == landings.len(),
    decreases landings.len(),
{
    if landings.len() > 0 {
        both_sides_are_all(landings.drop_last());
    }
}

} // verus!
