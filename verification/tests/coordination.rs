//! The coordination store: sessions, requests, leases, and its rows.

use atelier::config::{Actor, ActorKind};
use atelier::coordination::{Coordination, STORE_VERSION, check_store_version, loaded_epoch};
use atelier::landing::RequestState;
use atelier::lease::{LeaseClaim, LeaseRow};
use atelier::session::SessionState;

fn coordination() -> Coordination {
    Coordination::new()
}

fn actor() -> Actor {
    Actor {
        name: "test-actor".to_owned(),
        kind: ActorKind::Human,
    }
}

#[test]
fn landing_points_are_per_source() {
    let mut coordination = coordination();

    // Distinct sources' points never contend: two holders claim two
    // mounts' landing points at once.
    assert!(matches!(
        coordination
            .claim_lease("landing/aa", "one", 0, 1000)
            .unwrap(),
        LeaseClaim::Held { .. }
    ));
    assert!(matches!(
        coordination
            .claim_lease("landing/bb", "two", 0, 1000)
            .unwrap(),
        LeaseClaim::Held { .. }
    ));
    // One source's point still admits exactly one holder.
    assert!(matches!(
        coordination
            .claim_lease("landing/aa", "two", 0, 1000)
            .unwrap(),
        LeaseClaim::HeldByOther { .. }
    ));
}

#[test]
fn a_claim_opens_a_new_tenancy_and_a_superseded_fence_refuses() {
    let mut coordination = coordination();

    // The first tenancy.
    let LeaseClaim::Held { epoch: first } =
        coordination.claim_lease("landing", "one", 0, 100).unwrap()
    else {
        panic!("the free point must claim");
    };
    assert_eq!(first, 1);

    // Expiry alone is a non-event: nobody claimed, the fence renews.
    assert!(
        coordination
            .renew_lease("landing", "one", first, 200, 100)
            .unwrap()
    );

    // A newer claim after expiry supersedes: the epoch bumps and the
    // first tenancy's fence refuses from then on, forever.
    let LeaseClaim::Held { epoch: second } = coordination
        .claim_lease("landing", "two", 400, 100)
        .unwrap()
    else {
        panic!("the expired point must claim");
    };
    assert_eq!(second, 2);
    assert_ne!(first, second);
    assert!(
        !coordination
            .renew_lease("landing", "one", first, 450, 100)
            .unwrap()
    );
    assert!(
        coordination
            .renew_lease("landing", "two", second, 450, 100)
            .unwrap()
    );

    // Release keeps the epoch as high water: the next claim bumps
    // past it, and no earlier fence validates again.
    coordination
        .release_lease("landing", "two", second)
        .unwrap();
    assert!(
        !coordination
            .renew_lease("landing", "two", second, 500, 100)
            .unwrap()
    );
    // The release itself burned an epoch, so the next tenancy sits
    // two past the released one.
    let LeaseClaim::Held { epoch: third } = coordination
        .claim_lease("landing", "one", 500, 100)
        .unwrap()
    else {
        panic!("the released point must claim");
    };
    assert_eq!(third, 4);
    assert!(
        !coordination
            .renew_lease("landing", "one", first, 550, 100)
            .unwrap()
    );
}

#[test]
fn a_release_names_its_tenancy_or_loses() {
    let mut coordination = coordination();
    let LeaseClaim::Held { epoch } = coordination.claim_lease("landing", "one", 0, 100).unwrap()
    else {
        panic!("the free point must claim");
    };

    // A stale release, with the wrong epoch, changes nothing; the tenancy
    // stands and its fence still validates.
    coordination
        .release_lease("landing", "one", epoch + 1)
        .unwrap();
    assert!(
        coordination
            .renew_lease("landing", "one", epoch, 50, 100)
            .unwrap()
    );

    // The named release ends it.
    coordination.release_lease("landing", "one", epoch).unwrap();
    assert!(
        !coordination
            .renew_lease("landing", "one", epoch, 60, 100)
            .unwrap()
    );
}

#[test]
fn a_pre_fence_store_gains_the_epoch_column_on_open() {
    // A store from before the fence keeps its points without an epoch.
    let mut rows = Coordination::new().into_rows();
    rows.leases.push((
        "landing".to_owned(),
        LeaseRow {
            holder: "gone".to_owned(),
            expires_at_ms: -1,
            epoch: loaded_epoch(None),
        },
    ));

    // Opening migrates: claims fence from the first tenancy on.
    let mut coordination = Coordination::open(STORE_VERSION, rows).unwrap();
    let LeaseClaim::Held { epoch } = coordination.claim_lease("landing", "one", 0, 100).unwrap()
    else {
        panic!("the migrated point must claim");
    };
    assert_eq!(epoch, 1);
    assert!(
        coordination
            .renew_lease("landing", "one", epoch, 50, 100)
            .unwrap()
    );
}

#[test]
fn a_newer_store_refuses_to_open() {
    let rows = Coordination::open(STORE_VERSION, Coordination::new().into_rows())
        .unwrap()
        .into_rows();
    let Err(error) = Coordination::open(99, rows) else {
        panic!("a newer store must refuse to open");
    };
    assert!(
        error.message().contains("newer than this atelier"),
        "got: {}",
        error.message()
    );
    assert_eq!(
        error.message(),
        "engine error: the workspace store is at version 99, newer than this atelier's 6"
    );
    for version in [0, STORE_VERSION] {
        assert!(check_store_version(version).is_ok());
        assert!(Coordination::open(version, Coordination::new().into_rows()).is_ok());
    }
    assert!(check_store_version(STORE_VERSION + 1).is_err());
    assert!(Coordination::open(STORE_VERSION + 1, Coordination::new().into_rows()).is_err());
}

#[test]
fn a_request_move_names_its_prior_state_or_loses() {
    let mut coordination = coordination();
    let session = coordination
        .create_session(&actor(), "summary", &None, &None, 1)
        .unwrap();
    let request = coordination.create_request(session, &actor(), 2).unwrap();

    // A move from a state the row does not hold changes nothing.
    let stale =
        coordination.move_request_state(request, &[RequestState::Approved], RequestState::Landed);
    assert!(!stale);
    assert_eq!(
        coordination.request(request).unwrap().state,
        RequestState::Open
    );

    // The legal transition lands; repeating it is stale and loses.
    assert!(coordination.move_request_state(
        request,
        &[RequestState::Open],
        RequestState::Approved
    ));
    assert!(!coordination.move_request_state(
        request,
        &[RequestState::Open],
        RequestState::Approved
    ));
    assert_eq!(
        coordination.request(request).unwrap().state,
        RequestState::Approved
    );
}

#[test]
fn a_request_move_accepts_any_of_its_named_priors() {
    let mut coordination = coordination();
    let session = coordination
        .create_session(&actor(), "summary", &None, &None, 1)
        .unwrap();
    let request = coordination.create_request(session, &actor(), 2).unwrap();

    // Open is the last entry in the from list: every prior counts.
    let moved = coordination.move_request_state(
        request,
        &[
            RequestState::Approved,
            RequestState::Parked,
            RequestState::Open,
        ],
        RequestState::Abandoned,
    );
    assert!(moved);
    assert_eq!(
        coordination.request(request).unwrap().state,
        RequestState::Abandoned
    );
}

#[test]
fn a_session_move_names_its_prior_state_or_loses() {
    let mut coordination = coordination();
    let session = coordination
        .create_session(&actor(), "summary", &None, &None, 1)
        .unwrap();

    assert!(coordination.move_session_state(session, SessionState::Open, SessionState::Landed));
    // The stale writer, abandoning a session already landed, loses.
    let stale =
        coordination.move_session_state(session, SessionState::Open, SessionState::Abandoned);
    assert!(!stale);
    assert_eq!(
        coordination.session(session).unwrap().state,
        SessionState::Landed
    );
}

#[test]
fn an_expiry_past_the_clock_refuses() {
    let mut coordination = coordination();
    let refused = coordination
        .claim_lease("landing", "one", i64::MAX, 1)
        .unwrap_err();
    assert_eq!(
        refused.message(),
        "engine error: lease expiry overflows: 9223372036854775807 + 1"
    );
}

#[test]
fn saved_rows_open_as_the_same_store() {
    let mut coordination = coordination();
    let session = coordination
        .create_session(
            &actor(),
            "summary",
            &Some("bip:run/7".to_owned()),
            &Some("verbatim".to_owned()),
            1,
        )
        .unwrap();
    coordination.set_session_change(session, "c1");
    coordination
        .set_session_source_change(session, "docs", "c2")
        .unwrap();
    let request = coordination.create_request(session, &actor(), 2).unwrap();
    coordination.add_approval(request, &actor(), "snap", 3);
    coordination
        .record_landing(request, &Some("docs".to_owned()), "landed")
        .unwrap();
    coordination.record_landing(request, &None, "root").unwrap();
    coordination.record_sync_state("docs", "print", "landed");
    coordination.claim_lease("landing", "one", 0, 100).unwrap();

    let reopened = Coordination::open(STORE_VERSION, coordination.into_rows()).unwrap();
    let row = reopened.session(session).unwrap();
    assert_eq!(row.instruction_run_ref, Some("bip:run/7".to_owned()));
    assert_eq!(row.change_id, Some("c1".to_owned()));
    assert_eq!(
        reopened.session_source_changes(session),
        vec![("docs".to_owned(), "c2".to_owned())]
    );
    assert_eq!(reopened.live_approvals(request).len(), 1);
    assert_eq!(
        reopened.landings(request),
        vec![
            (None, "root".to_owned()),
            (Some("docs".to_owned()), "landed".to_owned()),
        ]
    );
    assert_eq!(
        reopened.sync_state("docs"),
        Some(("print".to_owned(), "landed".to_owned()))
    );
    assert_eq!(reopened.sync_state("/"), None);
    let mut reopened = reopened;
    assert!(matches!(
        reopened.claim_lease("landing", "two", 50, 100).unwrap(),
        LeaseClaim::HeldByOther { .. }
    ));
    // Ids are never given out twice, across restarts too.
    assert_eq!(
        reopened
            .create_session(&actor(), "next", &None, &None, 9)
            .unwrap(),
        session + 1
    );
}

#[test]
fn a_deleted_session_never_lends_its_id_again() {
    let mut coordination = coordination();
    let first = coordination
        .create_session(&actor(), "one", &None, &None, 1)
        .unwrap();
    coordination.delete_session(first);
    assert!(coordination.session(first).is_none());
    let second = coordination
        .create_session(&actor(), "two", &None, &None, 2)
        .unwrap();
    assert_eq!(second, first + 1);
}

#[test]
fn dismissed_approvals_stop_counting_for_their_request_alone() {
    let mut coordination = coordination();
    let session = coordination
        .create_session(&actor(), "summary", &None, &None, 1)
        .unwrap();
    let first = coordination.create_request(session, &actor(), 2).unwrap();
    let second = coordination.create_request(session, &actor(), 3).unwrap();
    coordination.add_approval(first, &actor(), "a", 4);
    coordination.add_approval(second, &actor(), "b", 5);
    assert_eq!(coordination.dismiss_approvals(first), 1);
    assert_eq!(coordination.dismiss_approvals(first), 0);
    assert_eq!(coordination.live_approvals(first).len(), 0);
    assert_eq!(coordination.live_approvals(second).len(), 1);
}

#[test]
fn rows_out_of_order_refuse_to_open() {
    let mut coordination = coordination();
    coordination
        .create_session(&actor(), "one", &None, &None, 1)
        .unwrap();
    coordination
        .create_session(&actor(), "two", &None, &None, 2)
        .unwrap();
    let mut rows = coordination.into_rows();
    rows.sessions.reverse();
    assert!(Coordination::open(STORE_VERSION, rows).is_err());
}
