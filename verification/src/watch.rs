//! Watching a workspace: which filesystem events are content, and when an
//! edit storm becomes a snapshot.

use crate::error::{Error, ErrorView};
use crate::paths::{is_content, is_content_path};
use crate::shared::shared;
use crate::words::{joined, owned, texts};
use std::sync::Arc;
use std::sync::atomic::{AtomicBool, Ordering};
use vstd::prelude::*;

verus! {

/// How often a blocked watch wakes to see whether it was asked to stop, in
/// milliseconds.
pub const STOP_TICK_MS: u64 = 100;

/// What a running watch reports as it works.
#[derive(Debug, Clone, PartialEq, Eq)]
pub enum WatchEvent {
    /// The watcher is armed: edits from now on raise events. The catch-up
    /// scan for edits made while no watcher ran follows immediately.
    Started,
    /// Outstanding edits became this snapshot, journaled like any snapshot.
    Snapshotted { snapshot: String },
}

impl WatchEvent {
    /// The event as printed by a watch over `root`.
    pub fn to_text(&self, root: &str) -> (r: String)
        ensures
            r@ == match *self {
                WatchEvent::Started => "watching "@ + root@,
                WatchEvent::Snapshotted { snapshot } => "snapshot "@ + snapshot@,
            },
    {
        match self {
            WatchEvent::Started => joined("watching ", root),
            WatchEvent::Snapshotted { snapshot } => joined("snapshot ", snapshot.as_str()),
        }
    }
}

/// Stops a running watch from another thread; the watch returns within its
/// tick. Outstanding edits stay for the next watcher's catch-up scan.
///
/// Every clone of a handle has the same flag. What the flag holds changes
/// under every handle at once, so no contract here speaks of it: a flag is
/// clear when it is made, `stop` sets it for good, and `stopped` tells
/// whether that has happened.
#[derive(Debug, Default)]
pub struct WatchStop {
    flag: Arc<AtomicBool>,
}

impl WatchStop {
    /// Whether two handles have one flag, so that a stop of either is a stop
    /// of both.
    pub closed spec fn stops_with(self, other: WatchStop) -> bool {
        *self.flag == *other.flag
    }

    /// A handle on a flag of its own; nothing asked yet.
    #[must_use]
    pub fn new() -> (r: Self) {
        WatchStop { flag: Arc::new(AtomicBool::new(false)) }
    }

    /// Ask the watch to return.
    pub fn stop(&self) {
        self.flag.store(true, Ordering::Release);
    }

    /// Whether the watch was asked to return.
    pub fn stopped(&self) -> (r: bool) {
        self.flag.load(Ordering::Acquire)
    }
}

impl Clone for WatchStop {
    fn clone(&self) -> (r: Self)
        ensures
            r.stops_with(*self),
    {
        WatchStop { flag: shared(&self.flag) }
    }
}

// ---------------------------------------------------------------------
// Which events count.

/// Whether an event is content: it is no mere access, and it names no path
/// or one that is content. An event inside the engine's internals alone is
/// the engine's own writing, and reacting to it would loop.
pub open spec fn counts(root: Seq<char>, is_access: bool, paths: Seq<Seq<char>>) -> bool {
    !is_access && (paths.len() == 0 || exists|i: int|
        0 <= i < paths.len() && is_content(root, #[trigger] paths[i]))
}

/// Whether an event is content.
pub fn event_is_content(root: &str, is_access: bool, paths: &Vec<String>) -> (r: bool)
    ensures
        r == counts(root@, is_access, texts(paths@)),
{
    if is_access {
        return false;
    }
    if paths.len() == 0 {
        return true;
    }
    let ghost all = texts(paths@);
    let mut i: usize = 0;
    while i < paths.len()
        invariant
            i <= paths@.len(),
            !is_access,
            all == texts(paths@),
            forall|k: int| 0 <= k < i ==> !is_content(root@, #[trigger] all[k]),
        decreases paths@.len() - i,
    {
        assert(all[i as int] == paths@[i as int]@);
        if is_content_path(root, paths[i].as_str()) {
            return true;
        }
        i = i + 1;
    }
    false
}

// ---------------------------------------------------------------------
// The loop.

/// What a watch hears while it waits.
#[derive(Debug, Clone, PartialEq, Eq)]
pub enum Heard {
    /// Content moved.
    Pulse,
    /// Nothing, for as long as it waited.
    Quiet,
    /// The watcher failed, in its own words.
    Failed(String),
    /// The watcher is gone.
    Gone,
}

/// What a watch does next.
#[derive(Debug, Clone, Copy, PartialEq, Eq, Structural)]
pub enum WatchStep {
    /// Return: it was asked to.
    Return,
    /// Wait for a tick.
    Tick,
    /// Wait for the storm to stay quiet.
    Debounce,
    /// Snapshot once.
    Snapshot,
}

/// A watch: idle, or draining an edit storm until it is quiet.
pub struct WatchLoop {
    settling: bool,
}

impl View for WatchLoop {
    type V = bool;

    /// Whether the watch is draining a storm.
    closed spec fn view(&self) -> bool {
        self.settling
    }
}

/// What a watch does next. A stop request wins over a storm: what the storm
/// left is snapshotted, and then the watch returns.
pub open spec fn next_step(settling: bool, stopped: bool) -> WatchStep {
    if settling {
        if stopped {
            WatchStep::Snapshot
        } else {
            WatchStep::Debounce
        }
    } else if stopped {
        WatchStep::Return
    } else {
        WatchStep::Tick
    }
}

/// Why a watch fails on what it hears, if it does.
pub open spec fn hearing_error(heard: Heard) -> Option<ErrorView> {
    match heard {
        Heard::Failed(error) => Some(ErrorView::Engine("the file watcher failed: "@ + error@)),
        Heard::Gone => Some(ErrorView::Engine("the file watcher stopped delivering events"@)),
        _ => None,
    }
}

/// The watcher's own failure.
pub fn watcher_failed(error: &str) -> (r: Error)
    ensures
        r@ == ErrorView::Engine("the file watcher failed: "@ + error@),
{
    Error::Engine(joined("the file watcher failed: ", error))
}

/// A watcher that delivers no more.
pub fn watcher_gone() -> (r: Error)
    ensures
        r@ == ErrorView::Engine("the file watcher stopped delivering events"@),
{
    Error::Engine(owned("the file watcher stopped delivering events"))
}

impl WatchLoop {
    /// An idle watch.
    pub fn new() -> (r: Self)
        ensures
            !r@,
    {
        WatchLoop { settling: false }
    }

    /// What the watch does next, `stopped` saying whether it was asked to
    /// return.
    pub fn next(&mut self, stopped: bool) -> (r: WatchStep)
        ensures
            r == next_step(old(self)@, stopped),
            final(self)@ == (old(self)@ && !stopped),
    {
        if self.settling {
            if stopped {
                self.settling = false;
                WatchStep::Snapshot
            } else {
                WatchStep::Debounce
            }
        } else if stopped {
            WatchStep::Return
        } else {
            WatchStep::Tick
        }
    }

    /// Take in what was heard, and say whether to snapshot now: once a storm
    /// went quiet. The watcher's own failure is loud.
    pub fn hear(&mut self, heard: Heard) -> (r: Result<bool, Error>)
        ensures
            r is Err <==> hearing_error(heard) is Some,
            r is Err ==> Some((r->Err_0)@) == hearing_error(heard) && final(self)@ == old(self)@,
            r is Ok ==> r->Ok_0 == (old(self)@ && heard is Quiet) && final(self)@ == heard is Pulse,
    {
        match heard {
            Heard::Pulse => {
                self.settling = true;
                Ok(false)
            },
            Heard::Quiet => {
                let settled = self.settling;
                self.settling = false;
                Ok(settled)
            },
            Heard::Failed(error) => Err(watcher_failed(error.as_str())),
            Heard::Gone => Err(watcher_gone()),
        }
    }
}

/// How many snapshots a watch takes over what it hears, and whether it ends
/// up draining a storm.
pub open spec fn watched(settling: bool, heard: Seq<Heard>) -> (nat, bool)
    decreases heard.len(),
{
    if heard.len() == 0 {
        (0, settling)
    } else {
        let (count, state) = watched(settling, heard.drop_last());
        if state && heard.last() is Quiet {
            (count + 1, false)
        } else {
            (count, heard.last() is Pulse)
        }
    }
}

/// A storm becomes one snapshot, however many pulses it has: none while it
/// lasts, one when it goes quiet.
pub proof fn a_storm_is_one_snapshot(storm: Seq<Heard>)
    requires
        storm.len() > 0,
        forall|i: int| 0 <= i < storm.len() ==> (#[trigger] storm[i]) is Pulse,
    ensures
        watched(false, storm) == (0nat, true),
        watched(false, storm.push(Heard::Quiet)) == (1nat, false),
    decreases storm.len(),
{
    if storm.len() > 1 {
        let before = storm.drop_last();
        assert forall|i: int| 0 <= i < before.len() implies (#[trigger] before[i]) is Pulse by {
            assert(before[i] == storm[i]);
        }
        a_storm_is_one_snapshot(before);
    } else {
        assert(storm.drop_last() =~= Seq::empty());
        assert(watched(false, storm.drop_last()) == (0nat, false));
    }
    assert(storm[storm.len() - 1] is Pulse);
    assert(storm.push(Heard::Quiet).drop_last() =~= storm);
}

/// Reading a file counts for nothing, a change without a path counts, and a
/// path more makes a change count exactly where it is content or the change
/// counted before.
pub proof fn changes_count_by_content(
    root: Seq<char>,
    paths: Seq<Seq<char>>,
    path: Seq<char>,
)
    ensures
        !counts(root, true, paths),
        counts(root, false, Seq::empty()),
        counts(root, false, seq![path]) <==> is_content(root, path),
        paths.len() > 0 ==> (counts(root, false, paths.push(path)) <==> counts(root, false, paths)
            || is_content(root, path)),
{
    let one = seq![path];
    assert(one[0] == path);
    let longer = paths.push(path);
    assert(longer.last() == path);
    if paths.len() > 0 {
        if counts(root, false, paths) {
            let i = choose|i: int| 0 <= i < paths.len() && is_content(root, #[trigger] paths[i]);
            assert(longer[i] == paths[i]);
        }
        if is_content(root, path) {
            assert(is_content(root, longer[paths.len() as int]));
        }
        if counts(root, false, longer) {
            let i = choose|i: int|
                0 <= i < longer.len() && is_content(root, #[trigger] longer[i]);
            if i < paths.len() {
                assert(longer[i] == paths[i]);
            }
        }
    }
}

/// A watch that was stopped takes up no more: what it heard is still
/// recorded, then it returns. Until stopped it waits, for the storm to end
/// where there is one.
pub proof fn stopping_loses_nothing(settling: bool, stopped: bool)
    ensures
        next_step(settling, stopped) is Return <==> stopped && !settling,
        next_step(settling, stopped) is Snapshot <==> stopped && settling,
        next_step(settling, stopped) is Debounce <==> !stopped && settling,
        next_step(settling, stopped) is Tick <==> !stopped && !settling,
{
}

/// A watch fails exactly when its watcher failed or is gone.
pub proof fn watchers_fail_loudly(heard: Heard)
    ensures
        hearing_error(heard) is Some <==> heard is Failed || heard is Gone,
{
}

/// One snapshot is taken for each storm that quieted: a pulse begins or goes
/// on with one, and the quiet behind it ends it.
pub proof fn storms_are_counted(settling: bool, heard: Seq<Heard>)
    ensures
        watched(settling, heard.push(Heard::Pulse)) == (watched(settling, heard).0, true),
        watched(settling, heard.push(Heard::Pulse).push(Heard::Quiet)) == (
            watched(settling, heard).0 + 1,
            false,
        ),
        !watched(settling, heard).1 ==> watched(settling, heard.push(Heard::Quiet)) == watched(
            settling,
            heard,
        ),
        watched(settling, Seq::empty()) == (0nat, settling),
{
    let pulsed = heard.push(Heard::Pulse);
    assert(pulsed.drop_last() =~= heard);
    let quieted = pulsed.push(Heard::Quiet);
    assert(quieted.drop_last() =~= pulsed);
    assert(pulsed.last() is Pulse && quieted.last() is Quiet);
    assert(watched(settling, pulsed) == (watched(settling, heard).0, true));
    assert(watched(settling, quieted) == (watched(settling, pulsed).0 + 1, false));
    assert(heard.push(Heard::Quiet).drop_last() =~= heard);
}

} // verus!
