//! The dispatcher's decisions: the level gate of the logger, the set of sink
//! types whose workers have answered, and the initialisation handshake.

use vstd::prelude::*;
use crate::config::{Level, LevelFilter, Record, passes, level_rank, filter_rank};
use crate::text::str_eq;

verus! {

/// Type tag of the terminal sink.
pub const TERMINAL: &'static str = "term_processor";

/// Type tag of the file sink.
pub const FILE: &'static str = "file_processor";

/// Type tag of the UDP sink.
pub const UDP: &'static str = "udp_processor";

/// What the logger does with a record.
#[derive(Debug, Clone, Copy, PartialEq, Eq, Structural)]
pub enum Route {
    /// The record does not pass the level gate: nothing is encoded or sent.
    Drop,
    /// An error record: sent on the emergency path, ahead of batching.
    Emergency,
    /// Encoded and broadcast as a plain write.
    Broadcast,
}

/// The routing rule of `log`.
pub open spec fn route_spec(l: Level, filter: LevelFilter) -> Route {
    if !passes(l, filter) {
        Route::Drop
    } else if l == Level::Error {
        Route::Emergency
    } else {
        Route::Broadcast
    }
}

/// Decides how `log` handles a record of level `l` under `filter`.
pub fn route(l: Level, filter: LevelFilter) -> (r: Route)
    ensures
        r == route_spec(l, filter),
{
    if !l.should_log_at(filter) {
        Route::Drop
    } else if l == Level::Error {
        Route::Emergency
    } else {
        Route::Broadcast
    }
}

/// How `log` handles a record, read from the record itself.
pub fn route_record(r: &Record, filter: LevelFilter) -> (out: Route)
    ensures
        out == route_spec(r.metadata.level, filter),
{
    route(r.metadata.level, filter)
}

/// The level gate: a record above the filter is dropped before any encoding
/// or sending, and every error that passes takes the emergency path.
pub proof fn lemma_level_gate(l: Level, filter: LevelFilter)
    ensures
        level_rank(l) > filter_rank(filter) ==> route_spec(l, filter) == Route::Drop,
        level_rank(l) <= filter_rank(filter) ==> route_spec(l, filter) != Route::Drop,
        l == Level::Error && filter != LevelFilter::Off ==> route_spec(l, filter) == Route::Emergency,
{
}

/// The kinds of sink.
#[derive(Debug, Clone, Copy, PartialEq, Eq, Structural)]
pub enum HandlerType {
    Terminal,
    File,
    Udp,
    Composite,
}

/// A set of sink type names, kept as a list without repeats.
pub struct TypeSet {
    pub names: Vec<String>,
}

impl TypeSet {
    /// The names, as values.
    pub open spec fn view_seq(&self) -> Seq<Seq<char>> {
        self.names@.map_values(|s: String| s@)
    }

    /// The set of names.
    pub open spec fn set(&self) -> Set<Seq<char>> {
        self.view_seq().to_set()
    }

    /// No name is listed twice.
    pub open spec fn wf(&self) -> bool {
        self.view_seq().no_duplicates()
    }

    pub fn new() -> (r: TypeSet)
        ensures
            r.wf(),
            r.set() == Set::<Seq<char>>::empty(),
    {
        let r = TypeSet { names: Vec::new() };
        assert(r.view_seq() =~= Seq::<Seq<char>>::empty());
        assert(r.set() =~= Set::<Seq<char>>::empty());
        r
    }

    /// Position of `name` in the list, if present.
    fn find(&self, name: &str) -> (r: Option<usize>)
        ensures
            r matches Some(i) ==> i < self.names@.len() && self.view_seq()[i as int] == name@,
            r is None ==> !self.view_seq().contains(name@),
    {
        let mut i: usize = 0;
        while i < self.names.len()
            invariant
                i <= self.names@.len(),
                forall|k: int| 0 <= k < i ==> self.view_seq()[k] != name@,
            decreases self.names@.len() - i,
        {
            if str_eq(self.names[i].as_str(), name) {
                return Some(i);
            }
            i = i + 1;
        }
        None
    }

    pub fn contains(&self, name: &str) -> (r: bool)
        ensures
            r == self.set().contains(name@),
    {
        let r = self.find(name).is_some();
        proof {
            if r {
                assert(self.view_seq().contains(name@));
            }
        }
        r
    }

    /// Adds a name.
    pub fn insert(&mut self, name: &str)
        requires
            old(self).wf(),
        ensures
            final(self).wf(),
            final(self).set() == old(self).set().insert(name@),
    {
        if self.find(name).is_none() {
            let ghost before = self.view_seq();
            self.names.push(String::from_str(name));
            proof {
                assert(self.view_seq() =~= before.push(name@));
                assert forall|x: Seq<char>| self.set().contains(x) == old(self).set().insert(name@).contains(x) by {
                    if old(self).set().contains(x) {
                        let j = choose|j: int| 0 <= j < before.len() && before[j] == x;
                        assert(self.view_seq()[j] == x);
                    }
                    if x == name@ {
                        assert(self.view_seq()[before.len() as int] == x);
                    }
                    if self.set().contains(x) {
                        let j = choose|j: int| 0 <= j < self.view_seq().len() && self.view_seq()[j] == x;
                        if j < before.len() {
                            assert(before[j] == x);
                        }
                    }
                }
                assert(self.set() =~= old(self).set().insert(name@));
            }
        } else {
            proof {
                assert(old(self).set().contains(name@));
                assert(self.set() =~= old(self).set().insert(name@));
            }
        }
    }

    /// Removes a name.
    pub fn remove(&mut self, name: &str)
        requires
            old(self).wf(),
        ensures
            final(self).wf(),
            final(self).set() == old(self).set().remove(name@),
    {
        match self.find(name) {
            Some(i) => {
                let ghost before = self.view_seq();
                self.names.remove(i);
                proof {
                    assert(self.view_seq() =~= before.remove(i as int));
                        assert forall|x: Seq<char>| self.set().contains(x) == old(self).set().remove(name@).contains(x) by {
                        if self.set().contains(x) {
                            let j = choose|j: int| 0 <= j < self.view_seq().len() && self.view_seq()[j] == x;
                            if j < i {
                                assert(before[j] == x);
                            } else {
                                assert(before[j + 1] == x);
                            }
                        }
                        if old(self).set().remove(name@).contains(x) {
                            let j = choose|j: int| 0 <= j < before.len() && before[j] == x;
                            if j < i {
                                assert(self.view_seq()[j] == x);
                            } else {
                                assert(self.view_seq()[j - 1] == x);
                            }
                        }
                    }
                    assert(self.set() =~= old(self).set().remove(name@));
                }
            },
            None => {
                proof {
                    assert(self.set() =~= old(self).set().remove(name@));
                }
            },
        }
    }
}

/// The workers that the handshake still waits for: one entry per worker
/// whose type is expected and not yet verified, in worker order.
pub open spec fn awaited(workers: Seq<Seq<char>>, expected: Set<Seq<char>>, verified: Set<Seq<char>>) -> Seq<Seq<char>> {
    workers.filter(|w: Seq<char>| expected.contains(w) && !verified.contains(w))
}

/// Lists the workers the handshake waits for.
pub fn awaited_workers(workers: &Vec<String>, expected: &TypeSet, verified: &TypeSet) -> (r: Vec<String>)
    ensures
        r@.map_values(|s: String| s@) == awaited(workers@.map_values(|s: String| s@), expected.set(), verified.set()),
{
    let ghost ws = workers@.map_values(|s: String| s@);
    let ghost pred = |w: Seq<char>| expected.set().contains(w) && !verified.set().contains(w);
    let mut out: Vec<String> = Vec::new();
    let mut i: usize = 0;
    while i < workers.len()
        invariant
            i <= workers@.len(),
            ws == workers@.map_values(|s: String| s@),
            pred == (|w: Seq<char>| expected.set().contains(w) && !verified.set().contains(w)),
            out@.map_values(|s: String| s@) == ws.subrange(0, i as int).filter(pred),
        decreases workers@.len() - i,
    {
        let w = workers[i].as_str();
        proof {
            assert(ws.subrange(0, i + 1).drop_last() =~= ws.subrange(0, i as int));
            ws.subrange(0, i + 1).filter_lemma(pred);
            reveal(Seq::filter);
        }
        if expected.contains(w) && !verified.contains(w) {
            let ghost before = out@.map_values(|s: String| s@);
            out.push(String::from_str(w));
            proof {
                assert(out@.map_values(|s: String| s@) =~= before.push(w@));
            }
        } else {
            proof {
                assert(out@.map_values(|s: String| s@) =~= out@.map_values(|s: String| s@));
            }
        }
        i = i + 1;
    }
    proof {
        assert(ws.subrange(0, workers@.len() as int) =~= ws);
    }
    out
}

/// How many more ready signals are needed: the awaited workers beyond those
/// already counted ready.
pub fn remaining_to_await(awaited_count: usize, ready: usize) -> (r: usize)
    ensures
        r == if awaited_count > ready { awaited_count - ready } else { 0 },
{
    awaited_count.saturating_sub(ready)
}

/// Polling interval of the handshake, in milliseconds.
pub const HANDSHAKE_POLL_MS: u64 = 10;

/// The handshake timeout used when a global logger is installed, in milliseconds.
pub const DEFAULT_HANDSHAKE_TIMEOUT_MS: u64 = 5000;

/// One poll of the handshake.
#[derive(Debug, Clone, Copy, PartialEq, Eq, Structural)]
pub enum WaitDecision {
    /// Every awaited worker has signalled.
    Ready,
    /// Sleep one poll interval and look again.
    Poll,
    /// The timeout has elapsed first: the build fails.
    TimedOut,
}

/// The handshake rule: ready as soon as every expected worker has signalled
/// (or nothing is expected); otherwise timed out once the timeout has elapsed.
pub open spec fn handshake_spec(ready: usize, expected: usize, elapsed_ms: u64, timeout_ms: u64) -> WaitDecision {
    if ready >= expected {
        WaitDecision::Ready
    } else if elapsed_ms >= timeout_ms {
        WaitDecision::TimedOut
    } else {
        WaitDecision::Poll
    }
}

/// Polls the handshake with the counters and the time spent so far.
pub fn handshake_step(ready: usize, expected: usize, elapsed_ms: u64, timeout_ms: u64) -> (r: WaitDecision)
    ensures
        r == handshake_spec(ready, expected, elapsed_ms, timeout_ms),
{
    if ready >= expected {
        WaitDecision::Ready
    } else if elapsed_ms >= timeout_ms {
        WaitDecision::TimedOut
    } else {
        WaitDecision::Poll
    }
}

/// The handshake reports success exactly when the ready count has reached the
/// expected count, and a timeout only when it has not and the time is up.
pub proof fn lemma_handshake_sound(ready: usize, expected: usize, elapsed_ms: u64, timeout_ms: u64)
    ensures
        handshake_spec(ready, expected, elapsed_ms, timeout_ms) == WaitDecision::Ready <==> ready >= expected,
        handshake_spec(ready, expected, elapsed_ms, timeout_ms) == WaitDecision::TimedOut ==> elapsed_ms
            >= timeout_ms && ready < expected,
{
}

} // verus!
