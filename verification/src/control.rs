use vstd::prelude::*;

use crate::frame::bytes_eq;
use crate::session::has_id;

verus! {

/// The bytes of the control path "/reload".
pub open spec fn reload_path() -> Seq<u8> {
    seq![47u8, 114, 101, 108, 111, 97, 100]
}

/// The bytes of the control path "/stop".
pub open spec fn stop_path() -> Seq<u8> {
    seq![47u8, 115, 116, 111, 112]
}

/// The bytes of the control path "/now".
pub open spec fn now_path() -> Seq<u8> {
    seq![47u8, 110, 111, 119]
}

/// The response body "reloaded".
pub open spec fn reloaded_body() -> Seq<u8> {
    seq![114u8, 101, 108, 111, 97, 100, 101, 100]
}

/// The response body "config invalid".
pub open spec fn config_invalid_body() -> Seq<u8> {
    seq![99u8, 111, 110, 102, 105, 103, 32, 105, 110, 118, 97, 108, 105, 100]
}

/// The response body "shutdown initiated".
pub open spec fn shutdown_body() -> Seq<u8> {
    seq![115u8, 104, 117, 116, 100, 111, 119, 110, 32, 105, 110, 105, 116, 105, 97, 116, 101, 100]
}

/// The response body for a path that names no operation: the UTF-8 text
/// that asks the caller to choose an operation.
pub open spec fn choose_body() -> Seq<u8> {
    seq![
        232u8, 175, 183, 233, 128, 137, 230, 139, 169, 230, 130, 168, 232, 166, 129, 231, 154,
        132, 230, 147, 141, 228, 189, 156,
    ]
}

/// One request to the control endpoint.
#[derive(Clone, Copy, PartialEq, Eq, Structural, Debug)]
pub enum ControlRequest {
    /// Re-read the configuration and start a new generation.
    Reload,
    /// Signal the serving generation to stop accepting; drain in-flight.
    Stop,
    /// Render the live configuration.
    Now,
    /// Any other path.
    Unknown,
}

/// Maps a request path to the control operation it names. Each endpoint is
/// defined once; anything else is unknown.
pub fn dispatch(path: &Vec<u8>) -> (r: ControlRequest)
    ensures
        path@ == reload_path() ==> r == ControlRequest::Reload,
        path@ == stop_path() ==> r == ControlRequest::Stop,
        path@ == now_path() ==> r == ControlRequest::Now,
        (path@ != reload_path() && path@ != stop_path() && path@ != now_path()) ==> r
            == ControlRequest::Unknown,
{
    let reload: Vec<u8> = vec![47u8, 114, 101, 108, 111, 97, 100];
    let stop: Vec<u8> = vec![47u8, 115, 116, 111, 112];
    let now: Vec<u8> = vec![47u8, 110, 111, 119];
    assert(reload@ =~= reload_path());
    assert(stop@ =~= stop_path());
    assert(now@ =~= now_path());
    if bytes_eq(path, &reload) {
        ControlRequest::Reload
    } else if bytes_eq(path, &stop) {
        ControlRequest::Stop
    } else if bytes_eq(path, &now) {
        ControlRequest::Now
    } else {
        ControlRequest::Unknown
    }
}

/// The status and body of a control response. A reload answers 200
/// "reloaded" on success and 500 with a reason when the configuration did
/// not parse (the old generation keeps running); a stop answers 200
/// "shutdown initiated"; for `Now` the status is 200 and the caller renders
/// the configuration as the body, which this yields empty; any other path
/// answers 503.
pub fn respond(req: ControlRequest, reload_ok: bool) -> (r: (u16, Vec<u8>))
    ensures
        req == ControlRequest::Reload && reload_ok ==> r.0 == 200 && r.1@ == reloaded_body(),
        req == ControlRequest::Reload && !reload_ok ==> r.0 == 500 && r.1@
            == config_invalid_body(),
        req == ControlRequest::Stop ==> r.0 == 200 && r.1@ == shutdown_body(),
        req == ControlRequest::Now ==> r.0 == 200 && r.1@ == Seq::<u8>::empty(),
        req == ControlRequest::Unknown ==> r.0 == 503 && r.1@ == choose_body(),
{
    match req {
        ControlRequest::Reload => {
            if reload_ok {
                let body: Vec<u8> = vec![114u8, 101, 108, 111, 97, 100, 101, 100];
                assert(body@ =~= reloaded_body());
                (200, body)
            } else {
                let body: Vec<u8> = vec![
                    99u8, 111, 110, 102, 105, 103, 32, 105, 110, 118, 97, 108, 105, 100,
                ];
                assert(body@ =~= config_invalid_body());
                (500, body)
            }
        },
        ControlRequest::Stop => {
            let body: Vec<u8> = vec![
                115u8, 104, 117, 116, 100, 111, 119, 110, 32, 105, 110, 105, 116, 105, 97, 116,
                101, 100,
            ];
            assert(body@ =~= shutdown_body());
            (200, body)
        },
        ControlRequest::Now => {
            let body: Vec<u8> = Vec::new();
            assert(body@ =~= Seq::<u8>::empty());
            (200, body)
        },
        ControlRequest::Unknown => {
            let body: Vec<u8> = vec![
                232u8, 175, 183, 233, 128, 137, 230, 139, 169, 230, 130, 168, 232, 166, 129, 231,
                154, 132, 230, 147, 141, 228, 189, 156,
            ];
            assert(body@ =~= choose_body());
            (503, body)
        },
    }
}

/// The control owner's lifecycle state: which generations are live, and
/// what number the next one takes. Every live generation holds one unit of
/// the refcount; the control loop exits when none is left.
pub struct ControlState {
    /// The live generations, oldest first; each number stands once.
    pub generations: Vec<u32>,
    /// The number the next generation takes; grows by one per start.
    pub next_generation: u32,
}

impl ControlState {
    /// The numbers grow strictly along the list — the head is the oldest —
    /// and every live number is below the next to be handed out.
    pub open spec fn wf(self) -> bool {
        &&& forall|i: int, j: int|
            0 <= i < j < self.generations@.len() ==> self.generations@[i] < self.generations@[j]
        &&& forall|i: int|
            0 <= i < self.generations@.len() ==> #[trigger] self.generations@[i]
                < self.next_generation
    }

    pub fn new() -> (r: ControlState)
        ensures
            r.wf(),
            r.generations@ == Seq::<u32>::empty(),
            r.next_generation == 1,
    {
        let generations: Vec<u32> = Vec::new();
        assert(generations@ =~= Seq::<u32>::empty());
        ControlState { generations, next_generation: 1 }
    }

    /// How many generations are live: the refcount.
    pub fn live_count(&self) -> (r: usize)
        ensures
            r == self.generations@.len(),
    {
        self.generations.len()
    }

    /// Whether the control loop should still run.
    pub fn is_live(&self) -> (r: bool)
        ensures
            r == (self.generations@.len() > 0),
    {
        self.generations.len() > 0
    }

    /// A new generation starts serving: it takes the next number, a unit
    /// of the refcount, and its place at the young end of the list. The
    /// older generations — and their in-flight work — are untouched.
    pub fn start_generation(&mut self) -> (g: u32)
        requires
            old(self).wf(),
            old(self).next_generation < u32::MAX,
        ensures
            final(self).wf(),
            g == old(self).next_generation,
            final(self).generations@ == old(self).generations@.push(g),
            final(self).next_generation == old(self).next_generation + 1,
    {
        let g = self.next_generation;
        self.generations.push(g);
        self.next_generation = g + 1;
        proof {
            assert forall|i: int, j: int|
                0 <= i < j < self.generations@.len() implies self.generations@[i]
                < self.generations@[j] by {
                if j < self.generations@.len() - 1 {
                } else {
                    assert(self.generations@[i] == old(self).generations@[i]);
                }
            }
        }
        g
    }

    /// The generation a shutdown signal goes to: the oldest live one.
    pub fn oldest_generation(&self) -> (r: Option<u32>)
        ensures
            self.generations@.len() > 0 ==> r == Some(self.generations@[0]),
            self.generations@.len() == 0 ==> r is None,
    {
        if self.generations.len() > 0 {
            Some(self.generations[0])
        } else {
            None
        }
    }

    /// Generation `g` terminated and hands its unit back: exactly `g`
    /// leaves the list, the others keep their order, and the control loop
    /// exits exactly when no generation is left. A number that is not
    /// live changes nothing.
    pub fn on_generation_exit(&mut self, g: u32) -> (exit: bool)
        requires
            old(self).wf(),
        ensures
            final(self).wf(),
            final(self).next_generation == old(self).next_generation,
            has_id(old(self).generations@, g) ==> exists|i: int|
                0 <= i < old(self).generations@.len() && old(self).generations@[i] == g && final(self).generations@ == old(self).generations@.remove(i),
            !has_id(old(self).generations@, g) ==> final(self).generations@ == old(self).generations@,
            exit == (final(self).generations@.len() == 0),
    {
        let mut i: usize = 0;
        while i < self.generations.len()
            invariant
                0 <= i <= self.generations@.len(),
                self.generations@ == old(self).generations@,
                self.next_generation == old(self).next_generation,
                old(self).wf(),
                forall|k: int| 0 <= k < i ==> self.generations@[k] != g,
            decreases self.generations@.len() - i,
        {
            if self.generations[i] == g {
                self.generations.remove(i);
                proof {
                    assert(self.generations@ == old(self).generations@.subrange(0, i as int)
                        + old(self).generations@.subrange(
                        i as int + 1,
                        old(self).generations@.len() as int,
                    ));
                    assert forall|a: int, b: int|
                        0 <= a < b < self.generations@.len() implies self.generations@[a]
                        < self.generations@[b] by {
                        if b < i {
                        } else if a < i {
                            assert(self.generations@[a] == old(self).generations@[a]
                                && self.generations@[b] == old(self).generations@[b + 1]);
                        } else {
                            assert(self.generations@[a] == old(self).generations@[a + 1]
                                && self.generations@[b] == old(self).generations@[b + 1]);
                        }
                    }
                    assert forall|a: int|
                        0 <= a < self.generations@.len() implies #[trigger] self.generations@[a]
                        < self.next_generation by {
                        if a < i {
                            assert(self.generations@[a] == old(self).generations@[a]);
                        } else {
                            assert(self.generations@[a] == old(self).generations@[a + 1]);
                        }
                    }
                    assert(old(self).generations@[i as int] == g);
                    assert(has_id(old(self).generations@, g));
                    assert(self.generations@ == old(self).generations@.remove(i as int));
                }
                return self.generations.len() == 0;
            }
            i = i + 1;
        }
        proof {
            assert(!has_id(self.generations@, g)) by {
                if has_id(self.generations@, g) {
                    let k = choose|k: int|
                        0 <= k < self.generations@.len() && self.generations@[k] == g;
                }
            }
        }
        self.generations.len() == 0
    }
}

/// Graceful stop with two live generations: the stop signal goes to the
/// oldest; its exit leaves the newer generation alone, still serving, and
/// the process does not exit; only when the second generation has stopped
/// too is the table empty and the process exits. The steps relate as
/// `oldest_generation` and `on_generation_exit` state them.
pub proof fn lemma_refcount_two_generations(
    older: u32,
    newer: u32,
    s0: Seq<u32>,
    s1: Seq<u32>,
    exit1: bool,
    s2: Seq<u32>,
    exit2: bool,
)
    requires
        s0 == seq![older, newer],
        s1 == s0.remove(0),
        exit1 == (s1.len() == 0),
        s2 == s1.remove(0),
        exit2 == (s2.len() == 0),
    ensures
        s0[0] == older,
        s1 == seq![newer],
        !exit1,
        exit2,
{
    assert(s1 =~= seq![newer]);
    assert(s2 =~= Seq::<u32>::empty());
}

} // verus!
