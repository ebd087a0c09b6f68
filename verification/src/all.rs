//! Running every collector in turn, stopping at the first that fails.
use vstd::prelude::*;

verus! {

/// The collectors, in the order in which the full run uses them.
#[derive(PartialEq, Eq, Structural, Clone, Copy, Debug)]
pub enum Collector {
    Cpu,
    Storage,
    Temps,
    Fans,
    Usb,
    Pci,
    Process,
}

/// What the full run does next: run a collector, or finish with a result.
pub enum Step {
    Run(Collector),
    Done(Result<(), String>),
}

/// The collector at position `i` of the run: CPU usage, storage,
/// temperatures, fans, USB, PCI, processes.
pub open spec fn order(i: int) -> Collector {
    if i == 0 {
        Collector::Cpu
    } else if i == 1 {
        Collector::Storage
    } else if i == 2 {
        Collector::Temps
    } else if i == 3 {
        Collector::Fans
    } else if i == 4 {
        Collector::Usb
    } else if i == 5 {
        Collector::Pci
    } else {
        Collector::Process
    }
}

/// The collector to run after `completed` of them, the last having
/// succeeded or not: the next in order while all have succeeded.
pub open spec fn step_spec(completed: int, last_ok: bool) -> Option<Collector> {
    if last_ok && 0 <= completed < 7 {
        Some(order(completed))
    } else {
        None
    }
}

/// The next step of the full run after `completed` collectors, `last` being
/// what the last of them gave (`Ok` before the first): the next collector
/// while all have succeeded, the first error, or success after all seven.
pub fn collect(completed: usize, last: Result<(), String>) -> (r: Step)
    ensures
        match r {
            Step::Run(c) => step_spec(completed as int, last is Ok) == Some(c),
            Step::Done(res) => step_spec(completed as int, last is Ok) is None && match last {
                Err(e) => res == Err::<(), String>(e),
                Ok(_) => res is Ok,
            },
        },
{
    match last {
        Err(e) => Step::Done(Err(e)),
        Ok(_) => {
            if completed == 0 {
                Step::Run(Collector::Cpu)
            } else if completed == 1 {
                Step::Run(Collector::Storage)
            } else if completed == 2 {
                Step::Run(Collector::Temps)
            } else if completed == 3 {
                Step::Run(Collector::Fans)
            } else if completed == 4 {
                Step::Run(Collector::Usb)
            } else if completed == 5 {
                Step::Run(Collector::Pci)
            } else if completed == 6 {
                Step::Run(Collector::Process)
            } else {
                Step::Done(Ok(()))
            }
        },
    }
}

/// The collectors that a run visits from `done` on, given whether each
/// succeeds (`oks`) and whether the last one did.
pub open spec fn visited(oks: Seq<bool>, done: int, last_ok: bool) -> Seq<Collector>
    decreases 7 - done,
{
    match step_spec(done, last_ok) {
        None => Seq::empty(),
        Some(c) => seq![c] + visited(oks, done + 1, oks[done]),
    }
}

/// The number of collectors run from `done` on when they all start: up to
/// and including the first that fails, else all seven.
pub open spec fn stop_at(oks: Seq<bool>, done: int) -> int
    decreases 7 - done,
{
    if done >= 7 || done < 0 {
        7
    } else if !oks[done] {
        done + 1
    } else {
        stop_at(oks, done + 1)
    }
}

proof fn lemma_visited(oks: Seq<bool>, d: int)
    requires
        0 <= d <= 7,
        oks.len() == 7,
    ensures
        visited(oks, d, true) == Seq::new((stop_at(oks, d) - d) as nat, |i: int| order(d + i)),
        d <= stop_at(oks, d) <= 7,
    decreases 7 - d,
{
    if d < 7 {
        lemma_visited(oks, d + 1);
        if !oks[d] {
            assert(visited(oks, d + 1, false) =~= Seq::<Collector>::empty());
            assert(visited(oks, d, true) =~= Seq::new(1, |i: int| order(d + i)));
        } else {
            assert(visited(oks, d, true) =~= Seq::new(
                (stop_at(oks, d) - d) as nat,
                |i: int| order(d + i),
            ));
        }
    } else {
        assert(visited(oks, d, true) =~= Seq::<Collector>::empty());
    }
}

/// Law: a full run visits the seven collectors (CPU usage, storage,
/// temperatures, fans, USB, PCI, processes) in that order, each once, up to
/// and including the first that fails, or all seven when none fails.
pub proof fn run_visits_in_order(oks: Seq<bool>)
    requires
        oks.len() == 7,
    ensures
        visited(oks, 0, true) == Seq::new(stop_at(oks, 0) as nat, |i: int| order(i)),
        forall|k: int| 0 <= k < stop_at(oks, 0) - 1 ==> oks[k],
        stop_at(oks, 0) < 7 ==> !oks[stop_at(oks, 0) - 1],
{
    lemma_visited(oks, 0);
    assert(Seq::new(stop_at(oks, 0) as nat, |i: int| order(0 + i)) =~= Seq::new(
        stop_at(oks, 0) as nat,
        |i: int| order(i),
    ));
    lemma_stop(oks, 0);
}

proof fn lemma_stop(oks: Seq<bool>, d: int)
    requires
        0 <= d <= 7,
        oks.len() == 7,
    ensures
        forall|k: int| d <= k < stop_at(oks, d) - 1 ==> oks[k],
        stop_at(oks, d) < 7 ==> !oks[stop_at(oks, d) - 1],
    decreases 7 - d,
{
    if d < 7 && oks[d] {
        lemma_stop(oks, d + 1);
    }
}

} // verus!
