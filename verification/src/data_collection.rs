//! Running a recording: the order in which the collectors are prepared, the names under
//! which their stages are timed, and the decisions of the collection loop between timer
//! ticks and signals.
use crate::text::push_str;
use vstd::prelude::*;

verus! {

// ------------------------------------------------------------------------------------------
// Stages of a collector
// ------------------------------------------------------------------------------------------

/// A stage of a data collector whose duration is recorded.
#[derive(Debug, Clone, Copy, PartialEq, Eq, Structural)]
pub enum CollectorStage {
    Prepare,
    Collect,
    Write,
    Finish,
}

/// The name under which a collector's stage is timed: the data name, '-', "static_" for
/// the collection and writing of static data, and the stage.
pub open spec fn stage_stat_name(data_name: Seq<char>, is_static: bool, stage: CollectorStage) -> Seq<char> {
    match stage {
        CollectorStage::Prepare => data_name + "-prepare"@,
        CollectorStage::Finish => data_name + "-finish"@,
        CollectorStage::Collect => data_name + "-"@ + (if is_static {
            "static_"@
        } else {
            Seq::empty()
        }) + "collect"@,
        CollectorStage::Write => data_name + "-"@ + (if is_static {
            "static_"@
        } else {
            Seq::empty()
        }) + "write"@,
    }
}

/// The name under which a collector's stage is timed (see `stage_stat_name`).
pub fn collector_stat_name(data_name: &str, is_static: bool, stage: CollectorStage) -> (r: String)
    ensures
        r@ == stage_stat_name(data_name@, is_static, stage),
{
    let mut s = String::new();
    push_str(&mut s, data_name);
    match stage {
        CollectorStage::Prepare => push_str(&mut s, "-prepare"),
        CollectorStage::Finish => push_str(&mut s, "-finish"),
        CollectorStage::Collect | CollectorStage::Write => {
            push_str(&mut s, "-");
            if is_static {
                push_str(&mut s, "static_");
            }
            let ghost before = s@;
            if stage == CollectorStage::Collect {
                push_str(&mut s, "collect");
            } else {
                push_str(&mut s, "write");
            }
            proof {
                assert(Seq::<char>::empty() + "collect"@ =~= "collect"@);
                assert(Seq::<char>::empty() + "write"@ =~= "write"@);
                if !is_static {
                    assert(data_name@ + "-"@ + Seq::<char>::empty() =~= data_name@ + "-"@);
                }
            }
        },
    }
    proof {
        assert(s@ =~= stage_stat_name(data_name@, is_static, stage));
    }
    s
}

// ------------------------------------------------------------------------------------------
// Preparing the collectors
// ------------------------------------------------------------------------------------------

/// The indices, in order, of the collectors that are not static and are (or are not) profile
/// collectors; each collector is given as (static, profile).
pub open spec fn kind_indices(kinds: Seq<(bool, bool)>, profile: bool) -> Seq<usize>
    decreases kinds.len(),
{
    if kinds.len() == 0 {
        Seq::empty()
    } else {
        let r = kind_indices(kinds.drop_last(), profile);
        if !kinds.last().0 && kinds.last().1 == profile {
            r.push((kinds.len() - 1) as usize)
        } else {
            r
        }
    }
}

fn kind_indices_of(kinds: &Vec<(bool, bool)>, profile: bool, out: &mut Vec<usize>)
    ensures
        final(out)@ == old(out)@ + kind_indices(kinds@, profile),
{
    let mut i: usize = 0;
    let ghost start = out@;
    assert(kinds@.take(0) =~= Seq::<(bool, bool)>::empty());
    assert(out@ =~= start + kind_indices(kinds@.take(0), profile));
    while i < kinds.len()
        invariant
            i <= kinds@.len(),
            start == old(out)@,
            out@ == start + kind_indices(kinds@.take(i as int), profile),
        decreases kinds.len() - i,
    {
        assert(kinds@.take(i + 1).drop_last() =~= kinds@.take(i as int));
        if !kinds[i].0 && kinds[i].1 == profile {
            out.push(i);
        }
        assert(out@ =~= start + kind_indices(kinds@.take(i + 1), profile));
        i = i + 1;
    }
    assert(kinds@.take(kinds@.len() as int) =~= kinds@);
}

/// The order in which collectors are prepared: the collectors that are not static, those
/// that do not launch profilers first and the profile collectors after them (so that these
/// start as close as possible to the collection), each part in the given order. Each
/// collector is given as (static, profile).
pub fn preparation_order(kinds: &Vec<(bool, bool)>) -> (r: Vec<usize>)
    ensures
        r@ == kind_indices(kinds@, false) + kind_indices(kinds@, true),
{
    let mut r: Vec<usize> = Vec::new();
    kind_indices_of(kinds, false, &mut r);
    assert(r@ =~= kind_indices(kinds@, false));
    kind_indices_of(kinds, true, &mut r);
    r
}

// ------------------------------------------------------------------------------------------
// The collection loop
// ------------------------------------------------------------------------------------------

/// The number of the interrupt signal (SIGINT) on Linux.
pub const SIGINT_SIGNO: u32 = 2;

/// The number of the termination signal (SIGTERM) on Linux.
pub const SIGTERM_SIGNO: u32 = 15;

/// The signal that ended a collection before its period was over.
#[derive(Debug, Clone, Copy, PartialEq, Eq, Structural)]
pub enum EndSignal {
    Interrupt,
    Terminate,
}

impl EndSignal {
    /// The signal's name, as recorded in the run's parameters.
    pub fn as_str(&self) -> (r: &'static str)
        ensures
            r@ == (match *self {
                EndSignal::Interrupt => "SIGINT"@,
                EndSignal::Terminate => "SIGTERM"@,
            }),
    {
        match self {
            EndSignal::Interrupt => "SIGINT",
            EndSignal::Terminate => "SIGTERM",
        }
    }
}

/// What the collection loop waits for: the interval timer, which has expired
/// `expirations` times since it was last read, or a signal with its number.
#[derive(Debug, Clone, Copy, PartialEq, Eq, Structural)]
pub enum PollEvent {
    Timer { expirations: u64 },
    Signal { signo: u32 },
}

/// What the collection loop does next: collect from every collector that is not static
/// (reporting the intervals missed since the last collection), or stop.
#[derive(Debug, Clone, Copy, PartialEq, Eq, Structural)]
pub enum CollectionAction {
    Collect { missed: u64 },
    Stop(EndSignal),
}

/// The signals that end a collection: the interrupt and the termination signal.
pub open spec fn is_end_signal(signo: u32) -> bool {
    signo == SIGINT_SIGNO || signo == SIGTERM_SIGNO
}

/// The state of the collection loop: the time at which the period ends and the time at
/// which the last collection ended, in nanoseconds since the collection started, and the
/// signal that stopped it, if any.
#[derive(Debug, Clone, Copy)]
pub struct CollectionLoop {
    pub end_time: u128,
    pub current_time: u128,
    pub end_signal: Option<EndSignal>,
}

impl CollectionLoop {
    /// The loop of a collection that lasts `period_secs` seconds, at its start.
    pub fn new(period_secs: u64) -> (r: Self)
        ensures
            r.end_time == period_secs * 1_000_000_000,
            r.current_time == 0,
            r.end_signal is None,
    {
        assert(period_secs * 1_000_000_000 <= u64::MAX * 1_000_000_000) by (nonlinear_arith)
            requires
                period_secs <= u64::MAX,
        ;
        CollectionLoop {
            end_time: (period_secs as u128) * 1_000_000_000,
            current_time: 0,
            end_signal: None,
        }
    }

    /// Whether the loop waits for another event: no signal stopped it and the last
    /// collection ended within the period.
    pub fn is_running(&self) -> (r: bool)
        ensures
            r == (self.end_signal is None && self.current_time <= self.end_time),
    {
        self.end_signal.is_none() && self.current_time <= self.end_time
    }

    /// Decides what an event asks for: a timer tick asks for a collection, with the
    /// intervals missed when the timer expired more than once; the interrupt or the
    /// termination signal stops the loop.
    pub fn on_event(&mut self, event: PollEvent) -> (r: CollectionAction)
        requires
            event matches PollEvent::Signal { signo } ==> is_end_signal(signo),
        ensures
            final(self).end_time == old(self).end_time,
            final(self).current_time == old(self).current_time,
            match event {
                PollEvent::Timer { expirations } => {
                    &&& r == CollectionAction::Collect {
                        missed: if expirations > 1 {
                            (expirations - 1) as u64
                        } else {
                            0
                        },
                    }
                    &&& final(self).end_signal == old(self).end_signal
                },
                PollEvent::Signal { signo } => {
                    let s = if signo == SIGINT_SIGNO {
                        EndSignal::Interrupt
                    } else {
                        EndSignal::Terminate
                    };
                    &&& r == CollectionAction::Stop(s)
                    &&& final(self).end_signal == Some(s)
                },
            },
    {
        match event {
            PollEvent::Timer { expirations } => CollectionAction::Collect {
                missed: if expirations > 1 {
                    expirations - 1
                } else {
                    0
                },
            },
            PollEvent::Signal { signo } => {
                let s = if signo == SIGINT_SIGNO {
                    EndSignal::Interrupt
                } else {
                    EndSignal::Terminate
                };
                self.end_signal = Some(s);
                CollectionAction::Stop(s)
            },
        }
    }

    /// Records that a collection ended at `now` nanoseconds after the start.
    pub fn collected(&mut self, now: u128)
        ensures
            final(self).current_time == now,
            final(self).end_time == old(self).end_time,
            final(self).end_signal == old(self).end_signal,
    {
        self.current_time = now;
    }

    /// The signal recorded as the end of the collection: its name, or nothing when the
    /// period ran out.
    pub fn end_signal_name(&self) -> (r: &'static str)
        ensures
            r@ == (match self.end_signal {
                Some(EndSignal::Interrupt) => "SIGINT"@,
                Some(EndSignal::Terminate) => "SIGTERM"@,
                None => ""@,
            }),
    {
        match self.end_signal {
            Some(s) => s.as_str(),
            None => "",
        }
    }
}

} // verus!
