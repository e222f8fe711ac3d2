//! The position state machine: on each trigger it turns the rounded
//! prediction, the current error tolerance, and the time-boxed exit rule
//! into at most one buy or sell intent.
//!
//! An exit is forced when a position has been held for a full window of
//! observations since entry, and trivially when flat; an exit passes through
//! the flat state before any re-entry on the same trigger. A prediction acts
//! only when its magnitude reaches the tolerance, or on an exit trigger; an
//! untrained predictor behaves as an unbounded tolerance.
use vstd::prelude::*;
use crate::{MIN_TOLERANCE_TICKS, ROLLING_WINDOW};
use crate::numeric::div_round_half;
use crate::data_handling::FeatureDataFrame;

verus! {

/// The side of the open position.
#[derive(Clone, Copy, Debug, PartialEq, Eq, Structural)]
pub enum PositionSide {
    Flat,
    Long,
    Short,
}

/// An abstract order intent emitted toward the execution collaborator.
#[derive(Clone, Copy, Debug, PartialEq, Eq, Structural)]
pub enum Intent {
    Buy,
    Sell,
}

impl Intent {
    /// The wire form of the intent.
    pub fn message(&self) -> (r: String)
        ensures
            *self is Buy ==> r@ == "buy!"@,
            *self is Sell ==> r@ == "sell!"@,
    {
        match self {
            Intent::Buy => "buy!".to_owned(),
            Intent::Sell => "sell!".to_owned(),
        }
    }
}

/// One trigger evaluation's inputs: the index of the newest observation, the
/// prediction rounded to whole ticks, and the tolerance in ticks, absent
/// until the first retraining publishes one.
#[derive(Clone, Copy, Debug)]
pub struct TriggerEvent {
    pub index: usize,
    pub prediction_ticks: i64,
    pub tolerance_ticks: Option<i64>,
}

/// The position state machine: the current side and, when not flat, the
/// observation index at which the position was entered.
#[derive(Clone, Copy, Debug)]
pub struct SignalEngine {
    pub position: PositionSide,
    pub entry_index: Option<usize>,
}

impl SignalEngine {
    /// The entry index is tracked exactly while a position is open.
    pub open spec fn wf(self) -> bool {
        (self.position is Flat) <==> (self.entry_index is None)
    }

    /// A new engine: flat, no entry.
    pub fn new() -> (r: Self)
        ensures
            r.position is Flat,
            r.entry_index is None,
            r.wf(),
    {
        SignalEngine { position: PositionSide::Flat, entry_index: None }
    }
}

/// Whether the trigger forces a time-boxed exit: a full window has passed
/// since entry, or there is no open position.
pub open spec fn spec_exit(s: SignalEngine, index: int, window: int) -> bool {
    match s.entry_index {
        None => true,
        Some(e) => index >= e + window,
    }
}

/// Whether the prediction is strong enough to act on: its magnitude reaches
/// the tolerance, or the trigger exits anyway. No tolerance means no
/// magnitude is ever enough.
pub open spec fn spec_acts(pred: int, tol: Option<i64>, exit: bool) -> bool {
    exit || (match tol {
        Some(t) => (if pred >= 0 {
            pred
        } else {
            -pred
        }) >= t,
        None => false,
    })
}

/// The step relation of the engine: the state after one trigger and the
/// intent it emits. The exit rule runs first and lands flat; then a strong
/// enough strictly positive prediction enters long and a strictly negative
/// one enters short, each emitting one intent, unless the position already
/// has that side. A zero prediction never emits.
pub open spec fn spec_step(s: SignalEngine, ev: TriggerEvent, window: int) -> (SignalEngine,
    Option<Intent>) {
    let exit = spec_exit(s, ev.index as int, window);
    let s1 = if exit {
        SignalEngine { position: PositionSide::Flat, entry_index: None }
    } else {
        s
    };
    let acts = spec_acts(ev.prediction_ticks as int, ev.tolerance_ticks, exit);
    if acts && ev.prediction_ticks > 0 && !(s1.position is Long) {
        (
            SignalEngine { position: PositionSide::Long, entry_index: Some(ev.index) },
            Some(Intent::Buy),
        )
    } else if acts && ev.prediction_ticks < 0 && !(s1.position is Short) {
        (
            SignalEngine { position: PositionSide::Short, entry_index: Some(ev.index) },
            Some(Intent::Sell),
        )
    } else {
        (s1, None)
    }
}

impl SignalEngine {
    /// Runs one trigger: updates the position and returns the intent to
    /// send, if any.
    pub fn on_trigger(&mut self, event: TriggerEvent, window: usize) -> (intent: Option<Intent>)
        requires
            old(self).wf(),
            1 <= window,
            event.prediction_ticks > i64::MIN,
        ensures
            final(self).wf(),
            (*final(self), intent) == spec_step(*old(self), event, window as int),
    {
        let exit: bool = match self.entry_index {
            None => true,
            Some(e) => event.index >= e && event.index - e >= window,
        };
        if exit {
            self.position = PositionSide::Flat;
            self.entry_index = None;
        }
        let acts: bool = exit || (match event.tolerance_ticks {
            Some(t) => {
                let magnitude: i64 = if event.prediction_ticks >= 0 {
                    event.prediction_ticks
                } else {
                    -event.prediction_ticks
                };
                magnitude >= t
            },
            None => false,
        });
        if acts && event.prediction_ticks > 0 && !matches!(self.position, PositionSide::Long) {
            self.position = PositionSide::Long;
            self.entry_index = Some(event.index);
            Some(Intent::Buy)
        } else if acts && event.prediction_ticks < 0 && !matches!(
            self.position,
            PositionSide::Short,
        ) {
            self.position = PositionSide::Short;
            self.entry_index = Some(event.index);
            Some(Intent::Sell)
        } else {
            None
        }
    }
}

/// The engine state after a run of triggers.
pub open spec fn run_state(s0: SignalEngine, evs: Seq<TriggerEvent>, window: int) -> SignalEngine
    decreases evs.len(),
{
    if evs.len() == 0 {
        s0
    } else {
        spec_step(run_state(s0, evs.drop_last(), window), evs.last(), window).0
    }
}

/// The intent the `k`th trigger of a run emits.
pub open spec fn run_intent(
    s0: SignalEngine,
    evs: Seq<TriggerEvent>,
    window: int,
    k: int,
) -> Option<Intent> {
    spec_step(run_state(s0, evs.take(k), window), evs[k], window).1
}

/// The side a position takes after emitting the intent.
pub open spec fn intent_side(i: Intent) -> PositionSide {
    match i {
        Intent::Buy => PositionSide::Long,
        Intent::Sell => PositionSide::Short,
    }
}

proof fn lemma_run_state_step(s0: SignalEngine, evs: Seq<TriggerEvent>, window: int, k: int)
    requires
        0 <= k < evs.len(),
    ensures
        run_state(s0, evs.take(k + 1), window) == spec_step(
            run_state(s0, evs.take(k), window),
            evs[k],
            window,
        ).0,
{
    assert(evs.take(k + 1).drop_last() =~= evs.take(k));
    assert(evs.take(k + 1).last() == evs[k]);
}

/// Between two steps that emit no intent the position can only keep its side
/// or fall flat; it never silently takes a new side.
proof fn lemma_position_persists(
    s0: SignalEngine,
    evs: Seq<TriggerEvent>,
    window: int,
    a: int,
    k: int,
    side: PositionSide,
)
    requires
        0 <= a,
        a + 1 <= k <= evs.len(),
        run_state(s0, evs.take(a + 1), window).position == side,
        forall|j: int| a < j < k ==> run_intent(s0, evs, window, j) is None,
    ensures
        run_state(s0, evs.take(k), window).position == side || run_state(
            s0,
            evs.take(k),
            window,
        ).position is Flat,
    decreases k,
{
    if k == a + 1 {
    } else {
        lemma_position_persists(s0, evs, window, a, k - 1, side);
        lemma_run_state_step(s0, evs, window, k - 1);
        assert(run_intent(s0, evs, window, k - 1) is None);
    }
}

/// Two consecutive intents of the same side are impossible without an
/// intervening flat transition: either some state between them is flat, or
/// the second trigger itself forces an exit through flat before re-entering.
pub proof fn lemma_no_consecutive_same_side(
    s0: SignalEngine,
    evs: Seq<TriggerEvent>,
    window: int,
    a: int,
    b: int,
)
    requires
        0 <= a < b < evs.len(),
        run_intent(s0, evs, window, a) is Some,
        run_intent(s0, evs, window, b) == run_intent(s0, evs, window, a),
        forall|k: int| a < k < b ==> run_intent(s0, evs, window, k) is None,
    ensures
        (exists|k: int|
            a < k <= b && run_state(s0, evs.take(k), window).position is Flat) || spec_exit(
            run_state(s0, evs.take(b), window),
            evs[b].index as int,
            window,
        ),
{
    let i = run_intent(s0, evs, window, a).unwrap();
    let side = intent_side(i);
    lemma_run_state_step(s0, evs, window, a);
    assert(run_state(s0, evs.take(a + 1), window).position == side);
    if !spec_exit(run_state(s0, evs.take(b), window), evs[b].index as int, window) {
        lemma_position_persists(s0, evs, window, a, b, side);
        let sb = run_state(s0, evs.take(b), window);
        assert(spec_step(sb, evs[b], window).1 == Some(i));
        assert(sb.position != side);
        assert(sb.position is Flat);
        assert(a < b <= b && run_state(s0, evs.take(b), window).position is Flat);
    }
}

/// A forced exit always passes through flat: if the trigger emits nothing
/// the engine ends flat with no entry, and whatever it emits, the old entry
/// index is gone.
pub proof fn lemma_forced_exit(s: SignalEngine, ev: TriggerEvent, window: int)
    requires
        spec_exit(s, ev.index as int, window),
    ensures
        spec_step(s, ev, window).1 is None ==> spec_step(s, ev, window).0 == (SignalEngine {
            position: PositionSide::Flat,
            entry_index: None,
        }),
        spec_step(s, ev, window).0.entry_index is None || spec_step(s, ev, window).0.entry_index
            == Some(ev.index),
{
}

/// With an untrained predictor, any nonzero rounded prediction at a trigger
/// moves a flat engine away from flat and emits an intent.
pub proof fn lemma_untrained_nonzero_acts(s: SignalEngine, ev: TriggerEvent, window: int)
    requires
        s.wf(),
        s.position is Flat,
        ev.tolerance_ticks is None,
        ev.prediction_ticks != 0,
    ensures
        spec_step(s, ev, window).1 is Some,
        !(spec_step(s, ev, window).0.position is Flat),
{
}

/// Whether enough new observations have accumulated since the last
/// evaluation to fire the signal trigger.
pub fn should_signal(len: usize) -> (r: bool)
    ensures
        r == (len as int % (2 * ROLLING_WINDOW as int) == 0),
{
    len % (2 * ROLLING_WINDOW) == 0
}

/// Whether the log is ready for a signal evaluation: more rows than one full
/// window, and the newest row carries complete rolling fields.
pub fn ready_for_signal(df: &FeatureDataFrame, window: usize) -> (r: bool)
    ensures
        r == (df.data@.len() > window && df.data@.last().spec_has_rolling()),
{
    let n: usize = df.data.len();
    n > window && df.data[n - 1].has_rolling_features()
}

/// Sum of a sequence of per-row absolute errors.
pub open spec fn sum_errors(s: Seq<i64>) -> int
    decreases s.len(),
{
    if s.len() == 0 {
        0
    } else {
        sum_errors(s.drop_last()) + s.last()
    }
}

/// The error tolerance after a retraining cycle: the rounded mean of the
/// held-out absolute errors, in ticks, floored at the minimum tolerance.
pub fn error_tolerance_ticks(abs_errors: &Vec<i64>) -> (r: i64)
    requires
        abs_errors@.len() >= 1,
        forall|i: int| 0 <= i < abs_errors@.len() ==> 0 <= #[trigger] abs_errors@[i]
            <= 0x1_0000_0000i64,
    ensures
        r == if div_round_half(sum_errors(abs_errors@), abs_errors@.len() as int)
            >= MIN_TOLERANCE_TICKS {
            div_round_half(sum_errors(abs_errors@), abs_errors@.len() as int)
        } else {
            MIN_TOLERANCE_TICKS as int
        },
{
    let n: usize = abs_errors.len();
    let mut sum: i128 = 0;
    let mut i: usize = 0;
    proof {
        assert(abs_errors@.take(0) =~= Seq::<i64>::empty());
    }
    while i < n
        invariant
            0 <= i <= n,
            n == abs_errors@.len(),
            forall|k: int| 0 <= k < abs_errors@.len() ==> 0 <= #[trigger] abs_errors@[k]
                <= 0x1_0000_0000i64,
            sum == sum_errors(abs_errors@.take(i as int)),
            0 <= sum <= i * 0x1_0000_0000,
        decreases n - i,
    {
        proof {
            let t1 = abs_errors@.take(i as int + 1);
            assert(t1.drop_last() =~= abs_errors@.take(i as int));
            assert(t1.last() == abs_errors@[i as int]);
            assert(i * 0x1_0000_0000 + 0x1_0000_0000 == (i + 1) * 0x1_0000_0000)
                by (nonlinear_arith);
            assert((i + 1) * 0x1_0000_0000 <= 0x1_0000_0000_0000_0000_0000_0000int)
                by (nonlinear_arith)
                requires 0 <= i + 1 <= 0x1_0000_0000_0000_0000int;
        }
        sum = sum + abs_errors[i] as i128;
        i = i + 1;
    }
    proof {
        assert(abs_errors@.take(n as int) =~= abs_errors@);
        crate::numeric::lemma_mean_bound(sum as int, n as int, 0x1_0000_0000int);
    }
    let mean: i128 = crate::numeric::div_round_half_i128(sum, n as i128);
    let mean64: i64 = mean as i64;
    if mean64 >= MIN_TOLERANCE_TICKS {
        mean64
    } else {
        MIN_TOLERANCE_TICKS
    }
}

} // verus!
