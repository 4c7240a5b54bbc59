//! Waiting for a new instance to become healthy.

use vstd::prelude::*;

verus! {

/// How often a new instance is checked when the service scales up.
pub const SCALE_UP_CHECKS: u32 = 10;

/// How long to pause after a failed check, in milliseconds.
pub const PAUSE_MS: u64 = 500;

/// What to do next while waiting.
#[derive(Debug, Clone, Copy, PartialEq, Eq, Structural)]
pub enum WaitStep {
    /// Check the health of the instance.
    Check,
    /// Pause for [`PAUSE_MS`].
    Pause,
    /// Stop waiting: the instance is healthy.
    Ready,
    /// Stop waiting: the checks are used up.
    GiveUp,
}

/// The state of a wait.
#[verifier::ext_equal]
pub struct WaitView {
    pub step: WaitStep,
    /// Checks that may still be made; `None` if there is no limit.
    pub left: Option<nat>,
}

impl WaitView {
    /// A wait of at most `limit` checks begins; of any number, if there is none.
    pub open spec fn begun(limit: Option<nat>) -> WaitView {
        WaitView {
            step: if limit == Some(0nat) {
                WaitStep::GiveUp
            } else {
                WaitStep::Check
            },
            left: limit,
        }
    }

    /// Whether nothing is waited for any more.
    pub open spec fn is_over(self) -> bool {
        self.step == WaitStep::Ready || self.step == WaitStep::GiveUp
    }

    /// A check has been made.
    pub open spec fn after_check(self, healthy: bool) -> WaitView {
        if self.step != WaitStep::Check {
            self
        } else if healthy {
            WaitView { step: WaitStep::Ready, ..self }
        } else {
            WaitView {
                step: WaitStep::Pause,
                left: match self.left {
                    Some(left) => Some((left - 1) as nat),
                    None => None,
                },
            }
        }
    }

    /// A pause is over.
    pub open spec fn after_pause(self) -> WaitView {
        if self.step != WaitStep::Pause {
            self
        } else if self.left == Some(0nat) {
            WaitView { step: WaitStep::GiveUp, ..self }
        } else {
            WaitView { step: WaitStep::Check, ..self }
        }
    }

    /// `rounds` checks have failed in a row, each followed by its pause.
    pub open spec fn after_failures(self, rounds: nat) -> WaitView
        decreases rounds,
    {
        if rounds == 0 {
            self
        } else {
            self.after_failures((rounds - 1) as nat).after_check(false).after_pause()
        }
    }
}

/// A wait for one instance: check, and pause after every check that fails, until
/// a check succeeds or the checks are used up.
#[derive(Debug)]
pub struct HealthWait {
    step: WaitStep,
    left: Option<u32>,
}

impl View for HealthWait {
    type V = WaitView;

    closed spec fn view(&self) -> WaitView {
        WaitView {
            step: self.step,
            left: match self.left {
                Some(left) => Some(left as nat),
                None => None,
            },
        }
    }
}

impl HealthWait {
    #[verifier::type_invariant]
    spec fn has_checks_left(self) -> bool {
        self.step == WaitStep::Check ==> self.left != Some(0u32)
    }

    /// Begins a wait of at most `limit` checks.
    pub fn new(limit: u32) -> (wait: HealthWait)
        ensures
            wait@ == WaitView::begun(Some(limit as nat)),
    {
        let step: WaitStep = if limit > 0 { WaitStep::Check } else { WaitStep::GiveUp };
        HealthWait { step, left: Some(limit) }
    }

    /// Begins a wait that ends only when the instance is healthy.
    pub fn until_healthy() -> (wait: HealthWait)
        ensures
            wait@ == WaitView::begun(None),
    {
        HealthWait { step: WaitStep::Check, left: None }
    }

    /// What to do next.
    pub fn step(&self) -> (step: WaitStep)
        ensures
            step == self@.step,
    {
        self.step
    }

    /// Takes in the outcome of a check.
    pub fn checked(self, healthy: bool) -> (wait: HealthWait)
        ensures
            wait@ == self@.after_check(healthy),
    {
        proof {
            use_type_invariant(&self);
        }
        if self.step != WaitStep::Check {
            self
        } else if healthy {
            HealthWait { step: WaitStep::Ready, left: self.left }
        } else {
            let left: Option<u32> = match self.left {
                Some(left) => Some(left - 1),
                None => None,
            };
            HealthWait { step: WaitStep::Pause, left }
        }
    }

    /// Takes in the end of a pause.
    pub fn paused(self) -> (wait: HealthWait)
        ensures
            wait@ == self@.after_pause(),
    {
        if self.step != WaitStep::Pause {
            return self;
        }
        let step: WaitStep = match self.left {
            Some(0) => WaitStep::GiveUp,
            _ => WaitStep::Check,
        };
        HealthWait { step, left: self.left }
    }
}

/// A wait with a limit is bounded: while fewer checks than the limit have failed,
/// the next step is a check; after as many failures as the limit, the wait is
/// given up.
pub proof fn law_wait_is_bounded(limit: nat, rounds: nat)
    requires
        rounds <= limit,
    ensures
        WaitView::begun(Some(limit)).after_failures(rounds).left == Some((limit - rounds) as nat),
        WaitView::begun(Some(limit)).after_failures(rounds).step == if rounds < limit {
            WaitStep::Check
        } else {
            WaitStep::GiveUp
        },
    decreases rounds,
{
    if rounds > 0 {
        law_wait_is_bounded(limit, (rounds - 1) as nat);
    }
}

/// A wait without a limit goes on: after any number of failures the next step is
/// another check.
pub proof fn law_unlimited_wait_goes_on(rounds: nat)
    ensures
        WaitView::begun(None).after_failures(rounds) == WaitView::begun(None),
    decreases rounds,
{
    if rounds > 0 {
        law_unlimited_wait_goes_on((rounds - 1) as nat);
    }
}

/// A wait without a limit is never given up: it is over only when the instance is
/// healthy, and stays a wait without a limit.
pub proof fn law_unlimited_wait_ends_healthy(wait: WaitView, healthy: bool)
    requires
        wait.left is None,
        wait.step != WaitStep::GiveUp,
    ensures
        wait.is_over() <==> wait.step == WaitStep::Ready,
        wait.after_check(healthy).left is None,
        wait.after_check(healthy).step != WaitStep::GiveUp,
        wait.after_pause().left is None,
        wait.after_pause().step != WaitStep::GiveUp,
{
}

/// A healthy answer ends the wait at once, after any number of failures below
/// the limit, and after any number at all if there is none.
pub proof fn law_healthy_answer_ends_wait(limit: Option<nat>, rounds: nat)
    requires
        limit matches Some(limit) ==> rounds < limit,
    ensures
        WaitView::begun(limit).after_failures(rounds).after_check(true).step == WaitStep::Ready,
{
    match limit {
        Some(limit) => law_wait_is_bounded(limit, rounds),
        None => law_unlimited_wait_goes_on(rounds),
    }
}

/// A finished wait stays finished.
pub proof fn law_finished_wait_stays_finished(wait: WaitView, healthy: bool)
    requires
        wait.is_over(),
    ensures
        wait.after_check(healthy) == wait,
        wait.after_pause() == wait,
{
}

/// How a wait goes, step by step: it begins with a check unless none is allowed; a
/// healthy answer ends it; a failed check is followed by a pause and takes one off
/// the checks that are left; a pause is followed by a check unless none is left; and
/// nothing else changes it.
pub proof fn law_wait_step_by_step(wait: WaitView, limit: nat, healthy: bool)
    ensures
        WaitView::begun(None).step == WaitStep::Check,
        WaitView::begun(None).left is None,
        WaitView::begun(Some(limit)).left == Some(limit),
        WaitView::begun(Some(limit)).step == WaitStep::Check <==> limit > 0,
        WaitView::begun(Some(limit)).step == WaitStep::GiveUp <==> limit == 0,
        wait.step == WaitStep::Check ==> {
            &&& wait.after_check(true).step == WaitStep::Ready
            &&& wait.after_check(false).step == WaitStep::Pause
            &&& wait.left is None ==> wait.after_check(healthy).left is None
            &&& wait.left is Some && wait.left->Some_0 > 0 ==> wait.after_check(false).left
                == Some((wait.left->Some_0 - 1) as nat)
        },
        wait.step != WaitStep::Check ==> wait.after_check(healthy) == wait,
        wait.step == WaitStep::Pause ==> {
            &&& wait.after_pause().left == wait.left
            &&& wait.after_pause().step == WaitStep::GiveUp <==> wait.left == Some(0nat)
            &&& wait.after_pause().step == WaitStep::Check <==> wait.left != Some(0nat)
        },
        wait.step != WaitStep::Pause ==> wait.after_pause() == wait,
        wait.is_over() <==> wait.step == WaitStep::Ready || wait.step == WaitStep::GiveUp,
{
}

/// What the operations on a wait return is what these steps say.
pub proof fn law_waiting_follows_the_steps(
    wait: HealthWait,
    healthy: bool,
    checked: HealthWait,
    paused: HealthWait,
    step: WaitStep,
)
    requires
        call_ensures(HealthWait::checked, (wait, healthy), checked),
        call_ensures(HealthWait::paused, (wait,), paused),
        call_ensures(HealthWait::step, (&wait,), step),
    ensures
        step == wait@.step,
        step == WaitStep::Check ==> checked@.step == if healthy {
            WaitStep::Ready
        } else {
            WaitStep::Pause
        },
        step != WaitStep::Check ==> checked@ == wait@,
        step != WaitStep::Pause ==> paused@ == wait@,
        step == WaitStep::Pause && wait@.left is None ==> paused@.step == WaitStep::Check,
        step == WaitStep::Pause && wait@.left is Some ==> paused@.step == if wait@.left->Some_0
            == 0 {
            WaitStep::GiveUp
        } else {
            WaitStep::Check
        },
{
}

/// Waits begin as they are asked for: with so many checks, or without a limit.
pub proof fn law_how_waits_begin(limit: u32, limited: HealthWait, unlimited: HealthWait)
    requires
        call_ensures(HealthWait::new, (limit,), limited),
        call_ensures(HealthWait::until_healthy, (), unlimited),
    ensures
        limited@.left == Some(limit as nat),
        limited@.step == if limit > 0 {
            WaitStep::Check
        } else {
            WaitStep::GiveUp
        },
        unlimited@.left is None,
        unlimited@.step == WaitStep::Check,
{
}

} // verus!
