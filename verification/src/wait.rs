//! Waiting for a prompt: the decisions of the polling loop, one turn at a
//! time. The caller captures the screen, reads the clock and sleeps; what
//! each turn leads to is decided here.

use vstd::prelude::*;
use crate::error::AutoConError;
use crate::grid::{normalized, GridCapture};
use crate::matcher::MatchScreenBuffer;
use crate::screen::{refreshed, ScreenBuffer, ScreenView};

verus! {

/// The pause between two polls, in milliseconds.
pub const POLL_INTERVAL_MILLIS: u64 = 100;

/// What one turn of the loop saw: the outcome of the capture, and then the
/// time since the wait began, in nanoseconds, where the clock could tell.
#[derive(Debug)]
pub struct Poll {
    pub capture: Result<GridCapture, AutoConError>,
    pub elapsed: Option<u128>,
}

/// What a wait keeps between two polls: its timeout, in nanoseconds, and the
/// failure of the latest capture that failed.
#[derive(Debug)]
pub struct Polling {
    pub timeout: u128,
    pub last_error: Option<AutoConError>,
}

/// Where a wait stands.
#[derive(Debug)]
pub enum Wait<T> {
    /// Nothing matched yet and time is left: pause, then poll again.
    Polling(Polling),
    /// The matcher found this: the wait has succeeded.
    Matched(T),
    /// Time ran out: the wait has failed for this reason.
    TimedOut(AutoConError),
}

impl Poll {
    /// Whether the clock showed the timeout as passed.
    pub open spec fn expired(self, timeout: u128) -> bool {
        self.elapsed is Some && self.elapsed->Some_0 > timeout
    }

    /// The failure of the capture, where it failed.
    pub open spec fn failure(self) -> Option<AutoConError> {
        match self.capture {
            Ok(_) => None,
            Err(error) => Some(error),
        }
    }

    /// What the matcher finds on the screen that this poll captured; nothing
    /// where the capture failed.
    pub open spec fn found<M: MatchScreenBuffer>(self, matcher: &M) -> Option<M::MatchResult> {
        match self.capture {
            Ok(grid) => matcher.matches(normalized(grid.cells@, grid.columns as int)),
            Err(_) => None,
        }
    }
}

impl Polling {
    /// The beginning of a wait of at most `timeout` nanoseconds: no capture
    /// has failed yet.
    pub open spec fn begin(timeout: u128) -> Polling {
        Polling { timeout, last_error: None }
    }

    /// The failure remembered after a turn: the turn's own where its capture
    /// failed, else the one remembered before.
    pub open spec fn remembered(self, failure: Option<AutoConError>) -> Option<AutoConError> {
        match failure {
            Some(error) => Some(error),
            None => self.last_error,
        }
    }

    /// Where the wait stands after a turn in which the capture failed with
    /// `failure`, or succeeded and the matcher found `found`, and in which the
    /// clock then showed `elapsed`. A match ends the wait at once, whatever
    /// the clock says. Without one, the wait ends once the timeout has
    /// passed, with the failure remembered or, where no capture ever failed,
    /// with `Timeout`. Otherwise it goes on.
    pub open spec fn after_turn<T>(
        self,
        failure: Option<AutoConError>,
        found: Option<T>,
        elapsed: Option<u128>,
    ) -> Wait<T> {
        match found {
            Some(found) => Wait::Matched(found),
            None => if elapsed is Some && elapsed->Some_0 > self.timeout {
                Wait::TimedOut(
                    match self.remembered(failure) {
                        Some(error) => error,
                        None => AutoConError::Timeout,
                    },
                )
            } else {
                Wait::Polling(
                    Polling { timeout: self.timeout, last_error: self.remembered(failure) },
                )
            },
        }
    }

    /// Where the wait stands after `poll`, with `matcher` looking at what was
    /// captured.
    pub open spec fn step<M: MatchScreenBuffer>(self, matcher: &M, poll: Poll) -> Wait<
        M::MatchResult,
    > {
        self.after_turn(poll.failure(), poll.found(matcher), poll.elapsed)
    }

    /// What the wait keeps after polls that neither matched nor ran out of
    /// time.
    pub open spec fn after(self, polls: Seq<Poll>) -> Polling
        decreases polls.len(),
    {
        if polls.len() == 0 {
            self
        } else {
            (Polling {
                timeout: self.timeout,
                last_error: self.remembered(polls.first().failure()),
            }).after(polls.drop_first())
        }
    }

    /// Where the wait stands after `polls`, taken in order. Polls that come
    /// after the wait has ended count for nothing.
    pub open spec fn run<M: MatchScreenBuffer>(self, matcher: &M, polls: Seq<Poll>) -> Wait<
        M::MatchResult,
    >
        decreases polls.len(),
    {
        if polls.len() == 0 {
            Wait::Polling(self)
        } else {
            match self.step(matcher, polls.first()) {
                Wait::Polling(next) => next.run(matcher, polls.drop_first()),
                ended => ended,
            }
        }
    }

    /// The beginning of a wait of at most `timeout` nanoseconds.
    pub fn new(timeout: u128) -> (polling: Self)
        ensures
            polling == Polling::begin(timeout),
    {
        Polling { timeout, last_error: None }
    }

    /// Decides where the wait stands after one turn: the capture failed with
    /// `failure`, or it succeeded and the matcher found `found`; then the
    /// clock showed `elapsed`.
    pub fn turn<T>(
        self,
        failure: Option<AutoConError>,
        found: Option<T>,
        elapsed: Option<u128>,
    ) -> (next: Wait<T>)
        ensures
            next == self.after_turn(failure, found, elapsed),
    {
        if let Some(found) = found {
            return Wait::Matched(found);
        }
        let last_error = match failure {
            Some(error) => Some(error),
            None => self.last_error,
        };
        if let Some(elapsed) = elapsed {
            if elapsed > self.timeout {
                return Wait::TimedOut(
                    match last_error {
                        Some(error) => error,
                        None => AutoConError::Timeout,
                    },
                );
            }
        }
        Wait::Polling(Polling { timeout: self.timeout, last_error })
    }
}

/// What the screen shows after `polls`, taken in order for as long as the wait
/// that begins with `polling` goes on.
pub open spec fn screen_after<M: MatchScreenBuffer>(
    screen: ScreenView,
    polling: Polling,
    matcher: &M,
    polls: Seq<Poll>,
) -> ScreenView
    decreases polls.len(),
{
    if polls.len() == 0 {
        screen
    } else {
        let shown = refreshed(screen, polls.first().capture);
        match polling.step(matcher, polls.first()) {
            Wait::Polling(next) => screen_after(shown, next, matcher, polls.drop_first()),
            _ => shown,
        }
    }
}

impl ScreenBuffer {
    /// One turn of a wait for what `matcher` looks for. The screen takes in the
    /// capture of `poll`; where that succeeded, the matcher sees the new
    /// content; only then the clock counts.
    pub fn wait_for<M: MatchScreenBuffer>(
        &mut self,
        polling: Polling,
        poll: Poll,
        matcher: &M,
    ) -> (next: Wait<M::MatchResult>)
        requires
            poll.capture is Ok ==> poll.capture->Ok_0.columns > 0,
        ensures
            next == polling.step(matcher, poll),
            final(self)@ == refreshed(old(self)@, poll.capture),
            final(self)@.cells.len() >= old(self)@.cells.len(),
    {
        let Poll { capture, elapsed } = poll;
        let (failure, found) = match self.refresh(capture) {
            Ok(_) => (None, matcher.match_screen_buffer(self.content())),
            Err(error) => (Some(error), None),
        };
        polling.turn(failure, found, elapsed)
    }

    /// Takes a wait through polls that are at hand already, as the replay of
    /// a recorded session does: turn after turn, until the wait ends or the
    /// polls run out.
    pub fn wait_through<M: MatchScreenBuffer>(
        &mut self,
        polling: Polling,
        polls: Vec<Poll>,
        matcher: &M,
    ) -> (next: Wait<M::MatchResult>)
        requires
            forall|i: int|
                0 <= i < polls@.len() && (#[trigger] polls@[i]).capture is Ok
                    ==> polls@[i].capture->Ok_0.columns > 0,
        ensures
            next == polling.run(matcher, polls@),
            final(self)@ == screen_after(old(self)@, polling, matcher, polls@),
    {
        let ghost all = polls@;
        let mut state = polling;
        assert(all.skip(0) =~= all);
        for poll in it: polls
            invariant
                it.seq() == all,
                forall|i: int|
                    0 <= i < all.len() && (#[trigger] all[i]).capture is Ok
                        ==> all[i].capture->Ok_0.columns > 0,
                polling.run(matcher, all) == state.run(matcher, all.skip(it.index())),
                screen_after(old(self)@, polling, matcher, all) == screen_after(
                    self@,
                    state,
                    matcher,
                    all.skip(it.index()),
                ),
        {
            proof {
                let rest = all.skip(it.index());
                assert(rest.first() == poll);
                assert(rest.drop_first() =~= all.skip(it.index() + 1));
                assert(all[it.index()] == poll);
            }
            match self.wait_for(state, poll, matcher) {
                Wait::Polling(next) => {
                    state = next;
                },
                ended => {
                    return ended;
                },
            }
        }
        proof {
            assert(all.skip(all.len() as int) =~= Seq::<Poll>::empty());
        }
        Wait::Polling(state)
    }
}

/// Whether `poll` leaves a wait going: the matcher finds nothing in it and the
/// timeout has not passed.
pub open spec fn goes_on<M: MatchScreenBuffer>(poll: Poll, timeout: u128, matcher: &M) -> bool {
    poll.found(matcher) is None && !poll.expired(timeout)
}

/// A capture that fails does not end a wait by itself: as long as the timeout
/// has not passed, the wait goes on and remembers the failure.
pub proof fn lemma_failure_alone_does_not_end_wait<M: MatchScreenBuffer>(
    polling: Polling,
    matcher: &M,
    poll: Poll,
)
    requires
        poll.capture is Err,
        !poll.expired(polling.timeout),
    ensures
        polling.step(matcher, poll) == Wait::<M::MatchResult>::Polling(
            (Polling { timeout: polling.timeout, last_error: Some(poll.capture->Err_0) }),
        ),
{
}

/// A wait goes on for as long as nothing matches and the timeout has not
/// passed, and keeps its timeout.
pub proof fn lemma_wait_goes_on<M: MatchScreenBuffer>(
    polling: Polling,
    matcher: &M,
    polls: Seq<Poll>,
)
    requires
        forall|i: int|
            0 <= i < polls.len() ==> goes_on(#[trigger] polls[i], polling.timeout, matcher),
    ensures
        polling.run(matcher, polls) == Wait::<M::MatchResult>::Polling(polling.after(polls)),
        polling.after(polls).timeout == polling.timeout,
    decreases polls.len(),
{
    if polls.len() > 0 {
        let next = Polling {
            timeout: polling.timeout,
            last_error: polling.remembered(polls.first().failure()),
        };
        assert(goes_on(polls[0], polling.timeout, matcher));
        assert forall|i: int| 0 <= i < polls.drop_first().len() implies goes_on(
            #[trigger] polls.drop_first()[i],
            next.timeout,
            matcher,
        ) by {
            assert(polls.drop_first()[i] == polls[i + 1]);
        }
        lemma_wait_goes_on(next, matcher, polls.drop_first());
    }
}

/// Captures that succeed leave the remembered failure as it was.
pub proof fn lemma_successes_remember_nothing(polling: Polling, polls: Seq<Poll>)
    requires
        forall|i: int| 0 <= i < polls.len() ==> (#[trigger] polls[i]).capture is Ok,
    ensures
        polling.after(polls) == polling,
    decreases polls.len(),
{
    if polls.len() > 0 {
        assert(polls[0].capture is Ok);
        assert forall|i: int| 0 <= i < polls.drop_first().len() implies (
        #[trigger] polls.drop_first()[i]).capture is Ok by {
            assert(polls.drop_first()[i] == polls[i + 1]);
        }
        lemma_successes_remember_nothing(polling, polls.drop_first());
    }
}

/// A wait ends at the first poll that matches or shows the timeout as
/// passed, with what that poll leads to; the polls behind it count for
/// nothing.
pub proof fn lemma_wait_ends_at<M: MatchScreenBuffer>(
    polling: Polling,
    matcher: &M,
    polls: Seq<Poll>,
    k: int,
)
    requires
        0 <= k < polls.len(),
        forall|i: int| 0 <= i < k ==> goes_on(#[trigger] polls[i], polling.timeout, matcher),
        !goes_on(polls[k], polling.timeout, matcher),
    ensures
        polling.run(matcher, polls) == polling.after(polls.take(k)).step(matcher, polls[k]),
        !(polling.run(matcher, polls) is Polling),
        polling.run(matcher, polls.take(k)) is Polling,
    decreases k,
{
    if k == 0 {
        assert(polls.take(0) =~= Seq::<Poll>::empty());
    } else {
        let next = Polling {
            timeout: polling.timeout,
            last_error: polling.remembered(polls.first().failure()),
        };
        let rest = polls.drop_first();
        assert(goes_on(polls[0], polling.timeout, matcher));
        assert forall|i: int| 0 <= i < k - 1 implies goes_on(
            #[trigger] rest[i],
            next.timeout,
            matcher,
        ) by {
            assert(rest[i] == polls[i + 1]);
        }
        assert(rest[k - 1] == polls[k]);
        lemma_wait_ends_at(next, matcher, rest, k - 1);
        assert(polls.take(k).drop_first() =~= rest.take(k - 1));
        assert(polls.take(k).first() == polls.first());
    }
}

/// With a matcher that never matches, a wait goes on until a poll shows the
/// timeout as passed, and ends there as timed out. Where every capture had
/// succeeded, the failure is `Timeout`.
pub proof fn lemma_no_match_times_out<M: MatchScreenBuffer>(
    timeout: u128,
    matcher: &M,
    polls: Seq<Poll>,
    k: int,
)
    requires
        forall|content: Seq<char>| (#[trigger] matcher.matches(content)) is None,
        0 <= k < polls.len(),
        forall|i: int| 0 <= i < k ==> !(#[trigger] polls[i]).expired(timeout),
        polls[k].expired(timeout),
    ensures
        Polling::begin(timeout).run(matcher, polls.take(k)) is Polling,
        Polling::begin(timeout).run(matcher, polls) is TimedOut,
        (forall|i: int| 0 <= i <= k ==> (#[trigger] polls[i]).capture is Ok) ==> Polling::begin(
            timeout,
        ).run(matcher, polls) == Wait::<M::MatchResult>::TimedOut(AutoConError::Timeout),
{
    let begin = Polling::begin(timeout);
    assert forall|i: int| 0 <= i < polls.len() implies (#[trigger] polls[i]).found(
        matcher,
    ) is None by {
        match polls[i].capture {
            Ok(grid) => {
                assert(matcher.matches(normalized(grid.cells@, grid.columns as int)) is None);
            },
            Err(_) => {},
        }
    }
    lemma_wait_ends_at(begin, matcher, polls, k);
    lemma_wait_goes_on(begin, matcher, polls.take(k));
    if forall|i: int| 0 <= i <= k ==> (#[trigger] polls[i]).capture is Ok {
        assert forall|i: int| 0 <= i < polls.take(k).len() implies (
        #[trigger] polls.take(k)[i]).capture is Ok by {
            assert(polls.take(k)[i] == polls[i]);
        }
        lemma_successes_remember_nothing(begin, polls.take(k));
    }
}

/// A wait whose captures fail until one succeeds and matches ends with that
/// match, whatever the clock shows then.
pub proof fn lemma_first_match_ends_wait<M: MatchScreenBuffer>(
    polling: Polling,
    matcher: &M,
    polls: Seq<Poll>,
    k: int,
    found: M::MatchResult,
)
    requires
        0 <= k < polls.len(),
        forall|i: int|
            0 <= i < k ==> (#[trigger] polls[i]).capture is Err && !polls[i].expired(
                polling.timeout,
            ),
        polls[k].capture is Ok,
        polls[k].found(matcher) == Some(found),
    ensures
        polling.run(matcher, polls) == Wait::Matched(found),
{
    lemma_wait_ends_at(polling, matcher, polls, k);
}

/// A wait whose every capture fails with one and the same error ends, once
/// the timeout has passed, with that error and not with `Timeout`.
pub proof fn lemma_failing_captures_end_with_their_error<M: MatchScreenBuffer>(
    polling: Polling,
    matcher: &M,
    polls: Seq<Poll>,
    k: int,
    error: AutoConError,
)
    requires
        0 <= k < polls.len(),
        forall|i: int| 0 <= i <= k ==> (#[trigger] polls[i]).capture == Err::<
            GridCapture,
            AutoConError,
        >(error),
        forall|i: int| 0 <= i < k ==> !(#[trigger] polls[i]).expired(polling.timeout),
        polls[k].expired(polling.timeout),
    ensures
        polling.run(matcher, polls) == Wait::<M::MatchResult>::TimedOut(error),
{
    lemma_wait_ends_at(polling, matcher, polls, k);
}

} // verus!
