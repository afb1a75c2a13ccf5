use std::collections::VecDeque;
use std::time::Duration;
use std::time::Instant;
use vstd::prelude::*;

verus! {

/// `std::time::Instant`, a moment on the monotonic clock. Nothing is known of
/// what it holds.
#[verifier::external_type_specification]
#[verifier::external_body]
pub struct ExInstant(std::time::Instant);

/// `Instant::now` reads the clock: nothing is claimed of the moment it gives.
pub assume_specification[ Instant::now ]() -> (now: Instant)
;

/// `Instant::elapsed` gives the time that has passed since the moment was
/// taken: nothing is claimed of its length.
pub assume_specification[ Instant::elapsed ](start: &Instant) -> (passed: Duration)
;

/// `Duration::as_millis` gives the whole milliseconds of a duration: nothing
/// is claimed of their number.
pub assume_specification[ Duration::as_millis ](passed: &Duration) -> (millis: u128)
;

/// What a counter holds: the frame times it remembers, oldest first, and how
/// many it is to remember.
pub struct Window {
    pub span: nat,
    pub samples: Seq<u128>,
}

/// The frame times after one more frame took `millis` milliseconds: the oldest
/// time makes room once `span` times are held.
pub open spec fn recorded(samples: Seq<u128>, span: nat, millis: u128) -> Seq<u128> {
    if samples.len() > 0 && samples.len() >= span {
        samples.skip(1).push(millis)
    } else {
        samples.push(millis)
    }
}

/// The most frame times a counter of `span` holds: one at least.
pub open spec fn capacity(span: nat) -> nat {
    if span == 0 {
        1
    } else {
        span
    }
}

/// The sum of the frame times.
pub open spec fn total(samples: Seq<u128>) -> int
    decreases samples.len(),
{
    if samples.len() == 0 {
        0
    } else {
        total(samples.drop_last()) + samples.last()
    }
}

/// The first frame times never add up to more than all of them.
pub proof fn lemma_total_grows(samples: Seq<u128>, n: int)
    requires
        0 <= n <= samples.len(),
    ensures
        0 <= total(samples.take(n)) <= total(samples),
    decreases samples.len() - n,
{
    if n == samples.len() {
        assert(samples.take(n) =~= samples);
        lemma_total_not_negative(samples);
    } else {
        lemma_total_grows(samples, n + 1);
        assert(samples.take(n + 1).drop_last() =~= samples.take(n));
        lemma_total_not_negative(samples.take(n));
    }
}

/// Frame times add up to no less than nothing.
pub proof fn lemma_total_not_negative(samples: Seq<u128>)
    ensures
        0 <= total(samples),
    decreases samples.len(),
{
    if samples.len() > 0 {
        lemma_total_not_negative(samples.drop_last());
    }
}

/// Keeps the times of the last frames, to tell how many frames a second are
/// drawn.
pub struct FpsCounter {
    previous: Instant,
    times: VecDeque<u128>,
    span: usize,
}

impl View for FpsCounter {
    type V = Window;

    closed spec fn view(&self) -> Window {
        Window { span: self.span as nat, samples: self.times@ }
    }
}

impl FpsCounter {
    /// The counter holds no more frame times than it is to remember. Every
    /// counter that `new` made is bounded, and stays so.
    pub open spec fn bounded(&self) -> bool {
        self@.samples.len() <= capacity(self@.span)
    }

    /// A counter that remembers the last `span` frame times and starts its
    /// clock now.
    pub fn new(span: usize) -> (counter: FpsCounter)
        ensures
            counter@.span == span,
            counter@.samples == Seq::<u128>::empty(),
            counter.bounded(),
    {
        FpsCounter { previous: Instant::now(), times: VecDeque::with_capacity(span), span }
    }

    /// Starts the clock anew; the frame times stay.
    pub fn restart(&mut self)
        ensures
            final(self)@ == old(self)@,
    {
        self.previous = Instant::now();
    }

    /// Takes the time since the clock was last started as the time of one more
    /// frame, and starts the clock anew.
    pub fn update(&mut self)
        ensures
            final(self)@.span == old(self)@.span,
            final(self)@.samples.len() > 0,
            final(self)@.samples == recorded(
                old(self)@.samples,
                old(self)@.span,
                final(self)@.samples.last(),
            ),
            old(self).bounded() ==> final(self).bounded(),
    {
        let passed = self.previous.elapsed();
        let millis = passed.as_millis();
        self.record(millis);
        self.previous = Instant::now();
    }

    /// Adds the time of one more frame. Once `span` times are held, the oldest
    /// makes room for it.
    pub fn record(&mut self, millis: u128)
        ensures
            final(self)@.span == old(self)@.span,
            final(self)@.samples == recorded(old(self)@.samples, old(self)@.span, millis),
            old(self).bounded() ==> final(self).bounded(),
    {
        if self.times.len() >= self.span {
            self.times.pop_front();
        }
        self.times.push_back(millis);
    }

    /// How many frame times are held.
    pub fn len(&self) -> (n: usize)
        ensures
            n == self@.samples.len(),
    {
        self.times.len()
    }

    /// The sum of the frame times held, in milliseconds, unless it is more than
    /// a `u128` holds.
    pub fn total_millis(&self) -> (sum: Option<u128>)
        ensures
            sum == if total(self@.samples) <= u128::MAX {
                Some(total(self@.samples) as u128)
            } else {
                None
            },
    {
        let mut acc: u128 = 0;
        let mut i: usize = 0;
        while i < self.times.len()
            invariant
                i <= self.times@.len(),
                acc == total(self.times@.take(i as int)),
            decreases self.times@.len() - i,
        {
            let t = self.times[i];
            proof {
                assert(self.times@.take(i + 1).drop_last() =~= self.times@.take(i as int));
                lemma_total_grows(self.times@, i + 1);
            }
            if t > u128::MAX - acc {
                return None;
            }
            acc = acc + t;
            i += 1;
        }
        proof {
            assert(self.times@.take(i as int) =~= self.times@);
        }
        Some(acc)
    }
}

} // verus!
