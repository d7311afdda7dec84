//! What a running model is doing, sampled from its own `/metrics`.
//!
//! Anything rate-shaped needs two samples, so the last one is kept. What is
//! absent is not zero: without a second sample to hold against it, there is
//! no rate.
use vstd::prelude::*;

verus! {

/// Fetches what a served model exposes.
pub trait MetricsSource {
    /// Fetch `/metrics` from a model serving on this host. One that is still
    /// loading does not answer.
    fn scrape(&self, port: u16) -> Result<String, String>;
}

/// Beyond this, in nanoseconds, the previous sample is too old to hold
/// another against: a rate over a gap is an average over a time that nobody
/// watched.
pub const MAX_WINDOW: u64 = 60_000_000_000;

/// The sample that the next one is held against, and when it was taken.
#[derive(Debug)]
pub struct LaunchSampler<S> {
    pub last: Option<(u64, S)>,
}

/// The time between two samples, in nanoseconds, where a rate over it means
/// anything: some time has passed, and not too much.
pub open spec fn window(then: u64, now: u64) -> Option<u64> {
    if now > then && now - then <= MAX_WINDOW {
        Some((now - then) as u64)
    } else {
        None
    }
}

/// What happened to a sampler: a model was scraped at some time, with what
/// came of it, or the launch stopped and the sampler was reset.
pub type Happening<S> = Option<(u64, Result<S, String>)>;

/// What a sampler is after it was used once.
pub open spec fn turned<S>(a: LaunchSampler<S>, h: Happening<S>, b: LaunchSampler<S>) -> bool {
    match h {
        Some((now, Ok(s))) => b.last == Some((now, s)),
        Some((_, Err(_))) => b == a,
        None => b.last is None,
    }
}

impl<S> LaunchSampler<S> {
    /// One that has sampled nothing.
    pub fn new() -> (r: Self)
        ensures
            r.last is None,
    {
        LaunchSampler { last: None }
    }

    /// What a sample read at `now` may be held against: the sample before,
    /// and the time between.
    pub open spec fn held_against(self, now: u64) -> Option<(S, u64)> {
        match self.last {
            Some((then, previous)) => match window(then, now) {
                Some(w) => Some((previous, w)),
                None => None,
            },
            None => None,
        }
    }

    /// Take a sample, read at `now`, where the model answered. What it may be
    /// held against is handed back. A model that does not answer is an error,
    /// and the sample before stays for the next one.
    pub fn sample(&mut self, now: u64, scraped: Result<S, String>) -> (r: Result<
        Option<(S, u64)>,
        String,
    >)
        ensures
            turned(*old(self), Some((now, scraped)), *final(self)),
            r == (match scraped {
                Ok(_) => Ok::<Option<(S, u64)>, String>(old(self).held_against(now)),
                Err(e) => Err(e),
            }),
    {
        let current = match scraped {
            Ok(current) => current,
            Err(e) => return Err(e),
        };
        let before = self.last.take();
        self.last = Some((now, current));
        match before {
            Some((then, previous)) => if now > then && now - then <= MAX_WINDOW {
                Ok(Some((previous, now - then)))
            } else {
                Ok(None)
            },
            None => Ok(None),
        }
    }

    /// Forget the last sample, because the launch stopped: a later one on the
    /// same port must not be held against an engine that is gone.
    pub fn reset(&mut self)
        ensures
            turned(*old(self), None, *final(self)),
    {
        self.last = None;
    }
}

/// Law: a rate needs two samples that are close. A first sample has nothing
/// to be held against, nor has one after a reset, one at the same moment, or
/// one after too long.
pub proof fn law_a_rate_needs_two_close_samples(then: u64, now: u64)
    ensures
        window(then, now) matches Some(w) ==> 0 < w <= MAX_WINDOW && w == now - then,
        now <= then ==> window(then, now) is None,
        now > then + MAX_WINDOW ==> window(then, now) is None,
        window(then, now) is Some <==> then < now <= then + 60_000_000_000,
{
}

/// The latest that succeeded and was not forgotten: a scrape with nothing but
/// failures behind it.
pub open spec fn latest<S>(hs: Seq<Happening<S>>, i: int) -> bool {
    &&& 0 <= i < hs.len()
    &&& hs[i] matches Some((_, Ok(_)))
    &&& forall|j: int| i < j < hs.len() ==> (#[trigger] hs[j] matches Some((_, Err(_))))
}

/// Law: a sample is held against the latest one that succeeded since the
/// sampler was made or reset, where the time between allows it, and against
/// nothing else.
pub proof fn law_a_sample_is_held_against_the_latest<S>(
    states: Seq<LaunchSampler<S>>,
    hs: Seq<Happening<S>>,
    now: u64,
)
    requires
        states.len() == hs.len() + 1,
        states[0].last is None,
        forall|i: int| 0 <= i < hs.len() ==> turned(states[i], #[trigger] hs[i], states[i + 1]),
    ensures
        match states.last().held_against(now) {
            Some((s, w)) => exists|i: int, then: u64| #[trigger]
                latest(hs, i) && hs[i] == Some((then, Ok::<S, String>(s))) && #[trigger] window(
                    then,
                    now,
                ) == Some(w),
            None => forall|i: int| #[trigger]
                latest(hs, i) ==> window(hs[i].unwrap().0, now) is None,
        },
{
    lemma_latest(states, hs, hs.len() as int);
    assert(hs.subrange(0, hs.len() as int) =~= hs);
    assert(states.last() == states[hs.len() as int]);
    match states.last().last {
        Some((then, s)) => {
            let i = choose|i: int| #[trigger]
                latest(hs, i) && hs[i] == Some((then, Ok::<S, String>(s)));
            assert forall|k: int| #[trigger] latest(hs, k) implies k == i by {
                if k < i {
                    assert(hs[i] matches Some((_, Err(_))));
                }
                if i < k {
                    assert(hs[k] matches Some((_, Err(_))));
                }
            }
            match window(then, now) {
                Some(w) => {
                    assert(latest(hs, i) && window(then, now) == Some(w));
                },
                None => {},
            }
        },
        None => {},
    }
}

proof fn lemma_latest<S>(states: Seq<LaunchSampler<S>>, hs: Seq<Happening<S>>, n: int)
    requires
        states.len() == hs.len() + 1,
        states[0].last is None,
        0 <= n <= hs.len(),
        forall|i: int| 0 <= i < hs.len() ==> turned(states[i], #[trigger] hs[i], states[i + 1]),
    ensures
        match states[n].last {
            Some((then, s)) => exists|i: int| #[trigger]
                latest(hs.subrange(0, n), i) && hs.subrange(0, n)[i] == Some(
                    (then, Ok::<S, String>(s)),
                ),
            None => forall|i: int| !#[trigger] latest(hs.subrange(0, n), i),
        },
    decreases n,
{
    if n > 0 {
        lemma_latest(states, hs, n - 1);
        let old_hs = hs.subrange(0, n - 1);
        let new_hs = hs.subrange(0, n);
        let h = hs[n - 1];
        assert(turned(states[n - 1], h, states[n]));
        assert(new_hs[n - 1] == h);
        match h {
            Some((now, Ok(s))) => {
                assert(latest(new_hs, n - 1));
            },
            Some((_, Err(_))) => {
                assert forall|i: int| #[trigger] latest(new_hs, i) implies latest(old_hs, i) by {
                    assert(i < n - 1);
                    assert(old_hs[i] == new_hs[i]);
                    assert forall|j: int| i < j < old_hs.len() implies (
                    #[trigger] old_hs[j] matches Some((_, Err(_)))) by {
                        assert(new_hs[j] matches Some((_, Err(_))));
                    }
                }
                match states[n - 1].last {
                    Some((then, s)) => {
                        let i = choose|i: int| #[trigger]
                            latest(old_hs, i) && old_hs[i] == Some((then, Ok::<S, String>(s)));
                        assert(new_hs[i] == old_hs[i]);
                        assert forall|j: int| i < j < new_hs.len() implies (
                        #[trigger] new_hs[j] matches Some((_, Err(_)))) by {
                            if j < n - 1 {
                                assert(old_hs[j] matches Some((_, Err(_))));
                            }
                        }
                        assert(latest(new_hs, i));
                    },
                    None => {},
                }
            },
            None => {
                assert forall|i: int| !#[trigger] latest(new_hs, i) by {
                    if latest(new_hs, i) && i < n - 1 {
                        assert(new_hs[n - 1] matches Some((_, Err(_))));
                    }
                }
            },
        }
    }
}

} // verus!
