//! Limiting how often requests are served.
use vstd::hash_map::StringHashMap;
use vstd::prelude::*;

verus! {

/// The length of the window in which requests are counted: a minute, in
/// nanoseconds.
pub const RATE_WINDOW_NANOS: u64 = 60000000000;

/// How many requests are served in a window.
pub const RATE_MAX_HITS: usize = 90;

/// How long ago a time is; a later time counts as now.
pub open spec fn age(now: u64, time: u64) -> int {
    if time <= now {
        now - time
    } else {
        0
    }
}

/// The kind of times that lie in the window that ends now.
pub open spec fn recent(now: u64) -> spec_fn(u64) -> bool {
    |time: u64| age(now, time) < RATE_WINDOW_NANOS
}

/// The times that are counted after a request: those before it that lie in the
/// window, and its own.
pub open spec fn counted(times: Seq<u64>, now: u64) -> Seq<u64> {
    times.filter(recent(now)).push(now)
}

/// The times of the requests of each key, as far as they are counted.
pub struct RateLimiter {
    times: StringHashMap<Vec<u64>>,
}

impl View for RateLimiter {
    type V = Map<Seq<char>, Seq<u64>>;

    closed spec fn view(&self) -> Map<Seq<char>, Seq<u64>> {
        self.times@.map_values(|v: Vec<u64>| v@)
    }
}

/// The times that are counted of a key.
pub open spec fn times_of(limiter: Map<Seq<char>, Seq<u64>>, key: Seq<char>) -> Seq<u64> {
    if limiter.contains_key(key) {
        limiter[key]
    } else {
        Seq::empty()
    }
}

fn is_recent(now: u64, time: u64) -> (r: bool)
    ensures
        r == recent(now)(time),
{
    time > now || now - time < RATE_WINDOW_NANOS
}

impl RateLimiter {
    /// No requests.
    pub fn new() -> (r: RateLimiter)
        ensures
            r@ == Map::<Seq<char>, Seq<u64>>::empty(),
    {
        let r = RateLimiter { times: StringHashMap::new() };
        proof {
            assert(r@ =~= Map::empty());
        }
        r
    }

    /// Counts a request, and says whether it is served.
    pub fn rate_limit(&mut self, key: &str, now: u64) -> (r: bool)
        ensures
            final(self)@ == old(self)@.insert(key@, counted(times_of(old(self)@, key@), now)),
            r == (counted(times_of(old(self)@, key@), now).len() <= RATE_MAX_HITS),
    {
        let ghost before = self@;
        let ghost held = times_of(before, key@);
        let ghost kind = recent(now);
        let mut kept: Vec<u64> = Vec::new();
        if let Some(list) = self.times.get(key) {
            let mut i: usize = 0;
            proof {
                reveal(Seq::filter);
                assert(kept@ =~= held.take(0).filter(kind));
            }
            while i < list.len()
                invariant
                    i <= list@.len(),
                    held == list@,
                    kind == recent(now),
                    kept@ == held.take(i as int).filter(kind),
                decreases list@.len() - i,
            {
                proof {
                    reveal(Seq::filter);
                    assert(held.take(i + 1).drop_last() =~= held.take(i as int));
                    assert(held.take(i + 1).last() == list@[i as int]);
                }
                if is_recent(now, list[i]) {
                    kept.push(list[i]);
                }
                i += 1;
            }
            proof {
                assert(held.take(held.len() as int) =~= held);
            }
        } else {
            proof {
                reveal(Seq::filter);
                assert(kept@ =~= held.filter(kind));
            }
        }
        kept.push(now);
        let served = kept.len() <= RATE_MAX_HITS;
        self.times.insert(key.to_owned(), kept);
        proof {
            assert(self@ =~= before.insert(key@, counted(held, now)));
        }
        served
    }
}

/// The times that are counted after requests at these times.
pub open spec fn counted_run(times: Seq<u64>) -> Seq<u64>
    decreases times.len(),
{
    if times.len() == 0 {
        Seq::empty()
    } else {
        counted(counted_run(times.drop_last()), times.last())
    }
}

/// Whether times do not go back.
pub open spec fn forward(times: Seq<u64>) -> bool {
    forall|i: int, j: int| 0 <= i <= j < times.len() ==> #[trigger] times[i] <= #[trigger] times[j]
}

/// What a later window holds of an earlier one is what the later window holds.
proof fn lemma_filter_again(times: Seq<u64>, first: u64, second: u64)
    requires
        first <= second,
        forall|i: int| 0 <= i < times.len() ==> #[trigger] times[i] <= first,
    ensures
        times.filter(recent(first)).filter(recent(second)) == times.filter(recent(second)),
    decreases times.len(),
{
    reveal(Seq::filter);
    if times.len() > 0 {
        let init = times.drop_last();
        assert forall|i: int| 0 <= i < init.len() implies #[trigger] init[i] <= first by {
            assert(init[i] == times[i]);
        }
        lemma_filter_again(init, first, second);
        let last = times.last();
        assert(times[times.len() - 1] <= first);
        let f = init.filter(recent(first));
        if recent(first)(last) {
            assert(f.push(last).drop_last() =~= f);
        }
    } else {
        assert(times.filter(recent(first)).filter(recent(second)) =~= times.filter(recent(second)));
    }
}

/// While the clock does not go back, the times that are counted are those of
/// all requests in the window that ends with the last one, served or not. So a
/// request is served if and only if no more than the limit came in the window
/// that it ends.
pub proof fn law_window_counts_all_requests(times: Seq<u64>)
    requires
        times.len() > 0,
        forward(times),
    ensures
        counted_run(times) == times.filter(recent(times.last())),
    decreases times.len(),
{
    reveal(Seq::filter);
    let init = times.drop_last();
    let last = times.last();
    assert(recent(last)(last));
    if init.len() == 0 {
        assert(counted_run(init) =~= Seq::empty());
        assert(Seq::<u64>::empty().filter(recent(last)) =~= Seq::empty());
        assert(init.filter(recent(last)) =~= Seq::empty());
    } else {
        assert(forward(init)) by {
            assert forall|i: int, j: int| 0 <= i <= j < init.len() implies #[trigger] init[i] <= #[trigger] init[j] by {
                assert(times[i] <= times[j]);
            }
        }
        law_window_counts_all_requests(init);
        let n = times.len() as int;
        assert(times[n - 2] <= times[n - 1]);
        assert forall|i: int| 0 <= i < init.len() implies #[trigger] init[i] <= init.last() by {
            assert(times[i] <= times[n - 2]);
        }
        lemma_filter_again(init, init.last(), last);
    }
}

} // verus!
