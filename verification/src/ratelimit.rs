//! A fixed-window rate limiter keyed by an arbitrary string, such as a client
//! address. Time is passed in, so what it decides is a function of its inputs.
use vstd::hash_map::StringHashMap;
use vstd::prelude::*;

verus! {

/// The events counted for one key: since when, and how many.
#[derive(Clone, Copy, Debug)]
pub struct Window {
    pub start_ms: u64,
    pub count: u32,
}

/// The window in force at `now_ms`: a new one where there is none or the old
/// one has run its time.
pub open spec fn window_at(
    windows: Map<Seq<char>, Window>,
    window_ms: u64,
    key: Seq<char>,
    now_ms: u64,
) -> Window {
    if windows.contains_key(key) && 0 < window_ms && now_ms - windows[key].start_ms < window_ms {
        windows[key]
    } else {
        Window { start_ms: now_ms, count: 0 }
    }
}

/// Allows at most `max` events per `window_ms` milliseconds for each key.
pub struct RateLimiter {
    window_ms: u64,
    max: u32,
    windows: StringHashMap<Window>,
}

impl View for RateLimiter {
    type V = Map<Seq<char>, Window>;

    closed spec fn view(&self) -> Map<Seq<char>, Window> {
        self.windows@
    }
}

impl RateLimiter {
    /// The length of a window in milliseconds.
    pub closed spec fn window(&self) -> u64 {
        self.window_ms
    }

    /// The most events allowed in a window.
    pub closed spec fn limit(&self) -> u32 {
        self.max
    }

    /// A limiter that allows `max` events per `window_ms` for each key.
    pub fn new(window_ms: u64, max: u32) -> (r: RateLimiter)
        ensures
            r@ == Map::<Seq<char>, Window>::empty(),
            r.window() == window_ms,
            r.limit() == max,
    {
        RateLimiter { window_ms, max, windows: StringHashMap::new() }
    }

    /// Records an event for `key` at `now_ms`; `true` where it is within the
    /// limit, `false` where the limit of the current window is exceeded.
    pub fn check(&mut self, key: &str, now_ms: u64) -> (r: bool)
        ensures
            final(self).window() == old(self).window(),
            final(self).limit() == old(self).limit(),
            checked(
                old(self)@,
                final(self)@,
                old(self).window(),
                old(self).limit(),
                key@,
                now_ms,
                r,
            ),
    {
        let current = match self.windows.get(key) {
            Some(w) => *w,
            None => Window { start_ms: now_ms, count: 0 },
        };
        let elapsed: u64 = if now_ms >= current.start_ms {
            now_ms - current.start_ms
        } else {
            0
        };
        let window = if elapsed >= self.window_ms {
            Window { start_ms: now_ms, count: 0 }
        } else {
            current
        };
        if window.count < self.max {
            self.windows.insert(
                key.to_owned(),
                Window { start_ms: window.start_ms, count: window.count + 1 },
            );
            true
        } else {
            self.windows.insert(key.to_owned(), window);
            false
        }
    }
}

/// One event: it counts in the window in force, and is allowed while that has
/// room.
pub open spec fn checked(
    before: Map<Seq<char>, Window>,
    after: Map<Seq<char>, Window>,
    window_ms: u64,
    max: u32,
    key: Seq<char>,
    now_ms: u64,
    allowed: bool,
) -> bool {
    let window = window_at(before, window_ms, key, now_ms);
    &&& allowed == (window.count < max)
    &&& after == before.insert(
        key,
        if allowed {
            Window { start_ms: window.start_ms, count: (window.count + 1) as u32 }
        } else {
            window
        },
    )
}

/// Keys do not influence each other: an event for one leaves every other as it
/// was.
pub proof fn law_keys_are_independent(
    before: Map<Seq<char>, Window>,
    after: Map<Seq<char>, Window>,
    window_ms: u64,
    max: u32,
    key: Seq<char>,
    now_ms: u64,
    allowed: bool,
    other: Seq<char>,
    later_ms: u64,
)
    requires
        checked(before, after, window_ms, max, key, now_ms, allowed),
        other != key,
    ensures
        after.contains_key(other) == before.contains_key(other),
        window_at(after, window_ms, other, later_ms) == window_at(
            before,
            window_ms,
            other,
            later_ms,
        ),
{
}

/// No window counts more events than the limit.
pub open spec fn within_limit(windows: Map<Seq<char>, Window>, max: u32) -> bool {
    forall|k: Seq<char>| #[trigger] windows.contains_key(k) ==> windows[k].count <= max
}

/// However many events come, no window ever counts more than the limit, and
/// what is allowed is exactly what is counted.
pub proof fn law_limit_holds(
    before: Map<Seq<char>, Window>,
    after: Map<Seq<char>, Window>,
    window_ms: u64,
    max: u32,
    key: Seq<char>,
    now_ms: u64,
    allowed: bool,
)
    requires
        within_limit(before, max),
        checked(before, after, window_ms, max, key, now_ms, allowed),
    ensures
        within_limit(after, max),
        after[key].count == window_at(before, window_ms, key, now_ms).count + if allowed {
            1int
        } else {
            0int
        },
{
}

/// Once a window has run its time, an event is allowed again, whatever came
/// before.
pub proof fn law_window_resets(
    before: Map<Seq<char>, Window>,
    after: Map<Seq<char>, Window>,
    window_ms: u64,
    max: u32,
    key: Seq<char>,
    now_ms: u64,
    allowed: bool,
)
    requires
        checked(before, after, window_ms, max, key, now_ms, allowed),
        before.contains_key(key) ==> now_ms >= before[key].start_ms + window_ms,
        max > 0,
    ensures
        allowed,
        after[key] == (Window { start_ms: now_ms, count: 1 }),
{
}

/// Whether an event is within the limit.
pub open spec fn allows(
    windows: Map<Seq<char>, Window>,
    window_ms: u64,
    max: u32,
    key: Seq<char>,
    now_ms: u64,
) -> bool {
    window_at(windows, window_ms, key, now_ms).count < max
}

/// The windows after one event.
pub open spec fn counted(
    windows: Map<Seq<char>, Window>,
    window_ms: u64,
    max: u32,
    key: Seq<char>,
    now_ms: u64,
) -> Map<Seq<char>, Window> {
    let window = window_at(windows, window_ms, key, now_ms);
    windows.insert(
        key,
        if window.count < max {
            Window { start_ms: window.start_ms, count: (window.count + 1) as u32 }
        } else {
            window
        },
    )
}

/// The windows of a new limiter after a sequence of events, each a key and a
/// time.
pub open spec fn windows_after(window_ms: u64, max: u32, events: Seq<(Seq<char>, u64)>) -> Map<
    Seq<char>,
    Window,
>
    decreases events.len(),
{
    if events.len() == 0 {
        Map::empty()
    } else {
        counted(
            windows_after(window_ms, max, events.drop_last()),
            window_ms,
            max,
            events.last().0,
            events.last().1,
        )
    }
}

/// What a new limiter returns for each of a sequence of events.
pub open spec fn results(window_ms: u64, max: u32, events: Seq<(Seq<char>, u64)>) -> Seq<bool>
    decreases events.len(),
{
    if events.len() == 0 {
        Seq::empty()
    } else {
        results(window_ms, max, events.drop_last()).push(
            allows(
                windows_after(window_ms, max, events.drop_last()),
                window_ms,
                max,
                events.last().0,
                events.last().1,
            ),
        )
    }
}

/// The events of one key.
pub open spec fn events_of(key: Seq<char>, events: Seq<(Seq<char>, u64)>) -> Seq<
    (Seq<char>, u64),
>
    decreases events.len(),
{
    if events.len() == 0 {
        Seq::empty()
    } else if events.last().0 == key {
        events_of(key, events.drop_last()).push(events.last())
    } else {
        events_of(key, events.drop_last())
    }
}

/// What a new limiter returns for the events of one key among others.
pub open spec fn results_of(
    key: Seq<char>,
    window_ms: u64,
    max: u32,
    events: Seq<(Seq<char>, u64)>,
) -> Seq<bool>
    decreases events.len(),
{
    if events.len() == 0 {
        Seq::empty()
    } else if events.last().0 == key {
        results_of(key, window_ms, max, events.drop_last()).push(
            results(window_ms, max, events).last(),
        )
    } else {
        results_of(key, window_ms, max, events.drop_last())
    }
}

/// One call of [`RateLimiter::check`] behind a sequence of calls on a new
/// limiter: it returns what the sequence with it says, and leaves the windows
/// that the sequence with it leaves.
pub proof fn law_calls_make_a_sequence(
    window_ms: u64,
    max: u32,
    events: Seq<(Seq<char>, u64)>,
    after: Map<Seq<char>, Window>,
    key: Seq<char>,
    now_ms: u64,
    allowed: bool,
)
    requires
        checked(
            windows_after(window_ms, max, events),
            after,
            window_ms,
            max,
            key,
            now_ms,
            allowed,
        ),
    ensures
        after == windows_after(window_ms, max, events.push((key, now_ms))),
        results(window_ms, max, events.push((key, now_ms))) == results(
            window_ms,
            max,
            events,
        ).push(allowed),
{
    assert(events.push((key, now_ms)).drop_last() =~= events);
}

proof fn lemma_key_alone(
    key: Seq<char>,
    window_ms: u64,
    max: u32,
    events: Seq<(Seq<char>, u64)>,
)
    ensures
        windows_after(window_ms, max, events).contains_key(key) == windows_after(
            window_ms,
            max,
            events_of(key, events),
        ).contains_key(key),
        windows_after(window_ms, max, events).contains_key(key) ==> windows_after(
            window_ms,
            max,
            events,
        )[key] == windows_after(window_ms, max, events_of(key, events))[key],
    decreases events.len(),
{
    if events.len() > 0 {
        let front = events.drop_last();
        lemma_key_alone(key, window_ms, max, front);
        if events.last().0 == key {
            assert(events_of(key, events).drop_last() =~= events_of(key, front));
        }
    }
}

/// Other keys never use up a key's allowance: its events get the same results,
/// in order, whatever comes for other keys in between.
pub proof fn law_other_keys_do_not_count(
    key: Seq<char>,
    window_ms: u64,
    max: u32,
    events: Seq<(Seq<char>, u64)>,
)
    ensures
        results_of(key, window_ms, max, events) == results(
            window_ms,
            max,
            events_of(key, events),
        ),
    decreases events.len(),
{
    if events.len() > 0 {
        let front = events.drop_last();
        law_other_keys_do_not_count(key, window_ms, max, front);
        if events.last().0 == key {
            lemma_key_alone(key, window_ms, max, front);
            assert(events_of(key, events).drop_last() =~= events_of(key, front));
        }
    }
}

/// Whether events are those of one key in one window, which the first of them
/// starts: none comes before it, nor once the window has run its time.
pub open spec fn one_window(
    key: Seq<char>,
    window_ms: u64,
    events: Seq<(Seq<char>, u64)>,
) -> bool {
    &&& forall|i: int| 0 <= i < events.len() ==> (#[trigger] events[i]).0 == key
    &&& forall|i: int|
        0 <= i < events.len() ==> events[0].1 <= (#[trigger] events[i]).1 < events[0].1 + window_ms
}

/// Within a window the first `max` events are allowed and no other, however
/// they are spaced: the window starts with its first event and lasts its time,
/// and refused events neither count nor prolong it. The next event behind it is
/// allowed where any is.
pub proof fn law_window_of_events(
    key: Seq<char>,
    window_ms: u64,
    max: u32,
    events: Seq<(Seq<char>, u64)>,
    now_ms: u64,
)
    requires
        events.len() > 0,
        one_window(key, window_ms, events),
        now_ms >= events[0].1 + window_ms,
    ensures
        results(window_ms, max, events).len() == events.len(),
        forall|i: int|
            0 <= i < events.len() ==> (#[trigger] results(window_ms, max, events)[i] <==> i < max),
        allows(windows_after(window_ms, max, events), window_ms, max, key, now_ms) <==> max >= 1,
{
    lemma_window_of_events(key, window_ms, max, events);
}

proof fn lemma_window_of_events(
    key: Seq<char>,
    window_ms: u64,
    max: u32,
    events: Seq<(Seq<char>, u64)>,
)
    requires
        events.len() > 0,
        one_window(key, window_ms, events),
    ensures
        results(window_ms, max, events).len() == events.len(),
        forall|i: int|
            0 <= i < events.len() ==> (#[trigger] results(window_ms, max, events)[i] <==> i < max),
        windows_after(window_ms, max, events).contains_key(key),
        windows_after(window_ms, max, events)[key].start_ms == events[0].1,
        windows_after(window_ms, max, events)[key].count == if events.len() < max {
            events.len() as int
        } else {
            max as int
        },
    decreases events.len(),
{
    let front = events.drop_last();
    assert(events[events.len() - 1].0 == key);
    if front.len() > 0 {
        assert forall|i: int| 0 <= i < front.len() implies (#[trigger] front[i]).0 == key
            && front[0].1 <= front[i].1 < front[0].1 + window_ms by {
            assert(front[i] == events[i]);
        }
        lemma_window_of_events(key, window_ms, max, front);
        assert(events[events.len() - 1].1 < events[0].1 + window_ms);
    } else {
        assert(front =~= Seq::empty());
        assert(results(window_ms, max, front) =~= Seq::<bool>::empty());
    }
}

} // verus!
