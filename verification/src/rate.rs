//! How often each address may ask for something.

use crate::clock::{now_secs, unix_secs};
use crate::table::{keep_if, Table};
use std::time::SystemTime;
use vstd::prelude::*;

verus! {

/// Above this many addresses the old ones are forgotten.
pub const MAX_ADDRESSES: usize = 1000;

/// How many requests were let through in the window that began at `since`.
#[derive(Clone, Copy)]
pub struct Window {
    pub count: u32,
    pub since: u64,
}

/// The windows of the addresses.
pub type WindowMap = Map<Seq<char>, Window>;

/// The seconds from `since` to `now`, modulo the range of the clock.
pub open spec fn elapsed(since: u64, now: u64) -> int {
    if now >= since {
        now - since
    } else {
        now - since + u64::MAX + 1
    }
}

/// Twice the window, modulo the range of the clock.
pub open spec fn doubled(window: u64) -> int {
    if 2 * window <= u64::MAX {
        2 * window
    } else {
        2 * window - u64::MAX - 1
    }
}

/// The windows that are kept at `now`: where there are too many, those that began no longer than two
/// windows ago.
pub open spec fn swept(windows: WindowMap, window: u64, now: u64) -> WindowMap {
    if windows.len() > MAX_ADDRESSES {
        keep_if(windows, |w: Window| now - w.since <= doubled(window))
    } else {
        windows
    }
}

/// The window that counts for `ip` at `now`, with what it has let through so far.
pub open spec fn window_of(windows: WindowMap, ip: Seq<char>, window: u64, now: u64) -> Window {
    let kept = swept(windows, window, now);
    if kept.contains_key(ip) && elapsed(kept[ip].since, now) <= window {
        kept[ip]
    } else {
        Window { count: 0, since: now }
    }
}

/// A window that has just run out is let through whatever the limit is.
pub open spec fn renewed(windows: WindowMap, ip: Seq<char>, window: u64, now: u64) -> bool {
    let kept = swept(windows, window, now);
    kept.contains_key(ip) && elapsed(kept[ip].since, now) > window
}

/// A request of `ip` at `now` is let through: a window has run out, or fewer than `max` requests
/// were let through in the present one.
pub open spec fn admitted(
    windows: WindowMap,
    ip: Seq<char>,
    max: u32,
    window: u64,
    now: u64,
) -> bool {
    renewed(windows, ip, window, now) || window_of(windows, ip, window, now).count < max
}

/// The windows after a request of `ip` at `now`: one that is let through is counted.
pub open spec fn with_request(
    windows: WindowMap,
    ip: Seq<char>,
    max: u32,
    window: u64,
    now: u64,
) -> WindowMap {
    let current = window_of(windows, ip, window, now);
    let count = if admitted(windows, ip, max, window, now) {
        (current.count + 1) as u32
    } else {
        current.count
    };
    swept(windows, window, now).insert(ip, Window { count, ..current })
}

/// The windows after a run of requests, each by its address and time.
pub open spec fn after_run(
    windows: WindowMap,
    requests: Seq<(Seq<char>, u64)>,
    max: u32,
    window: u64,
) -> WindowMap
    decreases requests.len(),
{
    if requests.len() == 0 {
        windows
    } else {
        let earlier = after_run(windows, requests.drop_last(), max, window);
        with_request(earlier, requests.last().0, max, window, requests.last().1)
    }
}

/// How many requests of `ip` are let through in a run of requests.
pub open spec fn passed(
    windows: WindowMap,
    requests: Seq<(Seq<char>, u64)>,
    ip: Seq<char>,
    max: u32,
    window: u64,
) -> nat
    decreases requests.len(),
{
    if requests.len() == 0 {
        0
    } else {
        let earlier = after_run(windows, requests.drop_last(), max, window);
        let passes = requests.last().0 == ip && admitted(
            earlier,
            ip,
            max,
            window,
            requests.last().1,
        );
        passed(windows, requests.drop_last(), ip, max, window) + (if passes {
            1nat
        } else {
            0
        })
    }
}

/// The requests come in the order of time, within one window.
pub open spec fn within_one_window(requests: Seq<(Seq<char>, u64)>, window: u64) -> bool {
    &&& forall|i: int, j: int|
        0 <= i <= j < requests.len() ==> (#[trigger] requests[i]).1 <= (#[trigger] requests[j]).1
    &&& requests.len() > 0 ==> requests.last().1 - requests.first().1 <= window
}

/// `ip` has no window yet at `start`, or the one that it has ran out.
pub open spec fn idle(windows: WindowMap, ip: Seq<char>, window: u64, start: u64) -> bool {
    windows.contains_key(ip) ==> start - windows[ip].since > window
}

/// No window that begins in the run is forgotten in it: the run is shorter than the time after which
/// windows are forgotten, or there are never enough addresses to forget any.
pub open spec fn remembered(
    windows: WindowMap,
    requests: Seq<(Seq<char>, u64)>,
    window: u64,
) -> bool {
    ||| requests.last().1 - requests.first().1 <= doubled(window)
    ||| windows.dom().finite() && windows.len() + requests.len() <= MAX_ADDRESSES + 1
}

/// How many of the requests come from `ip`.
pub open spec fn asked(requests: Seq<(Seq<char>, u64)>, ip: Seq<char>) -> nat
    decreases requests.len(),
{
    if requests.len() == 0 {
        0
    } else {
        asked(requests.drop_last(), ip) + (if requests.last().0 == ip {
            1nat
        } else {
            0
        })
    }
}

/// The smaller one of the number and the limit.
pub open spec fn at_most(n: nat, max: u32) -> nat {
    if n <= max {
        n
    } else {
        max as nat
    }
}

/// While there are few addresses, each request adds one at most.
proof fn run_adds_addresses(
    windows: WindowMap,
    requests: Seq<(Seq<char>, u64)>,
    max: u32,
    window: u64,
)
    requires
        windows.dom().finite(),
        windows.len() + requests.len() <= MAX_ADDRESSES + 1,
    ensures
        after_run(windows, requests, max, window).dom().finite(),
        after_run(windows, requests, max, window).len() <= windows.len() + requests.len(),
    decreases requests.len(),
{
    if requests.len() > 0 {
        run_adds_addresses(windows, requests.drop_last(), max, window);
    }
}

/// What holds of the window of `ip` all through a run that takes no longer than one window.
proof fn run_counted(
    windows: WindowMap,
    requests: Seq<(Seq<char>, u64)>,
    ip: Seq<char>,
    max: u32,
    window: u64,
)
    requires
        max >= 1 || !windows.contains_key(ip),
        requests.len() > 0,
        within_one_window(requests, window),
        remembered(windows, requests, window),
        idle(windows, ip, window, requests.first().1),
    ensures
        ({
            let start = requests.first().1;
            let now = after_run(windows, requests, max, window);
            let count = passed(windows, requests, ip, max, window);
            &&& count == at_most(asked(requests, ip), max)
            &&& {
                ||| asked(requests, ip) == 0 && idle(now, ip, window, start) && (max >= 1
                    || !now.contains_key(ip))
                ||| now.contains_key(ip) && start <= now[ip].since <= requests.last().1
                    && now[ip].count == count
            }
        }),
    decreases requests.len(),
{
    let start = requests.first().1;
    let rest = requests.drop_last();
    let at = requests.last().1;
    if rest.len() > 0 {
        assert(rest.last() == requests[rest.len() - 1]);
        assert(requests[rest.len() - 1].1 <= requests[requests.len() - 1].1);
        assert(rest.first() == requests.first());
        assert(within_one_window(rest, window)) by {
            assert forall|i: int, j: int| 0 <= i <= j < rest.len() implies (#[trigger] rest[i]).1
                <= (#[trigger] rest[j]).1 by {
                assert(rest[i] == requests[i] && rest[j] == requests[j]);
            }
        }
        run_counted(windows, rest, ip, max, window);
    }
    if windows.dom().finite() && windows.len() + requests.len() <= MAX_ADDRESSES + 1 {
        run_adds_addresses(windows, rest, max, window);
    }
    assert(requests[0].1 <= requests[requests.len() - 1].1);
    let earlier = after_run(windows, rest, max, window);
    let kept = swept(earlier, window, at);
    assert(earlier.contains_key(ip) && start <= earlier[ip].since <= at ==> kept.contains_key(ip)
        && kept[ip] == earlier[ip]);
    assert(kept.contains_key(ip) ==> earlier.contains_key(ip) && kept[ip] == earlier[ip]);
    let now = after_run(windows, requests, max, window);
    let before = passed(windows, rest, ip, max, window);
    assert(before == at_most(asked(rest, ip), max));
    if requests.last().0 == ip {
        assert(now.contains_key(ip) && start <= now[ip].since <= at);
        if asked(rest, ip) == 0 && idle(earlier, ip, window, start) {
            assert(now[ip].count == passed(windows, requests, ip, max, window));
        } else {
            assert(window_of(earlier, ip, window, at) == earlier[ip]);
            assert(now[ip].count == passed(windows, requests, ip, max, window));
        }
    } else {
        assert(passed(windows, requests, ip, max, window) == before);
        assert(asked(requests, ip) == asked(rest, ip));
        assert(now.contains_key(ip) == kept.contains_key(ip));
    }
}

/// The limit is kept and used up: of the requests that come in after the last window of an address
/// ran out, no later than one window after the first of them, as many of that address are let
/// through as it makes, but no more than `max`, whatever other addresses ask for in between.
pub proof fn limit_holds(
    windows: WindowMap,
    requests: Seq<(Seq<char>, u64)>,
    ip: Seq<char>,
    max: u32,
    window: u64,
)
    requires
        max >= 1 || !windows.contains_key(ip),
        requests.len() > 0,
        within_one_window(requests, window),
        remembered(windows, requests, window),
        idle(windows, ip, window, requests.first().1),
    ensures
        passed(windows, requests, ip, max, window) == at_most(asked(requests, ip), max),
{
    run_counted(windows, requests, ip, max, window);
}

/// The first `max` requests of an address in one window are let through, and the others are not:
/// the last request of such a run is let through if and only if the address has made no more than
/// `max`, this one included.
pub proof fn first_requests_pass(
    windows: WindowMap,
    requests: Seq<(Seq<char>, u64)>,
    max: u32,
    window: u64,
)
    requires
        max >= 1 || !windows.contains_key(requests.last().0),
        requests.len() > 0,
        within_one_window(requests, window),
        remembered(windows, requests, window),
        idle(windows, requests.last().0, window, requests.first().1),
    ensures
        admitted(
            after_run(windows, requests.drop_last(), max, window),
            requests.last().0,
            max,
            window,
            requests.last().1,
        ) <==> asked(requests, requests.last().0) <= max,
{
    let ip = requests.last().0;
    let rest = requests.drop_last();
    run_counted(windows, requests, ip, max, window);
    if rest.len() > 0 {
        assert(rest.last() == requests[rest.len() - 1]);
        assert(requests[rest.len() - 1].1 <= requests[requests.len() - 1].1);
        assert(rest.first() == requests.first());
        assert forall|i: int, j: int| 0 <= i <= j < rest.len() implies (#[trigger] rest[i]).1 <= (
        #[trigger] rest[j]).1 by {
            assert(rest[i] == requests[i] && rest[j] == requests[j]);
        }
        run_counted(windows, rest, ip, max, window);
    }
}

/// Once a request was refused, the address is refused until the window has run out, unless the
/// window is forgotten before.
pub proof fn refused_until_window_ends(
    windows: WindowMap,
    ip: Seq<char>,
    max: u32,
    window: u64,
    now: u64,
    later: u64,
)
    requires
        !admitted(windows, ip, max, window, now),
        elapsed(window_of(windows, ip, window, now).since, later) <= window,
        with_request(windows, ip, max, window, now).len() <= MAX_ADDRESSES || later - window_of(
            windows,
            ip,
            window,
            now,
        ).since <= doubled(window),
    ensures
        !admitted(with_request(windows, ip, max, window, now), ip, max, window, later),
{
    let next = with_request(windows, ip, max, window, now);
    let kept = swept(next, window, later);
    assert(next.contains_key(ip));
    assert(kept.contains_key(ip) && kept[ip] == next[ip]);
}

/// A request of one address does not use up what another may ask for, unless it makes the server
/// forget a window of the other too early or with a limit of zero.
pub proof fn addresses_are_independent(
    windows: WindowMap,
    ip: Seq<char>,
    other: Seq<char>,
    max: u32,
    window: u64,
    now: u64,
)
    requires
        ip != other,
        ({
            ||| max >= 1 && 2 * window <= u64::MAX
            ||| windows.len() > MAX_ADDRESSES
            ||| with_request(windows, ip, max, window, now).len() <= MAX_ADDRESSES
            ||| windows.contains_key(other) ==> now - windows[other].since <= doubled(window)
        }),
    ensures
        admitted(with_request(windows, ip, max, window, now), other, max, window, now) == admitted(
            windows,
            other,
            max,
            window,
            now,
        ),
{
    let first = swept(windows, window, now);
    let next = with_request(windows, ip, max, window, now);
    let second = swept(next, window, now);
    assert(next.contains_key(other) == first.contains_key(other));
    assert(first.contains_key(other) ==> next[other] == first[other]);
    assert(second.contains_key(other) ==> next.contains_key(other) && second[other]
        == next[other]);
    assert(next.contains_key(other) && now - next[other].since <= doubled(window)
        ==> second.contains_key(other));
}

/// In a present window a request is let through as long as fewer than `max` were, and counts; the
/// window goes on from when it began, whether or not the request is let through.
pub proof fn present_window_goes_on(
    windows: WindowMap,
    ip: Seq<char>,
    max: u32,
    window: u64,
    now: u64,
)
    requires
        windows.contains_key(ip),
        elapsed(windows[ip].since, now) <= window,
        windows.len() <= MAX_ADDRESSES || now - windows[ip].since <= doubled(window),
    ensures
        ({
            let next = with_request(windows, ip, max, window, now);
            let before = windows[ip];
            &&& admitted(windows, ip, max, window, now) <==> before.count < max
            &&& next.contains_key(ip)
            &&& next[ip].since == before.since
            &&& next[ip].count == (if before.count < max {
                before.count + 1
            } else {
                before.count as int
            })
        }),
{
}

/// The window of an address is forgotten: there are too many, and it began more than two windows ago.
pub open spec fn forgotten(windows: WindowMap, ip: Seq<char>, window: u64, now: u64) -> bool {
    windows.contains_key(ip) && windows.len() > MAX_ADDRESSES && now - windows[ip].since > doubled(
        window,
    )
}

/// Where an address has no window, or its window is forgotten, or has run out, or the clock has gone
/// back behind it, a request is let through, begins a new window and is the first one in it. With a
/// limit of zero that is so where the window has run out but is not forgotten.
pub proof fn new_window_begins(windows: WindowMap, ip: Seq<char>, max: u32, window: u64, now: u64)
    requires
        windows.contains_key(ip) ==> elapsed(windows[ip].since, now) > window || forgotten(
            windows,
            ip,
            window,
            now,
        ),
        max >= 1 || windows.contains_key(ip) && !forgotten(windows, ip, window, now),
    ensures
        ({
            let next = with_request(windows, ip, max, window, now);
            &&& admitted(windows, ip, max, window, now)
            &&& next.contains_key(ip)
            &&& next[ip].since == now
            &&& next[ip].count == 1
        }),
{
}

/// The time since a window began, and the time after which it may be forgotten, as long as they fit
/// the range of the clock.
pub proof fn times_of_a_window(since: u64, now: u64, window: u64)
    ensures
        since <= now ==> elapsed(since, now) == now - since,
        2 * window <= u64::MAX ==> doubled(window) == 2 * window,
        (elapsed(since, now) - (now - since)) % (u64::MAX + 1) == 0,
        0 <= elapsed(since, now) <= u64::MAX,
        (2 * window - doubled(window)) % (u64::MAX + 1) == 0,
        0 <= doubled(window) <= u64::MAX,
{
}

/// A limit of zero lets nothing through where an address has no window, or it is forgotten; a window
/// begins that counts nothing.
pub proof fn limit_of_zero(windows: WindowMap, ip: Seq<char>, window: u64, now: u64)
    requires
        !windows.contains_key(ip) || forgotten(windows, ip, window, now),
    ensures
        !admitted(windows, ip, 0, window, now),
        with_request(windows, ip, 0, window, now).contains_key(ip),
        with_request(windows, ip, 0, window, now)[ip].since == now,
        with_request(windows, ip, 0, window, now)[ip].count == 0,
{
}

/// A request leaves the windows of the other addresses as they are: none is made or changed, and one
/// is forgotten only where there are too many and it began more than two windows ago.
pub proof fn other_windows_are_kept(
    windows: WindowMap,
    ip: Seq<char>,
    other: Seq<char>,
    max: u32,
    window: u64,
    now: u64,
)
    requires
        ip != other,
    ensures
        ({
            let next = with_request(windows, ip, max, window, now);
            &&& next.contains_key(other) ==> windows.contains_key(other) && next[other]
                == windows[other]
            &&& windows.contains_key(other) && !next.contains_key(other) <==> windows.contains_key(
                other,
            ) && windows.len() > MAX_ADDRESSES && now - windows[other].since > doubled(window)
        }),
{
}

/// How many of the requests of `ip` at `from` or later are let through in a run of requests.
pub open spec fn passed_since(
    windows: WindowMap,
    requests: Seq<(Seq<char>, u64)>,
    ip: Seq<char>,
    max: u32,
    window: u64,
    from: int,
) -> nat
    decreases requests.len(),
{
    if requests.len() == 0 {
        0
    } else {
        let rest = requests.drop_last();
        let (who, at) = requests.last();
        let passes = who == ip && at >= from && admitted(
            after_run(windows, rest, max, window),
            ip,
            max,
            window,
            at,
        );
        passed_since(windows, rest, ip, max, window, from) + (if passes {
            1nat
        } else {
            0
        })
    }
}

/// The requests come in the order of time.
pub open spec fn in_order(requests: Seq<(Seq<char>, u64)>) -> bool {
    forall|i: int, j: int|
        0 <= i <= j < requests.len() ==> (#[trigger] requests[i]).1 <= (#[trigger] requests[j]).1
}

proof fn earlier_counts_more(
    windows: WindowMap,
    requests: Seq<(Seq<char>, u64)>,
    ip: Seq<char>,
    max: u32,
    window: u64,
    from: int,
    earlier: int,
)
    requires
        earlier <= from,
    ensures
        passed_since(windows, requests, ip, max, window, from) <= passed_since(
            windows,
            requests,
            ip,
            max,
            window,
            earlier,
        ),
    decreases requests.len(),
{
    if requests.len() > 0 {
        earlier_counts_more(windows, requests.drop_last(), ip, max, window, from, earlier);
    }
}

/// What a window counts was let through since it began.
proof fn window_counts_what_passed(
    requests: Seq<(Seq<char>, u64)>,
    ip: Seq<char>,
    max: u32,
    window: u64,
)
    requires
        in_order(requests),
    ensures
        ({
            let none = WindowMap::empty();
            let now = after_run(none, requests, max, window);
            now.contains_key(ip) ==> now[ip].count <= passed_since(
                none,
                requests,
                ip,
                max,
                window,
                now[ip].since as int,
            ) && requests.len() > 0 && now[ip].since <= requests.last().1
        }),
    decreases requests.len(),
{
    if requests.len() > 0 {
        let none = WindowMap::empty();
        let rest = requests.drop_last();
        assert forall|i: int, j: int| 0 <= i <= j < rest.len() implies (#[trigger] rest[i]).1 <= (
        #[trigger] rest[j]).1 by {
            assert(rest[i] == requests[i] && rest[j] == requests[j]);
        }
        window_counts_what_passed(rest, ip, max, window);
        if rest.len() > 0 {
            assert(rest.last() == requests[rest.len() - 1]);
            assert(requests[rest.len() - 1].1 <= requests[requests.len() - 1].1);
        }
        let (who, at) = requests.last();
        let earlier = after_run(none, rest, max, window);
        let kept = swept(earlier, window, at);
        assert(kept.contains_key(ip) ==> earlier.contains_key(ip) && kept[ip] == earlier[ip]);
        if who == ip {
            let current = window_of(earlier, ip, window, at);
            let before = passed_since(none, rest, ip, max, window, current.since as int);
            assert(current.count <= before);
        }
    }
}

/// Whoever asks seldom is never refused: in any run of requests in the order of time, from when
/// nobody has asked for anything, the last one is let through if fewer than `max` requests of its
/// address were let through in the `window` seconds up to it.
pub proof fn seldom_is_never_refused(
    requests: Seq<(Seq<char>, u64)>,
    max: u32,
    window: u64,
)
    requires
        requests.len() > 0,
        in_order(requests),
        passed_since(
            WindowMap::empty(),
            requests.drop_last(),
            requests.last().0,
            max,
            window,
            requests.last().1 - window,
        ) < max,
    ensures
        admitted(
            after_run(WindowMap::empty(), requests.drop_last(), max, window),
            requests.last().0,
            max,
            window,
            requests.last().1,
        ),
{
    let none = WindowMap::empty();
    let rest = requests.drop_last();
    let (ip, at) = requests.last();
    assert forall|i: int, j: int| 0 <= i <= j < rest.len() implies (#[trigger] rest[i]).1 <= (
    #[trigger] rest[j]).1 by {
        assert(rest[i] == requests[i] && rest[j] == requests[j]);
    }
    window_counts_what_passed(rest, ip, max, window);
    if rest.len() > 0 {
        assert(rest.last() == requests[rest.len() - 1]);
        assert(requests[rest.len() - 1].1 <= requests[requests.len() - 1].1);
    }
    let earlier = after_run(none, rest, max, window);
    let kept = swept(earlier, window, at);
    if kept.contains_key(ip) && elapsed(kept[ip].since, at) <= window {
        earlier_counts_more(
            none,
            rest,
            ip,
            max,
            window,
            kept[ip].since as int,
            at - window,
        );
    }
}

/// Counts the requests of each address.
pub struct RateLimit {
    map: Table<Window>,
}

impl View for RateLimit {
    type V = WindowMap;

    closed spec fn view(&self) -> WindowMap {
        self.map@
    }
}

impl RateLimit {
    /// Nobody has asked for anything.
    pub fn new() -> (r: Self)
        ensures
            r@ == WindowMap::empty(),
    {
        RateLimit { map: Table::new() }
    }

    /// Whether a request of `ip` at `now` is let through, with at most `max` in `window` seconds.
    pub fn check_at(&mut self, ip: &str, max: u32, window: u64, now: u64) -> (r: bool)
        ensures
            r == admitted(old(self)@, ip@, max, window, now),
            final(self)@ == with_request(old(self)@, ip@, max, window, now),
    {
        if self.map.len() > MAX_ADDRESSES {
            let limit: u64 = window.wrapping_mul(2);
            proof {
                assert(limit == doubled(window)) by {
                    assert(window * 2 == 2 * window);
                }
            }
            let ghost recent = |w: Window| now - w.since <= doubled(window);
            let keep = |w: &Window| -> (b: bool)
                ensures
                    b == (now - w.since <= limit),
                { now.saturating_sub(w.since) <= limit };
            self.map.retain(keep, Ghost(recent));
        }
        let ghost kept = self@;
        assert(kept =~= swept(old(self)@, window, now));
        let current: Window = match self.map.get(ip) {
            Some(w) => *w,
            None => Window { count: 0, since: now },
        };
        if now.wrapping_sub(current.since) > window {
            self.map.insert(ip.to_owned(), Window { count: 1, since: now });
            return true;
        }
        if current.count >= max {
            self.map.insert(ip.to_owned(), current);
            return false;
        }
        self.map.insert(ip.to_owned(), Window { count: current.count + 1, since: current.since });
        true
    }

    /// Whether a request of `ip`, now by the system clock, is let through, with at most `max` in
    /// `window` seconds.
    pub fn check(&mut self, ip: &str, max: u32, window: u64) -> (r: bool)
        ensures
            exists|time: SystemTime|
                {
                    let now = #[trigger] unix_secs(time);
                    &&& r == admitted(old(self)@, ip@, max, window, now)
                    &&& final(self)@ == with_request(old(self)@, ip@, max, window, now)
                },
    {
        let now = now_secs();
        self.check_at(ip, max, window, now)
    }
}

} // verus!
