//! The session NAT: a two-way map between the two ends of a hijacked flow
//! and a port of the local listener.
//!
//! A session lives while its indicator is at least one. The indicator counts
//! the ends of the flow that are alive; it starts at two and only ever goes
//! down. A session whose indicator reached zero is reaped once a grace
//! period has passed; a UDP session also when it was idle for too long.
//! Times are in milliseconds on a clock that does not go back.

use crate::addr::SockAddr;
use vstd::prelude::*;

verus! {

/// The indicator of a new session.
pub const INITIAL_INDICATOR: u8 = 2;

/// The grace period, where none is configured.
pub const DEFAULT_GRACE: u64 = 30_000;

/// The time that a UDP session may be idle, where none is configured.
pub const DEFAULT_UDP_TIMEOUT: u64 = 300_000;

/// One session.
#[derive(Clone, Copy, Debug, PartialEq, Eq, Structural)]
pub struct Session {
    pub src: SockAddr,
    pub dst: SockAddr,
    /// The port of the local listener that stands for the session.
    pub port: u16,
    /// The number of ends of the flow that are alive.
    pub indicator: u8,
    pub last_seen: u64,
    /// When the indicator reached zero.
    pub zero_since: Option<u64>,
}

/// Why no session was registered.
#[derive(Clone, Copy, Debug, PartialEq, Eq, Structural)]
pub enum NatError {
    /// Every port of the range stands for a session.
    PortExhausted,
}

/// The sessions of one protocol, with the range of ports that may stand for
/// them.
#[derive(Debug)]
pub struct SessionTable {
    pub entries: Vec<Session>,
    pub lo: u16,
    pub hi: u16,
    /// After this time since its reaching zero a session is reaped.
    pub grace: u64,
    /// After this time since it was last seen a session is reaped, if there
    /// is such a time.
    pub idle_timeout: Option<u64>,
}

impl Session {
    /// Whether the session is alive.
    pub open spec fn alive(self) -> bool {
        self.indicator >= 1
    }

    /// Whether the session has the two ends.
    pub open spec fn joins(self, src: SockAddr, dst: SockAddr) -> bool {
        self.src == src && self.dst == dst
    }

    /// Whether the session is to be reaped at `now`: its indicator reached
    /// zero more than `grace` ago, or it was idle for more than the timeout.
    pub open spec fn expired(self, now: u64, grace: u64, idle_timeout: Option<u64>) -> bool {
        ||| self.zero_since matches Some(t) && now - t > grace
        ||| idle_timeout matches Some(limit) && now - self.last_seen > limit
    }
}

/// Whether some session has the port.
pub open spec fn port_used(entries: Seq<Session>, port: int) -> bool {
    exists|i: int| 0 <= i < entries.len() && (#[trigger] entries[i]).port == port
}

/// Whether no two sessions have the same port.
pub open spec fn ports_distinct(entries: Seq<Session>) -> bool {
    forall|i: int, j: int|
        0 <= i < j < entries.len() ==> (#[trigger] entries[i]).port != (#[trigger] entries[j]).port
}

/// Whether no two sessions that are alive have the same ends.
pub open spec fn live_distinct(entries: Seq<Session>) -> bool {
    forall|i: int, j: int|
        0 <= i < j < entries.len() && (#[trigger] entries[i]).alive() && (#[trigger] entries[j]).alive()
            ==> !entries[i].joins(entries[j].src, entries[j].dst)
}

/// Whether `i` is the place of the session that is alive and has the ends.
pub open spec fn is_live_at(entries: Seq<Session>, src: SockAddr, dst: SockAddr, i: int) -> bool {
    0 <= i < entries.len() && entries[i].alive() && entries[i].joins(src, dst)
}

/// Whether `port` is the least port of the range that no session has.
pub open spec fn is_least_free(entries: Seq<Session>, lo: u16, hi: u16, port: int) -> bool {
    &&& lo <= port <= hi
    &&& !port_used(entries, port)
    &&& forall|p: int| lo <= p < port ==> port_used(entries, p)
}

/// The sessions among the first `n` that are not to be reaped at `now`.
pub open spec fn kept(entries: Seq<Session>, now: u64, grace: u64, idle: Option<u64>, n: int) -> Seq<Session>
    decreases n,
{
    if n <= 0 {
        Seq::empty()
    } else if entries[n - 1].expired(now, grace, idle) {
        kept(entries, now, grace, idle, n - 1)
    } else {
        kept(entries, now, grace, idle, n - 1).push(entries[n - 1])
    }
}

/// What is kept is among the sessions, in their order.
pub proof fn kept_is_part(entries: Seq<Session>, now: u64, grace: u64, idle: Option<u64>, n: int)
    requires
        0 <= n <= entries.len(),
    ensures
        forall|k: int|
            0 <= k < kept(entries, now, grace, idle, n).len() ==> !(#[trigger] kept(
                entries,
                now,
                grace,
                idle,
                n,
            )[k]).expired(now, grace, idle) && exists|i: int|
                0 <= i < n && entries[i] == kept(entries, now, grace, idle, n)[k],
        forall|i: int|
            0 <= i < n && !(#[trigger] entries[i]).expired(now, grace, idle) ==> kept(
                entries,
                now,
                grace,
                idle,
                n,
            ).contains(entries[i]),
        ports_distinct(entries) ==> ports_distinct(kept(entries, now, grace, idle, n)),
        live_distinct(entries) ==> live_distinct(kept(entries, now, grace, idle, n)),
        forall|a: int, b: int|
            0 <= a < b < kept(entries, now, grace, idle, n).len() ==> exists|i: int, j: int|
                0 <= i < j < n && entries[i] == #[trigger] kept(entries, now, grace, idle, n)[a]
                    && entries[j] == #[trigger] kept(entries, now, grace, idle, n)[b],
    decreases n,
{
    if n > 0 {
        kept_is_part(entries, now, grace, idle, n - 1);
        let before = kept(entries, now, grace, idle, n - 1);
        let after = kept(entries, now, grace, idle, n);
        if !entries[n - 1].expired(now, grace, idle) {
            assert(after[before.len() as int] == entries[n - 1]);
            assert forall|i: int|
                0 <= i < n && !(#[trigger] entries[i]).expired(now, grace, idle) implies after.contains(
                entries[i],
            ) by {
                if i < n - 1 {
                    let k = choose|k: int| 0 <= k < before.len() && before[k] == entries[i];
                    assert(after[k] == entries[i]);
                }
            }
        }
        assert forall|a: int, b: int| 0 <= a < b < after.len() implies exists|i: int, j: int|
            0 <= i < j < n && entries[i] == #[trigger] after[a] && entries[j] == #[trigger] after[b] by {
            if b < before.len() {
                let (i, j) = choose|i: int, j: int|
                    0 <= i < j < n - 1 && entries[i] == before[a] && entries[j] == before[b];
                assert(entries[i] == after[a] && entries[j] == after[b]);
            } else {
                let i = choose|i: int| 0 <= i < n - 1 && entries[i] == before[a];
                assert(entries[i] == after[a] && entries[n - 1] == after[b]);
            }
        }
        if ports_distinct(entries) {
            assert forall|a: int, b: int| 0 <= a < b < after.len() implies (#[trigger] after[a]).port != (
            #[trigger] after[b]).port by {
                let (i, j) = choose|i: int, j: int|
                    0 <= i < j < n && entries[i] == after[a] && entries[j] == after[b];
                assert(entries[i].port != entries[j].port);
            }
        }
        if live_distinct(entries) {
            assert forall|a: int, b: int|
                0 <= a < b < after.len() && (#[trigger] after[a]).alive() && (#[trigger] after[b]).alive() implies !after[a].joins(
                after[b].src,
                after[b].dst,
            ) by {
                let (i, j) = choose|i: int, j: int|
                    0 <= i < j < n && entries[i] == after[a] && entries[j] == after[b];
                assert(entries[i].alive() && entries[j].alive());
            }
        }
    }
}

impl SessionTable {
    /// Whether the table is well formed: the ports are distinct and within
    /// the range, live sessions have distinct ends, an indicator is at most
    /// two, and a session has the time of its reaching zero exactly when
    /// its indicator is zero.
    pub open spec fn wf(&self) -> bool {
        &&& self.lo <= self.hi
        &&& ports_distinct(self.entries@)
        &&& live_distinct(self.entries@)
        &&& forall|i: int|
            0 <= i < self.entries@.len() ==> {
                let e = #[trigger] self.entries@[i];
                &&& self.lo <= e.port <= self.hi
                &&& e.indicator <= INITIAL_INDICATOR
                &&& (e.zero_since is Some <==> e.indicator == 0)
            }
    }

    /// A table without a session, for the ports from `lo` to `hi`.
    pub fn new(lo: u16, hi: u16, grace: u64, idle_timeout: Option<u64>) -> (t: SessionTable)
        requires
            lo <= hi,
        ensures
            t.wf(),
            t.entries@.len() == 0,
            t.lo == lo && t.hi == hi && t.grace == grace && t.idle_timeout == idle_timeout,
    {
        SessionTable { entries: Vec::new(), lo, hi, grace, idle_timeout }
    }

    /// The place of the session with the port.
    pub fn position(&self, port: u16) -> (r: Option<usize>)
        ensures
            match r {
                Some(i) => i < self.entries@.len() && self.entries@[i as int].port == port,
                None => !port_used(self.entries@, port as int),
            },
    {
        let mut i: usize = 0;
        while i < self.entries.len()
            invariant
                i <= self.entries@.len(),
                forall|j: int| 0 <= j < i ==> self.entries@[j].port != port,
            decreases self.entries@.len() - i,
        {
            if self.entries[i].port == port {
                return Some(i);
            }
            i += 1;
        }
        None
    }

    /// The session that the port stands for.
    pub fn lookup(&self, port: u16) -> (r: Option<Session>)
        ensures
            match r {
                Some(s) => s.port == port && self.entries@.contains(s),
                None => !port_used(self.entries@, port as int),
            },
    {
        match self.position(port) {
            Some(i) => Some(self.entries[i]),
            None => None,
        }
    }

    /// The port of the session that is alive and has the two ends.
    pub fn lookup_by_addr(&self, src: SockAddr, dst: SockAddr) -> (r: Option<u16>)
        ensures
            match r {
                Some(p) => exists|i: int|
                    #[trigger] is_live_at(self.entries@, src, dst, i) && self.entries@[i].port == p,
                None => forall|i: int| !is_live_at(self.entries@, src, dst, i),
            },
    {
        match self.live_position(src, dst) {
            Some(i) => Some(self.entries[i].port),
            None => None,
        }
    }

    /// The place of the session that is alive and has the two ends.
    fn live_position(&self, src: SockAddr, dst: SockAddr) -> (r: Option<usize>)
        ensures
            match r {
                Some(i) => is_live_at(self.entries@, src, dst, i as int),
                None => forall|i: int| !is_live_at(self.entries@, src, dst, i),
            },
    {
        let mut i: usize = 0;
        while i < self.entries.len()
            invariant
                i <= self.entries@.len(),
                forall|j: int| 0 <= j < i ==> !is_live_at(self.entries@, src, dst, j),
            decreases self.entries@.len() - i,
        {
            let e = self.entries[i];
            if e.indicator >= 1 && e.src == src && e.dst == dst {
                return Some(i);
            }
            i += 1;
        }
        None
    }

    /// The least port of the range that no session has.
    fn free_port(&self) -> (r: Option<u16>)
        requires
            self.lo <= self.hi,
        ensures
            match r {
                Some(p) => is_least_free(self.entries@, self.lo, self.hi, p as int),
                None => forall|p: int| self.lo <= p <= self.hi ==> port_used(self.entries@, p),
            },
    {
        let mut p: u16 = self.lo;
        loop
            invariant
                self.lo <= p <= self.hi,
                forall|q: int| self.lo <= q < p ==> port_used(self.entries@, q),
            decreases self.hi - p,
        {
            if self.position(p).is_none() {
                return Some(p);
            }
            if p == self.hi {
                return None;
            }
            p += 1;
        }
    }

    /// Registers the flow between the two ends at the time `now`. A flow
    /// whose session is alive keeps its port; a new flow is given the least
    /// port that is free, and an indicator of two.
    pub fn register(&mut self, src: SockAddr, dst: SockAddr, now: u64) -> (r: Result<u16, NatError>)
        requires
            old(self).wf(),
        ensures
            final(self).wf(),
            final(self).lo == old(self).lo && final(self).hi == old(self).hi && final(self).grace == old(
                self,
            ).grace && final(self).idle_timeout == old(self).idle_timeout,
            registered(*old(self), src, dst, now, *final(self), r),
    {
        let ghost before = self.entries@;
        match self.live_position(src, dst) {
            Some(i) => {
                let e = self.entries[i];
                let renewed = Session { last_seen: now, ..e };
                self.entries.set(i, renewed);
                proof {
                    let after = self.entries@;
                    assert(after == before.update(i as int, renewed));
                    assert forall|a: int, b: int| 0 <= a < b < after.len() implies (#[trigger] after[a]).port != (
                    #[trigger] after[b]).port by {
                        assert(before[a].port != before[b].port);
                    }
                    assert forall|a: int, b: int|
                        0 <= a < b < after.len() && (#[trigger] after[a]).alive() && (
                        #[trigger] after[b]).alive() implies !after[a].joins(after[b].src, after[b].dst) by {
                        assert(before[a].alive() && before[b].alive());
                    }
                    assert forall|k: int| 0 <= k < after.len() implies {
                        let s = #[trigger] after[k];
                        &&& self.lo <= s.port <= self.hi
                        &&& s.indicator <= INITIAL_INDICATOR
                        &&& (s.zero_since is Some <==> s.indicator == 0)
                    } by {
                        let s = before[k];
                        assert(self.lo <= s.port <= self.hi);
                    }
                }
                Ok(e.port)
            },
            None => match self.free_port() {
                Some(port) => {
                    let fresh = Session {
                        src,
                        dst,
                        port,
                        indicator: INITIAL_INDICATOR,
                        last_seen: now,
                        zero_since: None,
                    };
                    self.entries.push(fresh);
                    proof {
                        let after = self.entries@;
                        assert forall|a: int, b: int| 0 <= a < b < after.len() implies (
                        #[trigger] after[a]).port != (#[trigger] after[b]).port by {
                            if b < before.len() {
                                assert(before[a].port != before[b].port);
                            } else {
                                assert(before[a].port != port);
                            }
                        }
                        assert forall|a: int, b: int|
                            0 <= a < b < after.len() && (#[trigger] after[a]).alive() && (
                            #[trigger] after[b]).alive() implies !after[a].joins(
                            after[b].src,
                            after[b].dst,
                        ) by {
                            if b < before.len() {
                                assert(before[a].alive() && before[b].alive());
                            } else {
                                assert(!is_live_at(before, src, dst, a));
                            }
                        }
                        assert forall|k: int| 0 <= k < after.len() implies {
                            let s = #[trigger] after[k];
                            &&& self.lo <= s.port <= self.hi
                            &&& s.indicator <= INITIAL_INDICATOR
                            &&& (s.zero_since is Some <==> s.indicator == 0)
                        } by {
                            if k < before.len() {
                                let s = before[k];
                                assert(self.lo <= s.port <= self.hi);
                            }
                        }
                    }
                    Ok(port)
                },
                None => Err(NatError::PortExhausted),
            },
        }
    }

    /// Takes one from the indicator of the session that the port stands
    /// for, at the time `now`: one end of the flow is gone. An indicator of
    /// zero stays zero. Returns whether there is such a session.
    pub fn release(&mut self, port: u16, now: u64) -> (found: bool)
        requires
            old(self).wf(),
        ensures
            final(self).wf(),
            final(self).lo == old(self).lo && final(self).hi == old(self).hi && final(self).grace == old(
                self,
            ).grace && final(self).idle_timeout == old(self).idle_timeout,
            found == port_used(old(self).entries@, port as int),
            final(self).entries@.len() == old(self).entries@.len(),
            forall|i: int|
                0 <= i < old(self).entries@.len() ==> #[trigger] final(self).entries@[i] == released(
                    old(self).entries@[i],
                    port,
                    now,
                ),
    {
        let ghost before = self.entries@;
        match self.position(port) {
            Some(i) => {
                let e = self.entries[i];
                let after = if e.indicator > 1 {
                    Session { indicator: e.indicator - 1, ..e }
                } else if e.indicator == 1 {
                    Session { indicator: 0, zero_since: Some(now), ..e }
                } else {
                    e
                };
                self.entries.set(i, after);
                proof {
                    let now_entries = self.entries@;
                    assert forall|k: int| 0 <= k < before.len() implies #[trigger] now_entries[k] == released(
                        before[k],
                        port,
                        now,
                    ) by {
                        if k != i {
                            if k < i {
                                assert(before[k].port != before[i as int].port);
                            } else {
                                assert(before[i as int].port != before[k].port);
                            }
                        }
                    }
                    self.wf_after_release(before, port, now);
                }
                true
            },
            None => {
                proof {
                    assert forall|k: int| 0 <= k < before.len() implies #[trigger] self.entries@[k] == released(
                        before[k],
                        port,
                        now,
                    ) by {
                        assert(before[k].port != port);
                    }
                }
                false
            },
        }
    }

    proof fn wf_after_release(&self, before: Seq<Session>, port: u16, now: u64)
        requires
            self.lo <= self.hi,
            ports_distinct(before),
            live_distinct(before),
            forall|i: int|
                0 <= i < before.len() ==> {
                    let e = #[trigger] before[i];
                    &&& self.lo <= e.port <= self.hi
                    &&& e.indicator <= INITIAL_INDICATOR
                    &&& (e.zero_since is Some <==> e.indicator == 0)
                },
            self.entries@.len() == before.len(),
            forall|i: int|
                0 <= i < before.len() ==> #[trigger] self.entries@[i] == released(before[i], port, now),
        ensures
            self.wf(),
    {
        let after = self.entries@;
        assert forall|a: int, b: int| 0 <= a < b < after.len() implies (#[trigger] after[a]).port != (
        #[trigger] after[b]).port by {
            assert(before[a].port != before[b].port);
        }
        assert forall|a: int, b: int|
            0 <= a < b < after.len() && (#[trigger] after[a]).alive() && (#[trigger] after[b]).alive() implies !after[a].joins(
            after[b].src,
            after[b].dst,
        ) by {
            assert(before[a].alive() && before[b].alive());
        }
        assert forall|k: int| 0 <= k < after.len() implies {
            let s = #[trigger] after[k];
            &&& self.lo <= s.port <= self.hi
            &&& s.indicator <= INITIAL_INDICATOR
            &&& (s.zero_since is Some <==> s.indicator == 0)
        } by {
            let s = before[k];
            assert(self.lo <= s.port <= self.hi);
        }
    }

    /// Ends the session that the port stands for, at the time `now`: its
    /// indicator is set to zero. Returns whether there is such a session.
    pub fn close(&mut self, port: u16, now: u64) -> (found: bool)
        requires
            old(self).wf(),
        ensures
            final(self).wf(),
            final(self).lo == old(self).lo && final(self).hi == old(self).hi && final(self).grace == old(
                self,
            ).grace && final(self).idle_timeout == old(self).idle_timeout,
            found == port_used(old(self).entries@, port as int),
            final(self).entries@.len() == old(self).entries@.len(),
            forall|i: int|
                0 <= i < old(self).entries@.len() ==> #[trigger] final(self).entries@[i] == closed(
                    old(self).entries@[i],
                    port,
                    now,
                ),
    {
        let first = self.release(port, now);
        let ghost middle = self.entries@;
        let second = self.release(port, now);
        proof {
            assert forall|i: int| 0 <= i < old(self).entries@.len() implies #[trigger] self.entries@[i]
                == closed(old(self).entries@[i], port, now) by {
                assert(middle[i] == released(old(self).entries@[i], port, now));
                assert(self.entries@[i] == released(middle[i], port, now));
            }
        }
        first
    }

    /// Notes that the session of the port was seen at the time `now`.
    pub fn touch(&mut self, port: u16, now: u64) -> (found: bool)
        requires
            old(self).wf(),
        ensures
            final(self).wf(),
            final(self).lo == old(self).lo && final(self).hi == old(self).hi && final(self).grace == old(
                self,
            ).grace && final(self).idle_timeout == old(self).idle_timeout,
            found == port_used(old(self).entries@, port as int),
            final(self).entries@.len() == old(self).entries@.len(),
            forall|i: int|
                0 <= i < old(self).entries@.len() ==> #[trigger] final(self).entries@[i] == if old(
                    self,
                ).entries@[i].port == port {
                    Session { last_seen: now, ..old(self).entries@[i] }
                } else {
                    old(self).entries@[i]
                },
    {
        let ghost before = self.entries@;
        match self.position(port) {
            Some(i) => {
                let e = self.entries[i];
                self.entries.set(i, Session { last_seen: now, ..e });
                proof {
                    let after = self.entries@;
                    assert forall|k: int| 0 <= k < before.len() implies #[trigger] after[k] == if before[k].port
                        == port {
                        Session { last_seen: now, ..before[k] }
                    } else {
                        before[k]
                    } by {
                        if k != i {
                            if k < i {
                                assert(before[k].port != before[i as int].port);
                            } else {
                                assert(before[i as int].port != before[k].port);
                            }
                        }
                    }
                    assert forall|a: int, b: int| 0 <= a < b < after.len() implies (#[trigger] after[a]).port != (
                    #[trigger] after[b]).port by {
                        assert(before[a].port != before[b].port);
                    }
                    assert forall|a: int, b: int|
                        0 <= a < b < after.len() && (#[trigger] after[a]).alive() && (
                        #[trigger] after[b]).alive() implies !after[a].joins(after[b].src, after[b].dst) by {
                        assert(before[a].alive() && before[b].alive());
                    }
                    assert forall|k: int| 0 <= k < after.len() implies {
                        let s = #[trigger] after[k];
                        &&& self.lo <= s.port <= self.hi
                        &&& s.indicator <= INITIAL_INDICATOR
                        &&& (s.zero_since is Some <==> s.indicator == 0)
                    } by {
                        let s = before[k];
                        assert(self.lo <= s.port <= self.hi);
                    }
                }
                true
            },
            None => {
                proof {
                    assert forall|k: int| 0 <= k < before.len() implies before[k].port != port by {}
                }
                false
            },
        }
    }

    /// Reaps, at the time `now`, the sessions whose indicator reached zero
    /// more than the grace period ago, and those that were idle for more
    /// than the timeout. The sessions that stay are left as they are.
    pub fn flush(&mut self, now: u64)
        requires
            old(self).wf(),
        ensures
            final(self).wf(),
            final(self).lo == old(self).lo && final(self).hi == old(self).hi && final(self).grace == old(
                self,
            ).grace && final(self).idle_timeout == old(self).idle_timeout,
            final(self).entries@ == kept(
                old(self).entries@,
                now,
                old(self).grace,
                old(self).idle_timeout,
                old(self).entries@.len() as int,
            ),
    {
        let ghost before = self.entries@;
        let mut out: Vec<Session> = Vec::new();
        let mut i: usize = 0;
        while i < self.entries.len()
            invariant
                i <= self.entries@.len(),
                self.entries@ == before,
                out@ == kept(before, now, self.grace, self.idle_timeout, i as int),
            decreases self.entries@.len() - i,
        {
            let e = self.entries[i];
            let dead = match e.zero_since {
                Some(t) => now > t && now - t > self.grace,
                None => false,
            };
            let idle = match self.idle_timeout {
                Some(limit) => now > e.last_seen && now - e.last_seen > limit,
                None => false,
            };
            if !(dead || idle) {
                out.push(e);
            }
            i += 1;
        }
        proof {
            kept_is_part(before, now, self.grace, self.idle_timeout, before.len() as int);
            assert forall|k: int| 0 <= k < out@.len() implies {
                let s = #[trigger] out@[k];
                &&& self.lo <= s.port <= self.hi
                &&& s.indicator <= INITIAL_INDICATOR
                &&& (s.zero_since is Some <==> s.indicator == 0)
            } by {
                let j = choose|j: int| 0 <= j < before.len() && before[j] == out@[k];
                let s = before[j];
                assert(self.lo <= s.port <= self.hi);
            }
        }
        self.entries = out;
    }
}

/// A session after one end of the flow of `port` is gone at `now`: the
/// session of the port has one less in its indicator, and the time of its
/// reaching zero where it does so; every other session is as before.
pub open spec fn released(s: Session, port: u16, now: u64) -> Session {
    if s.port != port {
        s
    } else if s.indicator > 1 {
        Session { indicator: (s.indicator - 1) as u8, ..s }
    } else if s.indicator == 1 {
        Session { indicator: 0, zero_since: Some(now), ..s }
    } else {
        s
    }
}

/// A session after the flow of `port` is ended at `now`: the session of the
/// port has an indicator of zero, and the time of its reaching zero, which
/// is `now` unless it was zero before.
pub open spec fn closed(s: Session, port: u16, now: u64) -> Session {
    if s.port != port || s.indicator == 0 {
        s
    } else {
        Session { indicator: 0, zero_since: Some(now), ..s }
    }
}

/// The sessions of the hijacked TCP and UDP flows. The two protocols have
/// pools of ports of their own.
#[derive(Debug)]
pub struct SessionManager {
    pub tcp: SessionTable,
    pub udp: SessionTable,
}

impl SessionManager {
    /// Whether both tables are well formed, and only UDP sessions are
    /// reaped for being idle.
    pub open spec fn wf(&self) -> bool {
        self.tcp.wf() && self.udp.wf() && self.tcp.idle_timeout is None && self.udp.idle_timeout is Some
    }

    /// A manager without a session. TCP and UDP sessions are given ports
    /// from `lo` to `hi`.
    pub fn new(lo: u16, hi: u16, grace: u64, udp_timeout: u64) -> (m: SessionManager)
        requires
            lo <= hi,
        ensures
            m.wf(),
            m.tcp.entries@.len() == 0 && m.udp.entries@.len() == 0,
            m.tcp.lo == lo && m.tcp.hi == hi && m.udp.lo == lo && m.udp.hi == hi,
            m.tcp.grace == grace && m.udp.grace == grace,
            m.udp.idle_timeout == Some(udp_timeout),
    {
        SessionManager {
            tcp: SessionTable::new(lo, hi, grace, None),
            udp: SessionTable::new(lo, hi, grace, Some(udp_timeout)),
        }
    }

    /// Registers a TCP flow. See `SessionTable::register`.
    pub fn register_tcp(&mut self, src: SockAddr, dst: SockAddr, now: u64) -> (r: Result<u16, NatError>)
        requires
            old(self).wf(),
        ensures
            final(self).wf(),
            final(self).udp == old(self).udp,
            registered(old(self).tcp, src, dst, now, final(self).tcp, r),
    {
        self.tcp.register(src, dst, now)
    }

    /// Registers a UDP flow. See `SessionTable::register`.
    pub fn register_udp(&mut self, src: SockAddr, dst: SockAddr, now: u64) -> (r: Result<u16, NatError>)
        requires
            old(self).wf(),
        ensures
            final(self).wf(),
            final(self).tcp == old(self).tcp,
            registered(old(self).udp, src, dst, now, final(self).udp, r),
    {
        self.udp.register(src, dst, now)
    }

    /// The TCP session that the port stands for: its two ends and its
    /// indicator.
    pub fn lookup_tcp(&self, port: u16) -> (r: Option<(SockAddr, SockAddr, u8)>)
        ensures
            match r {
                Some(found) => exists|i: int|
                    0 <= i < self.tcp.entries@.len() && (#[trigger] self.tcp.entries@[i]).port == port && found
                        == (self.tcp.entries@[i].src, self.tcp.entries@[i].dst, self.tcp.entries@[i].indicator),
                None => !port_used(self.tcp.entries@, port as int),
            },
    {
        match self.tcp.position(port) {
            Some(i) => {
                let s = self.tcp.entries[i];
                Some((s.src, s.dst, s.indicator))
            },
            None => None,
        }
    }

    /// The UDP session that the port stands for: its two ends and its
    /// indicator.
    pub fn lookup_udp(&self, port: u16) -> (r: Option<(SockAddr, SockAddr, u8)>)
        ensures
            match r {
                Some(found) => exists|i: int|
                    0 <= i < self.udp.entries@.len() && (#[trigger] self.udp.entries@[i]).port == port && found
                        == (self.udp.entries@[i].src, self.udp.entries@[i].dst, self.udp.entries@[i].indicator),
                None => !port_used(self.udp.entries@, port as int),
            },
    {
        match self.udp.position(port) {
            Some(i) => {
                let s = self.udp.entries[i];
                Some((s.src, s.dst, s.indicator))
            },
            None => None,
        }
    }

    /// Reaps the sessions that are to be reaped at `now`. See
    /// `SessionTable::flush`.
    pub fn flush(&mut self, now: u64)
        requires
            old(self).wf(),
        ensures
            final(self).wf(),
            final(self).tcp.entries@ == kept(
                old(self).tcp.entries@,
                now,
                old(self).tcp.grace,
                None,
                old(self).tcp.entries@.len() as int,
            ),
            final(self).udp.entries@ == kept(
                old(self).udp.entries@,
                now,
                old(self).udp.grace,
                old(self).udp.idle_timeout,
                old(self).udp.entries@.len() as int,
            ),
    {
        self.tcp.flush(now);
        self.udp.flush(now);
    }
}

/// Whether `after` and `r` are what registering the flow in `before` gives.
pub open spec fn registered(
    before: SessionTable,
    src: SockAddr,
    dst: SockAddr,
    now: u64,
    after: SessionTable,
    r: Result<u16, NatError>,
) -> bool {
    match r {
        Ok(port) => {
            if exists|i: int| is_live_at(before.entries@, src, dst, i) {
                exists|i: int|
                    {
                        &&& #[trigger] is_live_at(before.entries@, src, dst, i)
                        &&& port == before.entries@[i].port
                        &&& after.entries@ == before.entries@.update(
                            i,
                            Session { last_seen: now, ..before.entries@[i] },
                        )
                    }
            } else {
                &&& is_least_free(before.entries@, before.lo, before.hi, port as int)
                &&& after.entries@ == before.entries@.push(
                    Session { src, dst, port, indicator: INITIAL_INDICATOR, last_seen: now, zero_since: None },
                )
            }
        },
        Err(e) => {
            &&& e == NatError::PortExhausted
            &&& after.entries@ == before.entries@
            &&& forall|i: int| !is_live_at(before.entries@, src, dst, i)
            &&& forall|p: int| before.lo <= p <= before.hi ==> port_used(before.entries@, p)
        },
    }
}

/// A session that is found by its port has that port, and is the only one
/// with it: sessions with distinct places have distinct ports.
pub proof fn nat_bijection(t: SessionTable, i: int, j: int)
    requires
        t.wf(),
        0 <= i < t.entries@.len(),
        0 <= j < t.entries@.len(),
    ensures
        t.entries@[i].port == t.entries@[j].port ==> i == j,
        t.entries@[i].alive() && t.entries@[j].alive() && t.entries@[i].joins(
            t.entries@[j].src,
            t.entries@[j].dst,
        ) ==> i == j,
{
    if i < j {
        assert(t.entries@[i].port != t.entries@[j].port);
    } else if j < i {
        assert(t.entries@[j].port != t.entries@[i].port);
    }
}

/// The indicator of a session only goes down: neither the loss of an end,
/// nor a sighting, nor another registration of its flow, raises it.
pub proof fn indicator_monotone(s: Session, port: u16, now: u64)
    ensures
        released(s, port, now).indicator <= s.indicator,
        (Session { last_seen: now, ..s }).indicator == s.indicator,
        closed(s, port, now).indicator <= s.indicator,
        released(s, port, now).port == s.port,
        released(s, port, now).joins(s.src, s.dst),
{
}

/// A session whose indicator reached zero is reaped by every flush that
/// comes more than the grace period later.
pub proof fn reap_liveness(entries: Seq<Session>, now: u64, grace: u64, idle: Option<u64>, i: int)
    requires
        0 <= i < entries.len(),
        ports_distinct(entries),
        entries[i].zero_since matches Some(t) && now - t > grace,
    ensures
        !port_used(kept(entries, now, grace, idle, entries.len() as int), entries[i].port as int),
{
    let out = kept(entries, now, grace, idle, entries.len() as int);
    kept_is_part(entries, now, grace, idle, entries.len() as int);
    if port_used(out, entries[i].port as int) {
        let k = choose|k: int| 0 <= k < out.len() && (#[trigger] out[k]).port == entries[i].port;
        let j = choose|j: int| 0 <= j < entries.len() && entries[j] == out[k];
        if j < i {
            assert(entries[j].port != entries[i].port);
        } else if i < j {
            assert(entries[i].port != entries[j].port);
        }
    }
}

} // verus!
