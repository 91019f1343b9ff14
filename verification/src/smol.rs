//! The tasks of the userspace IP stack: what each socket still has to send,
//! which datagrams it takes, and which ports are in use.
//!
//! Sockets, channels and the clock are the caller's. The caller asks a task
//! what to do, does it, and tells the task how it went.

use crate::addr::SockAddr;
use crate::trusted::{
    tasks, tasks_contains, tasks_insert, tasks_new, tasks_ports, tasks_remove,
};
use dashmap::DashMap;
use vstd::prelude::*;

verus! {

/// The size of the buffers of a socket, in bytes.
pub const MAX_PKT_SIZE: usize = 65576;

/// Why an operation of the stack failed.
#[derive(Clone, Copy, Debug, PartialEq, Eq, Structural)]
pub enum StackError {
    /// The port already has a task.
    AddrInUse,
    /// The socket could not be connected or bound.
    ConnectionRefused,
    /// The socket refused the data, or the application is gone.
    ConnectionAborted,
}

/// What came of asking the application for data to send.
#[derive(Debug)]
pub enum Incoming {
    Data(Vec<u8>),
    /// The application has nothing to send now.
    Empty,
    /// The application is gone.
    Disconnected,
}

/// What a TCP task asks for before it sends.
#[derive(Clone, Copy, Debug, PartialEq, Eq, Structural)]
pub enum Want {
    /// The socket cannot send.
    Nothing,
    /// Offer the socket what is left of the last buffer.
    Resend,
    /// Ask the application for a buffer.
    Fetch,
}

/// The task of a TCP socket.
#[derive(Debug)]
pub struct TcpConnTask {
    /// The handle of the socket.
    pub handle: usize,
    /// A buffer of which the socket took only a part, with the position of
    /// the first byte that it did not take.
    pub remain_to_send: Option<(Vec<u8>, usize)>,
}

/// The task of a UDP socket.
#[derive(Debug)]
pub struct UdpConnTask {
    /// The handle of the socket.
    pub handle: usize,
    /// The only endpoint that datagrams are taken from.
    pub dest: SockAddr,
    /// When a datagram was last sent or taken, in milliseconds.
    pub last_active: u64,
}

/// The task of a socket.
#[derive(Debug)]
pub enum ConnTask {
    Tcp(TcpConnTask),
    Udp(UdpConnTask),
}

impl TcpConnTask {
    /// Whether the position in the buffer that is left lies within it.
    pub open spec fn wf(&self) -> bool {
        match self.remain_to_send {
            Some((buf, start)) => start <= buf@.len(),
            None => true,
        }
    }

    /// The bytes that the application handed over and the socket has not
    /// taken yet.
    pub open spec fn unsent(&self) -> Seq<u8> {
        match self.remain_to_send {
            Some((buf, start)) => buf@.skip(start as int),
            None => Seq::empty(),
        }
    }

    /// The task of the socket with the handle, with nothing left to send.
    pub fn new(handle: usize) -> (t: TcpConnTask)
        ensures
            t.wf(),
            t.handle == handle,
            t.remain_to_send is None,
    {
        TcpConnTask { handle, remain_to_send: None }
    }

    /// What to do before sending: what is left of the last buffer goes
    /// first.
    pub fn try_send(&self, can_send: bool) -> (w: Want)
        ensures
            w == if !can_send {
                Want::Nothing
            } else if self.remain_to_send is Some {
                Want::Resend
            } else {
                Want::Fetch
            },
    {
        if !can_send {
            Want::Nothing
        } else if self.remain_to_send.is_some() {
            Want::Resend
        } else {
            Want::Fetch
        }
    }

    /// Takes what the application gave. Data is kept to be offered to the
    /// socket. Returns whether there is something to offer.
    pub fn fetched(&mut self, incoming: Incoming) -> (r: Result<bool, StackError>)
        requires
            old(self).wf(),
            old(self).remain_to_send is None,
        ensures
            final(self).wf(),
            final(self).handle == old(self).handle,
            match incoming {
                Incoming::Data(buf) => r == Ok::<bool, StackError>(true) && final(self).unsent() == buf@,
                Incoming::Empty => r == Ok::<bool, StackError>(false) && final(self).remain_to_send is None,
                Incoming::Disconnected => r == Err::<bool, StackError>(StackError::ConnectionAborted)
                    && final(self).remain_to_send is None,
            },
    {
        match incoming {
            Incoming::Data(buf) => {
                self.remain_to_send = Some((buf, 0));
                Ok(true)
            },
            Incoming::Empty => Ok(false),
            Incoming::Disconnected => Err(StackError::ConnectionAborted),
        }
    }

    /// A copy of the bytes to offer to the socket.
    pub fn pending(&self) -> (r: Vec<u8>)
        requires
            self.wf(),
        ensures
            r@ == self.unsent(),
    {
        match &self.remain_to_send {
            Some((buf, start)) => crate::text::copy_range(buf.as_slice(), *start, buf.len()),
            None => Vec::new(),
        }
    }

    /// Takes what came of offering the pending bytes to the socket: the
    /// number of bytes that it took, or nothing where it refused. What the
    /// socket did not take is kept, in order, for the next time; a refusal
    /// gives up the buffer. Returns whether there was activity.
    pub fn sent(&mut self, taken: Option<usize>) -> (r: Result<bool, StackError>)
        requires
            old(self).wf(),
        ensures
            final(self).wf(),
            final(self).handle == old(self).handle,
            match taken {
                Some(n) => r == Ok::<bool, StackError>(true) && final(self).unsent() == if n <= old(self).unsent().len() {
                    old(self).unsent().skip(n as int)
                } else {
                    Seq::<u8>::empty()
                },
                None => r == Err::<bool, StackError>(StackError::ConnectionAborted) && final(self).remain_to_send is None,
            },
            final(self).unsent().len() == 0 ==> final(self).remain_to_send is None,
    {
        let remain = self.remain_to_send.take();
        match taken {
            Some(n) => {
                match remain {
                    Some((buf, start)) => {
                        if n < buf.len() - start {
                            assert(buf@.skip(start + n) =~= buf@.skip(start as int).skip(n as int));
                            self.remain_to_send = Some((buf, start + n));
                        } else {
                            assert(n == buf@.len() - start ==> buf@.skip(start as int).skip(n as int)
                                =~= Seq::<u8>::empty());
                        }
                    },
                    None => {
                        assert(Seq::<u8>::empty().skip(0) =~= Seq::<u8>::empty());
                    },
                }
                Ok(true)
            },
            None => Err(StackError::ConnectionAborted),
        }
    }

    /// Whether to take data from the socket: only where it has some and the
    /// application has room for it.
    pub fn try_recv(&self, can_recv: bool, capacity: usize) -> (b: bool)
        ensures
            b == (can_recv && capacity > 0),
    {
        can_recv && capacity > 0
    }
}

impl UdpConnTask {
    /// The task of the socket with the handle, made at the time `now`.
    pub fn new(handle: usize, dest: SockAddr, now: u64) -> (t: UdpConnTask)
        ensures
            t.handle == handle,
            t.dest == dest,
            t.last_active == now,
    {
        UdpConnTask { handle, dest, last_active: now }
    }

    /// Takes what came of handing a datagram of the application to the
    /// socket at the time `now`. Returns whether there was activity.
    pub fn try_send(&mut self, incoming: &Incoming, accepted: bool, now: u64) -> (r: Result<bool, StackError>)
        ensures
            final(self).handle == old(self).handle,
            final(self).dest == old(self).dest,
            match *incoming {
                Incoming::Data(_) => if accepted {
                    r == Ok::<bool, StackError>(true) && final(self).last_active == now
                } else {
                    r == Err::<bool, StackError>(StackError::ConnectionAborted) && final(self).last_active
                        == old(self).last_active
                },
                Incoming::Empty => r == Ok::<bool, StackError>(false) && final(self).last_active == old(self).last_active,
                Incoming::Disconnected => r == Err::<bool, StackError>(StackError::ConnectionAborted)
                    && final(self).last_active == old(self).last_active,
            },
    {
        match incoming {
            Incoming::Data(_) => {
                if accepted {
                    self.last_active = now;
                    Ok(true)
                } else {
                    Err(StackError::ConnectionAborted)
                }
            },
            Incoming::Empty => Ok(false),
            Incoming::Disconnected => Err(StackError::ConnectionAborted),
        }
    }

    /// Whether a datagram from `from`, which arrived at the time `now`, is
    /// taken. One from another endpoint is dropped, and does not count as
    /// activity.
    pub fn try_recv(&mut self, from: SockAddr, now: u64) -> (taken: bool)
        ensures
            final(self).handle == old(self).handle,
            final(self).dest == old(self).dest,
            taken == (from == old(self).dest),
            final(self).last_active == if taken {
                now
            } else {
                old(self).last_active
            },
    {
        if from == self.dest {
            self.last_active = now;
            true
        } else {
            false
        }
    }

    /// Whether the task was idle for more than `timeout` at the time `now`.
    pub open spec fn idle(&self, now: u64, timeout: u64) -> bool {
        now - self.last_active > timeout
    }
}

/// The tasks of a stack, by their local port.
pub struct SmolStack {
    pub tcp_conn: DashMap<u16, ConnTask>,
    pub udp_conn: DashMap<u16, ConnTask>,
    pub udp_timeout: u64,
}

impl SmolStack {
    /// Whether the TCP ports hold TCP tasks, well formed, and the UDP ports
    /// UDP tasks.
    pub open spec fn wf(&self) -> bool {
        &&& forall|p: u16| #[trigger]
            tasks(self.tcp_conn).dom().contains(p) ==> tcp_wf(tasks(self.tcp_conn)[p])
        &&& forall|p: u16| #[trigger]
            tasks(self.udp_conn).dom().contains(p) ==> tasks(self.udp_conn)[p] is Udp
    }

    /// A stack without a task.
    pub fn new(udp_timeout: u64) -> (s: SmolStack)
        ensures
            s.wf(),
            tasks(s.tcp_conn) == Map::<u16, ConnTask>::empty(),
            tasks(s.udp_conn) == Map::<u16, ConnTask>::empty(),
            s.udp_timeout == udp_timeout,
    {
        SmolStack { tcp_conn: tasks_new(), udp_conn: tasks_new(), udp_timeout }
    }

    /// Gives the TCP port a task for the socket that the caller connected,
    /// or tried to connect.
    pub fn open_tcp(&mut self, local_port: u16, connected: Option<usize>) -> (r: Result<(), StackError>)
        requires
            old(self).wf(),
        ensures
            final(self).wf(),
            final(self).udp_conn == old(self).udp_conn,
            final(self).udp_timeout == old(self).udp_timeout,
            if tasks(old(self).tcp_conn).dom().contains(local_port) {
                r == Err::<(), StackError>(StackError::AddrInUse) && tasks(final(self).tcp_conn) == tasks(
                    old(self).tcp_conn,
                )
            } else {
                match connected {
                    Some(handle) => r == Ok::<(), StackError>(()) && exists|t: TcpConnTask|
                        t.handle == handle && t.remain_to_send is None && #[trigger] tasks(
                            final(self).tcp_conn,
                        ) == tasks(old(self).tcp_conn).insert(local_port, ConnTask::Tcp(t)),
                    None => r == Err::<(), StackError>(StackError::ConnectionRefused) && tasks(
                        final(self).tcp_conn,
                    ) == tasks(old(self).tcp_conn),
                }
            },
    {
        if tasks_contains(&self.tcp_conn, local_port) {
            return Err(StackError::AddrInUse);
        }
        match connected {
            Some(handle) => {
                let t = TcpConnTask::new(handle);
                tasks_insert(&mut self.tcp_conn, local_port, ConnTask::Tcp(t));
                Ok(())
            },
            None => Err(StackError::ConnectionRefused),
        }
    }

    /// Gives the UDP port a task for the socket that the caller bound, or
    /// tried to bind. The task takes datagrams from `remote` only.
    pub fn open_udp(&mut self, local_port: u16, remote: SockAddr, bound: Option<usize>, now: u64) -> (r:
        Result<(), StackError>)
        requires
            old(self).wf(),
        ensures
            final(self).wf(),
            final(self).tcp_conn == old(self).tcp_conn,
            final(self).udp_timeout == old(self).udp_timeout,
            if tasks(old(self).udp_conn).dom().contains(local_port) {
                r == Err::<(), StackError>(StackError::AddrInUse) && tasks(final(self).udp_conn) == tasks(
                    old(self).udp_conn,
                )
            } else {
                match bound {
                    Some(handle) => r == Ok::<(), StackError>(()) && tasks(final(self).udp_conn) == tasks(
                        old(self).udp_conn,
                    ).insert(
                        local_port,
                        ConnTask::Udp(UdpConnTask { handle, dest: remote, last_active: now }),
                    ),
                    None => r == Err::<(), StackError>(StackError::ConnectionRefused) && tasks(
                        final(self).udp_conn,
                    ) == tasks(old(self).udp_conn),
                }
            },
    {
        if tasks_contains(&self.udp_conn, local_port) {
            return Err(StackError::AddrInUse);
        }
        match bound {
            Some(handle) => {
                let t = UdpConnTask::new(handle, remote, now);
                tasks_insert(&mut self.udp_conn, local_port, ConnTask::Udp(t));
                Ok(())
            },
            None => Err(StackError::ConnectionRefused),
        }
    }

    /// Removes the tasks of the TCP ports whose sockets the caller found
    /// closed, and returns the handles of their sockets.
    pub fn purge_closed_tcp(&mut self, closed: &Vec<u16>) -> (handles: Vec<usize>)
        requires
            old(self).wf(),
        ensures
            final(self).wf(),
            final(self).udp_conn == old(self).udp_conn,
            final(self).udp_timeout == old(self).udp_timeout,
            tasks(final(self).tcp_conn) == tasks(old(self).tcp_conn).remove_keys(closed@.to_set()),
            forall|h: usize|
                handles@.contains(h) ==> exists|p: u16| #[trigger]
                    closed@.contains(p) && tasks(old(self).tcp_conn).dom().contains(p) && task_handle(
                        tasks(old(self).tcp_conn)[p],
                    ) == h,
            forall|p: u16| #[trigger]
                closed@.contains(p) && tasks(old(self).tcp_conn).dom().contains(p) ==> handles@.contains(
                    task_handle(tasks(old(self).tcp_conn)[p]),
                ),
    {
        let ghost before = tasks(self.tcp_conn);
        let mut handles: Vec<usize> = Vec::new();
        let mut i: usize = 0;
        assert(before.remove_keys(closed@.subrange(0, 0).to_set()) =~= before);
        while i < closed.len()
            invariant
                i <= closed@.len(),
                self.wf(),
                self.udp_conn == old(self).udp_conn,
                self.udp_timeout == old(self).udp_timeout,
                before == tasks(old(self).tcp_conn),
                tasks(self.tcp_conn) == before.remove_keys(closed@.subrange(0, i as int).to_set()),
                forall|h: usize|
                    handles@.contains(h) ==> exists|p: u16| #[trigger]
                        closed@.contains(p) && before.dom().contains(p) && task_handle(before[p]) == h,
                forall|p: u16| #[trigger]
                    closed@.subrange(0, i as int).contains(p) && before.dom().contains(p)
                        ==> handles@.contains(task_handle(before[p])),
            decreases closed@.len() - i,
        {
            let port = closed[i];
            let ghost seen = closed@.subrange(0, i as int);
            let ghost now_seen = closed@.subrange(0, i + 1);
            let ghost old_handles = handles@;
            assert(now_seen =~= seen.push(port));
            assert(now_seen.to_set() =~= seen.to_set().insert(port)) by {
                assert forall|x: u16| now_seen.to_set().contains(x) <==> seen.to_set().insert(port).contains(
                    x,
                ) by {
                    if now_seen.contains(x) {
                        let k = choose|k: int| 0 <= k < now_seen.len() && now_seen[k] == x;
                        if k < i {
                            assert(seen[k] == x);
                        }
                    }
                    if seen.contains(x) {
                        let k = choose|k: int| 0 <= k < seen.len() && seen[k] == x;
                        assert(now_seen[k] == x);
                    }
                    if x == port {
                        assert(now_seen[i as int] == x);
                    }
                }
            }
            let ghost current = tasks(self.tcp_conn);
            match tasks_remove(&mut self.tcp_conn, port) {
                Some(ConnTask::Tcp(t)) => {
                    handles.push(t.handle);
                    assert(handles@[old_handles.len() as int] == t.handle);
                    assert(closed@[i as int] == port);
                    assert(before[port] == ConnTask::Tcp(t));
                },
                Some(ConnTask::Udp(_)) => {
                    assert(tcp_wf(current[port]));
                },
                None => {},
            }
            proof {
                assert(tasks(self.tcp_conn) =~= before.remove_keys(now_seen.to_set()));
                assert forall|h: usize| handles@.contains(h) implies exists|p: u16| #[trigger]
                    closed@.contains(p) && before.dom().contains(p) && task_handle(before[p]) == h by {
                    let k = choose|k: int| 0 <= k < handles@.len() && handles@[k] == h;
                    if k < old_handles.len() {
                        assert(old_handles[k] == h);
                        assert(old_handles.contains(h));
                    } else {
                        assert(closed@.contains(port) && before.dom().contains(port));
                    }
                }
                assert forall|p: u16| #[trigger]
                    now_seen.contains(p) && before.dom().contains(p) implies handles@.contains(
                    task_handle(before[p]),
                ) by {
                    let h = task_handle(before[p]);
                    if seen.contains(p) {
                        let k = choose|k: int| 0 <= k < old_handles.len() && old_handles[k] == h;
                        assert(handles@[k] == h);
                    } else {
                        let k = choose|k: int| 0 <= k < now_seen.len() && now_seen[k] == p;
                        if k < i {
                            assert(seen[k] == p);
                        }
                        assert(p == port);
                        assert(current.dom().contains(port));
                        assert(tcp_wf(current[port]));
                        assert(handles@[old_handles.len() as int] == h);
                    }
                }
            }
            i += 1;
        }
        assert(closed@.subrange(0, closed@.len() as int) =~= closed@);
        handles
    }

    /// Removes the tasks of the UDP ports that were idle for more than the
    /// timeout at the time `now`, and returns the handles of their sockets.
    pub fn purge_timeout_udp(&mut self, now: u64) -> (handles: Vec<usize>)
        requires
            old(self).wf(),
        ensures
            final(self).wf(),
            final(self).tcp_conn == old(self).tcp_conn,
            final(self).udp_timeout == old(self).udp_timeout,
            forall|p: u16|
                tasks(final(self).udp_conn).dom().contains(p) <==> #[trigger] tasks(
                    old(self).udp_conn,
                ).dom().contains(p) && !udp_idle(tasks(old(self).udp_conn)[p], now, old(self).udp_timeout),
            forall|p: u16| #[trigger]
                tasks(final(self).udp_conn).dom().contains(p) ==> tasks(final(self).udp_conn)[p] == tasks(
                    old(self).udp_conn,
                )[p],
            forall|p: u16| #[trigger]
                tasks(old(self).udp_conn).dom().contains(p) && udp_idle(
                    tasks(old(self).udp_conn)[p],
                    now,
                    old(self).udp_timeout,
                ) ==> handles@.contains(task_handle(tasks(old(self).udp_conn)[p])),
            forall|h: usize|
                handles@.contains(h) ==> exists|p: u16| #[trigger]
                    tasks(old(self).udp_conn).dom().contains(p) && udp_idle(
                        tasks(old(self).udp_conn)[p],
                        now,
                        old(self).udp_timeout,
                    ) && task_handle(tasks(old(self).udp_conn)[p]) == h,
    {
        let ghost before = tasks(self.udp_conn);
        let ports = tasks_ports(&self.udp_conn);
        let mut handles: Vec<usize> = Vec::new();
        let mut i: usize = 0;
        while i < ports.len()
            invariant
                i <= ports@.len(),
                self.wf(),
                self.tcp_conn == old(self).tcp_conn,
                self.udp_timeout == old(self).udp_timeout,
                before == tasks(old(self).udp_conn),
                forall|p: u16| ports@.contains(p) <==> #[trigger] before.dom().contains(p),
                forall|a: int, b: int| 0 <= a < b < ports@.len() ==> ports@[a] != ports@[b],
                forall|p: u16|
                    tasks(self.udp_conn).dom().contains(p) <==> #[trigger] before.dom().contains(p) && !(
                    ports@.subrange(0, i as int).contains(p) && udp_idle(before[p], now, self.udp_timeout)),
                forall|p: u16| #[trigger]
                    tasks(self.udp_conn).dom().contains(p) ==> tasks(self.udp_conn)[p] == before[p],
                forall|p: u16| #[trigger]
                    ports@.subrange(0, i as int).contains(p) && udp_idle(before[p], now, self.udp_timeout)
                        ==> handles@.contains(task_handle(before[p])),
                forall|h: usize|
                    handles@.contains(h) ==> exists|p: u16| #[trigger]
                        before.dom().contains(p) && udp_idle(before[p], now, self.udp_timeout)
                            && task_handle(before[p]) == h,
            decreases ports@.len() - i,
        {
            let port = ports[i];
            let ghost at = i as int;
            let ghost seen = ports@.subrange(0, i as int);
            let ghost old_handles = handles@;
            assert(ports@[at] == port);
            assert(ports@.contains(port));
            assert(before.dom().contains(port));
            assert(!seen.contains(port)) by {
                if seen.contains(port) {
                    let k = choose|k: int| 0 <= k < seen.len() && seen[k] == port;
                    assert(ports@[k] != ports@[at]);
                }
            }
            assert(tasks(self.udp_conn).dom().contains(port));
            i += 1;
            let ghost now_seen = ports@.subrange(0, i as int);
            assert(now_seen =~= seen.push(port));
            match tasks_remove(&mut self.udp_conn, port) {
                Some(ConnTask::Udp(t)) => {
                    if now > t.last_active && now - t.last_active > self.udp_timeout {
                        handles.push(t.handle);
                        assert(handles@[old_handles.len() as int] == t.handle);
                    } else {
                        tasks_insert(&mut self.udp_conn, port, ConnTask::Udp(t));
                    }
                },
                Some(other) => {
                    tasks_insert(&mut self.udp_conn, port, other);
                },
                None => {},
            }
            proof {
                assert forall|p: u16|
                    tasks(self.udp_conn).dom().contains(p) <==> #[trigger] before.dom().contains(p) && !(
                    ports@.subrange(0, i as int).contains(p) && udp_idle(before[p], now, self.udp_timeout)) by {
                    if now_seen.contains(p) && p != port {
                        let k = choose|k: int| 0 <= k < now_seen.len() && now_seen[k] == p;
                        assert(seen[k] == p);
                    }
                    if seen.contains(p) {
                        let k = choose|k: int| 0 <= k < seen.len() && seen[k] == p;
                        assert(now_seen[k] == p);
                    }
                    if p == port {
                        assert(now_seen[at] == p);
                    }
                }
                assert forall|h: usize| handles@.contains(h) implies exists|p: u16| #[trigger]
                    before.dom().contains(p) && udp_idle(before[p], now, self.udp_timeout) && task_handle(
                        before[p],
                    ) == h by {
                    let k = choose|k: int| 0 <= k < handles@.len() && handles@[k] == h;
                    if k < old_handles.len() {
                        assert(old_handles[k] == h);
                        assert(old_handles.contains(h));
                    } else {
                        assert(before.dom().contains(port) && udp_idle(before[port], now, self.udp_timeout));
                    }
                }
                assert forall|p: u16| #[trigger]
                    ports@.subrange(0, i as int).contains(p) && udp_idle(before[p], now, self.udp_timeout) implies handles@.contains(
                    task_handle(before[p]),
                ) by {
                    if p != port {
                        let k = choose|k: int| 0 <= k < now_seen.len() && now_seen[k] == p;
                        assert(seen[k] == p);
                        assert(seen.contains(p));
                        let h = task_handle(before[p]);
                        assert(old_handles.contains(h));
                        let j = choose|j: int| 0 <= j < old_handles.len() && old_handles[j] == h;
                        assert(handles@[j] == h);
                    } else {
                        assert(handles@[old_handles.len() as int] == task_handle(before[p]));
                    }
                }
            }
        }
        assert(ports@.subrange(0, ports@.len() as int) =~= ports@);
        assert forall|p: u16|
            tasks(self.udp_conn).dom().contains(p) <==> #[trigger] before.dom().contains(p) && !udp_idle(
                before[p],
                now,
                self.udp_timeout,
            ) by {
            if before.dom().contains(p) {
                assert(ports@.contains(p));
            }
        }
        handles
    }
}

/// Whether the task is a TCP task that is well formed.
pub open spec fn tcp_wf(t: ConnTask) -> bool {
    match t {
        ConnTask::Tcp(t) => t.wf(),
        ConnTask::Udp(_) => false,
    }
}

/// The handle of the socket of a task.
pub open spec fn task_handle(t: ConnTask) -> usize {
    match t {
        ConnTask::Tcp(t) => t.handle,
        ConnTask::Udp(t) => t.handle,
    }
}

/// Whether the task is a UDP task that was idle for more than `timeout` at
/// the time `now`.
pub open spec fn udp_idle(t: ConnTask, now: u64, timeout: u64) -> bool {
    match t {
        ConnTask::Udp(t) => t.idle(now, timeout),
        ConnTask::Tcp(_) => false,
    }
}

} // verus!
