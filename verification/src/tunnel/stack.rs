//! What the loop of a tunnel decides: local ports, and what becomes of connections.

use vstd::prelude::*;
use crate::bytes::sub_vec;

verus! {

/// The first local port.
pub const FIRST_PORT: u16 = 49152;

/// The size of the buffers of a connection.
pub const BUFFER_SIZE: usize = 524_288;

/// Hands out local ports, one after the other; after the last comes the first.
#[derive(Clone, Copy, Debug, PartialEq, Eq, Structural)]
pub struct Ports {
    next: u16,
}

impl Ports {
    /// The port that comes next.
    pub closed spec fn upcoming(self) -> u16 {
        self.next
    }

    #[verifier::type_invariant]
    spec fn well_formed(self) -> bool {
        self.next >= FIRST_PORT
    }

    pub fn new() -> (p: Ports)
        ensures
            p.upcoming() == FIRST_PORT,
    {
        Ports { next: FIRST_PORT }
    }

    /// The next port, which is never below the first.
    pub fn take(&mut self) -> (port: u16)
        ensures
            port == old(self).upcoming(),
            port >= FIRST_PORT,
            final(self).upcoming() == if port == u16::MAX {
                FIRST_PORT
            } else {
                (port + 1) as u16
            },
    {
        proof {
            use_type_invariant(&*self);
        }
        let port: u16 = self.next;
        self.next = if port == u16::MAX {
            FIRST_PORT
        } else {
            port + 1
        };
        port
    }
}

/// The state of a TCP connection, as far as it matters here.
#[derive(Clone, Copy, Debug, PartialEq, Eq, Structural)]
pub enum TcpPhase {
    Established,
    /// Closed, or waiting for late packets.
    Over,
    /// Anything else.
    Underway,
}

/// What becomes of a connection that was asked for.
#[derive(Clone, Copy, Debug, PartialEq, Eq, Structural)]
pub enum PendingStep {
    /// Hand it out.
    Promote,
    /// Tell that it was refused.
    Refuse,
    Wait,
}

/// What a refused connection is told.
pub const REFUSED: &'static str = "connection refused or timed out";

/// What becomes of a connection that was asked for.
pub fn pending_step(phase: TcpPhase) -> (step: PendingStep)
    ensures
        step == match phase {
            TcpPhase::Established => PendingStep::Promote,
            TcpPhase::Over => PendingStep::Refuse,
            TcpPhase::Underway => PendingStep::Wait,
        },
{
    match phase {
        TcpPhase::Established => PendingStep::Promote,
        TcpPhase::Over => PendingStep::Refuse,
        TcpPhase::Underway => PendingStep::Wait,
    }
}

/// Whether a connection is removed: when it is over and all that came in was read.
pub fn is_finished(phase: TcpPhase, can_recv: bool) -> (yes: bool)
    ensures
        yes == (phase == TcpPhase::Over && !can_recv),
{
    match phase {
        TcpPhase::Over => !can_recv,
        _ => false,
    }
}

/// The bridge between a connection and the pipe of its user: what came in while the
/// pipe was full.
#[derive(Debug)]
pub struct Bridge {
    held: Vec<u8>,
}

/// What came of reading from the pipe.
#[derive(Clone, Copy, Debug, PartialEq, Eq, Structural)]
pub enum PipeRead {
    /// So many bytes.
    Got(usize),
    /// Nothing for now.
    WouldBlock,
    Failed,
}

/// What to do with what was read from the pipe.
#[derive(Clone, Copy, Debug, PartialEq, Eq, Structural)]
pub enum OutStep {
    Send(usize),
    /// Close the connection and stop.
    Close,
    Stop,
}

/// One turn of a bridge.
pub enum Turn {
    /// The pipe took so many of the bytes that were held.
    Flushed(nat),
    /// Bytes came in, and the pipe took so many of them.
    Received(Seq<u8>, nat),
}

/// Whether a bridge that holds some bytes can take a turn: nothing is received while
/// something is held, and the pipe takes no more than it is offered.
pub open spec fn can_turn(waiting: Seq<u8>, turn: Turn) -> bool {
    match turn {
        Turn::Flushed(n) => n <= waiting.len(),
        Turn::Received(bytes, n) => waiting.len() == 0 && n <= bytes.len(),
    }
}

/// What a turn offers to the pipe, and how much of it the pipe takes.
pub open spec fn offered(waiting: Seq<u8>, turn: Turn) -> (Seq<u8>, nat) {
    match turn {
        Turn::Flushed(n) => (waiting, n),
        Turn::Received(bytes, n) => (bytes, n),
    }
}

/// What a bridge holds after a turn, and whether the pipe took all that was offered.
pub open spec fn bridge_step(waiting: Seq<u8>, turn: Turn) -> (Seq<u8>, bool) {
    let (bytes, n) = offered(waiting, turn);
    (bytes.skip(n as int), n == bytes.len())
}

impl Bridge {
    /// What came in and was not passed on.
    pub closed spec fn waiting(self) -> Seq<u8> {
        self.held@
    }

    pub fn new() -> (b: Bridge)
        ensures
            b.waiting() == Seq::<u8>::empty(),
    {
        let held: Vec<u8> = Vec::new();
        assert(held@ =~= Seq::<u8>::empty());
        Bridge { held }
    }

    /// What has to be passed on before anything else.
    pub fn held(&self) -> (bytes: &[u8])
        ensures
            bytes@ == self.waiting(),
    {
        self.held.as_slice()
    }

    /// Notes how many of the bytes that are held the pipe has taken. Returns whether the
    /// connection has a turn: not before the pipe has taken all of them.
    pub fn flushed(&mut self, written: usize) -> (turn: bool)
        requires
            can_turn(old(self).waiting(), Turn::Flushed(written as nat)),
        ensures
            (final(self).waiting(), turn) == bridge_step(
                old(self).waiting(),
                Turn::Flushed(written as nat),
            ),
    {
        let n: usize = self.held.len();
        let rest: Vec<u8> = sub_vec(self.held.as_slice(), written, n);
        assert(rest@ =~= old(self).waiting().skip(written as int));
        self.held = rest;
        written == n
    }

    /// Notes how many of the bytes that came in the pipe has taken, when nothing is held:
    /// the others are. Returns whether to ask for more.
    pub fn received(&mut self, bytes: &[u8], written: usize) -> (more: bool)
        requires
            can_turn(old(self).waiting(), Turn::Received(bytes@, written as nat)),
        ensures
            (final(self).waiting(), more) == bridge_step(
                old(self).waiting(),
                Turn::Received(bytes@, written as nat),
            ),
    {
        let n: usize = bytes.len();
        assert(bytes@.len() == n);
        let rest: Vec<u8> = sub_vec(bytes, written, n);
        assert(rest@ =~= bytes@.skip(written as int));
        self.held = rest;
        written == n
    }

    /// What to do with what was read from the pipe: its end closes the connection, and
    /// so does a failure.
    pub fn outgoing(read: PipeRead) -> (step: OutStep)
        ensures
            step == match read {
                PipeRead::Got(n) => if n == 0 {
                    OutStep::Close
                } else {
                    OutStep::Send(n)
                },
                PipeRead::WouldBlock => OutStep::Stop,
                PipeRead::Failed => OutStep::Close,
            },
    {
        match read {
            PipeRead::Got(n) => if n == 0 {
                OutStep::Close
            } else {
                OutStep::Send(n)
            },
            PipeRead::WouldBlock => OutStep::Stop,
            PipeRead::Failed => OutStep::Close,
        }
    }
}

/// What has gone through a bridge: all that came in, all that went out into the pipe, and
/// what is held.
pub struct Flow {
    pub came: Seq<u8>,
    pub went: Seq<u8>,
    pub waiting: Seq<u8>,
}

impl Flow {
    /// After a turn of the bridge.
    pub open spec fn after(self, turn: Turn) -> Flow {
        let (bytes, n) = offered(self.waiting, turn);
        Flow {
            came: match turn {
                Turn::Flushed(_) => self.came,
                Turn::Received(fresh, _) => self.came + fresh,
            },
            went: self.went + bytes.take(n as int),
            waiting: bridge_step(self.waiting, turn).0,
        }
    }
}

/// What has gone through a new bridge after some turns, as long as each could be taken.
pub open spec fn flow_of(turns: Seq<Turn>) -> Option<Flow>
    decreases turns.len(),
{
    if turns.len() == 0 {
        Some(Flow { came: Seq::empty(), went: Seq::empty(), waiting: Seq::empty() })
    } else {
        match flow_of(turns.drop_last()) {
            Some(f) if can_turn(f.waiting, turns.last()) => Some(f.after(turns.last())),
            _ => None,
        }
    }
}

/// What went out, followed by what waits, is what came in: nothing is lost, repeated or
/// out of order, wherever the pipe stopped taking bytes.
pub proof fn lemma_nothing_lost(turns: Seq<Turn>)
    ensures
        flow_of(turns) matches Some(f) ==> f.went + f.waiting == f.came,
    decreases turns.len(),
{
    if turns.len() > 0 {
        lemma_nothing_lost(turns.drop_last());
        if let Some(f) = flow_of(turns.drop_last()) {
            if can_turn(f.waiting, turns.last()) {
                let g = f.after(turns.last());
                assert(g.went + g.waiting =~= g.came);
            }
        }
    } else {
        let none = Seq::<u8>::empty();
        assert(none + none =~= none);
    }
}

/// A turn passes on what is held before anything that comes in, keeps what the pipe did
/// not take, and asks for more exactly if nothing is left.
pub proof fn lemma_turns(waiting: Seq<u8>, turn: Turn)
    requires
        can_turn(waiting, turn),
    ensures
        ({
            let (kept, all) = bridge_step(waiting, turn);
            &&& all <==> kept.len() == 0
            &&& turn matches Turn::Flushed(n) ==> waiting == waiting.take(n as int) + kept
            &&& turn matches Turn::Received(bytes, n) ==> waiting.len() == 0 && bytes == bytes.take(
                n as int,
            ) + kept
        }),
{
    let (kept, all) = bridge_step(waiting, turn);
    match turn {
        Turn::Flushed(n) => {
            assert(waiting =~= waiting.take(n as int) + kept);
        },
        Turn::Received(bytes, n) => {
            assert(bytes =~= bytes.take(n as int) + kept);
        },
    }
}

/// Local ports are taken from the range for private use, which starts at 49152.
pub proof fn lemma_first_port()
    ensures
        FIRST_PORT == 0xc000,
        BUFFER_SIZE == 512 * 1024,
{
}

} // verus!
