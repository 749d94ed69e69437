//! What the relays decide between two reads or writes, and when a gateway
//! connects again.
use crate::accel::{
    deflated, seal_outcome, sealable, sealed_len, AccelError, PayloadAccelerator,
};
use crate::framed::{
    concatenated, frames_read_back_in_order, framed_as, is_frame, payloads, write_frame, Frame,
    HEADER_RANGE,
};
use vstd::prelude::*;
use vstd::slice::slice_subrange;

verus! {

/// The most that a relay reads at once.
pub const CHUNK_SIZE: usize = 16_384;

/// What is to be done with the bytes that were read from the local side.
pub enum ChunkStep {
    /// The local side has closed: this direction is over.
    End,
    /// Write this frame to the tunnel.
    Send(Frame),
    /// The bytes cannot be sealed.
    Fail(AccelError),
}

impl ChunkStep {
    /// The frame or the error, where there is one.
    pub open spec fn outcome(self) -> Option<Result<Frame, AccelError>> {
        match self {
            ChunkStep::End => None,
            ChunkStep::Send(frame) => Some(Ok(frame)),
            ChunkStep::Fail(error) => Some(Err(error)),
        }
    }
}

/// Decides what becomes of the `n` bytes at the head of `buf` that a read from
/// the local side has filled. No bytes stand for the end of the stream.
pub fn relay_chunk(accel: &PayloadAccelerator, buf: &[u8], n: usize) -> (res: ChunkStep)
    requires
        n <= buf@.len(),
    ensures
        res is End <==> n == 0,
        res.outcome() matches Some(written) ==> exists|
            nonce: Seq<u8>,
            sealed: Result<Vec<u8>, AccelError>,
        |
            nonce.len() == 12 && #[trigger] seal_outcome(
                accel.key(),
                nonce,
                buf@.take(n as int),
                sealed,
            ) && framed_as(sealed, written),
        n > 0 ==> deflated(buf@.take(n as int)) is Some,
        res is Send <==> n > 0 && sealable(buf@.take(n as int)),
        res matches ChunkStep::Send(frame) ==> frame.body@.len() == sealed_len(buf@.take(n as int)),
        n > 0 && sealed_len(buf@.take(n as int)) < HEADER_RANGE && sealed_len(buf@.take(n as int))
            <= isize::MAX ==> (res matches ChunkStep::Send(frame) && is_frame(
            accel.key(),
            frame@,
            buf@.take(n as int),
        )),
{
    if n == 0 {
        return ChunkStep::End;
    }
    let chunk = slice_subrange(buf, 0, n);
    assert(chunk@ =~= buf@.take(n as int));
    match write_frame(accel, chunk) {
        Ok(frame) => ChunkStep::Send(frame),
        Err(error) => ChunkStep::Fail(error),
    }
}

/// The tunnel is transparent: the bytes that are read on one side, in whatever
/// chunks, are the bytes that are written on the other side.
pub proof fn relay_is_transparent(key: Seq<u8>, chunks: Seq<Seq<u8>>, frames: Seq<Seq<u8>>)
    requires
        frames.len() == chunks.len(),
        forall|i: int| 0 <= i < frames.len() ==> #[trigger] is_frame(key, frames[i], chunks[i]),
    ensures
        payloads(key, concatenated(frames)) matches Some(delivered) && concatenated(delivered)
            == concatenated(chunks),
{
    frames_read_back_in_order(key, frames, chunks);
}

/// What a gateway's client does.
#[derive(Debug, Clone, Copy, PartialEq, Eq, Structural)]
pub enum GatewayAction {
    /// Connect to the gateway.
    Connect,
    /// Relay packets until the connection ends.
    Relay,
    /// Wait before the next attempt.
    Wait,
}

impl GatewayAction {
    /// What follows when this is over.
    pub open spec fn next(self, succeeded: bool) -> GatewayAction {
        match self {
            GatewayAction::Connect => if succeeded {
                GatewayAction::Relay
            } else {
                GatewayAction::Wait
            },
            GatewayAction::Relay => GatewayAction::Wait,
            GatewayAction::Wait => GatewayAction::Connect,
        }
    }

    /// What a client begins with.
    pub fn first() -> (res: Self)
        ensures
            res == GatewayAction::Connect,
    {
        GatewayAction::Connect
    }

    /// What follows when this is over. A connection that could not be made and
    /// one that ended, in good order or not, are both tried again after a wait.
    pub fn after(self, succeeded: bool) -> (res: Self)
        ensures
            res == self.next(succeeded),
    {
        match self {
            GatewayAction::Connect => if succeeded {
                GatewayAction::Relay
            } else {
                GatewayAction::Wait
            },
            GatewayAction::Relay => GatewayAction::Wait,
            GatewayAction::Wait => GatewayAction::Connect,
        }
    }
}

/// What a client does after the outcomes so far.
pub open spec fn action_after(outcomes: Seq<bool>) -> GatewayAction
    decreases outcomes.len(),
{
    if outcomes.len() == 0 {
        GatewayAction::Connect
    } else {
        action_after(outcomes.drop_last()).next(outcomes.last())
    }
}

/// A client never gives up: whatever happens, one of its next three actions is
/// an attempt to connect.
pub proof fn client_never_gives_up(outcomes: Seq<bool>, a: bool, b: bool, c: bool)
    ensures
        ({
            let first = action_after(outcomes.push(a));
            let second = action_after(outcomes.push(a).push(b));
            let third = action_after(outcomes.push(a).push(b).push(c));
            first == GatewayAction::Connect || second == GatewayAction::Connect || third
                == GatewayAction::Connect
        }),
{
    assert(outcomes.push(a).drop_last() =~= outcomes);
    assert(outcomes.push(a).push(b).drop_last() =~= outcomes.push(a));
    assert(outcomes.push(a).push(b).push(c).drop_last() =~= outcomes.push(a).push(b));
}

/// A client waits before every attempt to connect but the first.
pub proof fn client_waits_before_connecting(outcomes: Seq<bool>)
    requires
        outcomes.len() > 0,
        action_after(outcomes) == GatewayAction::Connect,
    ensures
        action_after(outcomes.drop_last()) == GatewayAction::Wait,
{
}

/// A client only relays over a connection that it has just made.
pub proof fn client_relays_what_it_connected(outcomes: Seq<bool>)
    requires
        action_after(outcomes) == GatewayAction::Relay,
    ensures
        outcomes.len() > 0,
        action_after(outcomes.drop_last()) == GatewayAction::Connect,
        outcomes.last(),
{
}

/// A connection that is made is relayed over, one that is not made or has ended
/// is waited for, and after every wait the client connects.
pub proof fn client_goes_round(outcomes: Seq<bool>, succeeded: bool)
    ensures
        action_after(seq![]) == GatewayAction::Connect,
        action_after(outcomes) == GatewayAction::Connect ==> action_after(
            outcomes.push(succeeded),
        ) == (if succeeded {
            GatewayAction::Relay
        } else {
            GatewayAction::Wait
        }),
        action_after(outcomes) == GatewayAction::Relay ==> action_after(outcomes.push(succeeded))
            == GatewayAction::Wait,
        action_after(outcomes) == GatewayAction::Wait ==> action_after(outcomes.push(succeeded))
            == GatewayAction::Connect,
{
    assert(outcomes.push(succeeded).drop_last() =~= outcomes);
}

} // verus!
