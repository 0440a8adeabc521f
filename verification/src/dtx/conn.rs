//! The rules of a DTX connection: identifiers, the frames of calls, and where an
//! incoming message goes.

use vstd::prelude::*;
use crate::dtx::archive::{
    archive_capabilities_dict, archive_string, archived, capability_objects, single,
};
use crate::proplist::format::plist_binary;
use crate::proplist::{Plist, Tree};
use crate::text::join3;
use super::{
    ack_bytes, aux_models, encode_ack, encode_call, is_call, Aux, AuxValue, DtxMessage, Error,
    MsgType,
};

verus! {

/// What a connection counts: the identifier of the next message and the code of
/// the next channel.
#[derive(Debug)]
pub struct DtxConn {
    next_id: u32,
    next_chan: i32,
}

/// A call as it goes out: the identifier that its reply will carry, and its bytes.
#[derive(Debug)]
pub struct Call {
    pub id: u32,
    pub frame: Vec<u8>,
}

/// The argument list of a channel request.
pub open spec fn channel_args(code: i32, identifier: Seq<char>) -> Seq<Aux> {
    seq![
        Aux::Int32(code),
        Aux::Bytes(plist_binary(archived(single(Tree::String(identifier)), 1))),
    ]
}

/// The argument list of the capability announcement.
pub open spec fn capability_args() -> Seq<Aux> {
    seq![Aux::Bytes(plist_binary(archived(capability_objects(), 6)))]
}

impl DtxConn {
    pub closed spec fn id(&self) -> u32 {
        self.next_id
    }

    pub closed spec fn channel(&self) -> i32 {
        self.next_chan
    }

    /// Identifiers are never zero.
    #[verifier::type_invariant]
    spec fn well_formed(self) -> bool {
        self.next_id >= 1
    }

    /// A fresh connection: both counters start at one.
    pub fn new() -> (conn: DtxConn)
        ensures
            conn.id() == 1,
            conn.channel() == 1,
    {
        DtxConn { next_id: 1, next_chan: 1 }
    }

    /// Hands out the next identifier. After the largest comes one, never zero.
    pub fn alloc_id(&mut self) -> (id: u32)
        ensures
            id == old(self).id(),
            id >= 1,
            final(self).id() == if id == u32::MAX {
                1
            } else {
                (id + 1) as u32
            },
            final(self).channel() == old(self).channel(),
    {
        proof {
            use_type_invariant(&*self);
        }
        let id: u32 = self.next_id;
        self.next_id = if id == u32::MAX {
            1
        } else {
            id + 1
        };
        id
    }

    /// A call whose reply is awaited.
    pub fn call(&mut self, channel: i32, selector: &str, aux: &[AuxValue]) -> (call: Call)
        ensures
            call.id == old(self).id(),
            is_call(call.frame@, call.id, 0, channel, true, selector@, aux_models(aux@)),
            final(self).id() == if call.id == u32::MAX {
                1
            } else {
                (call.id + 1) as u32
            },
            final(self).channel() == old(self).channel(),
    {
        let id: u32 = self.alloc_id();
        Call { id, frame: encode_call(id, 0, channel, true, selector, aux) }
    }

    /// A call without a reply.
    pub fn call_async(&mut self, channel: i32, selector: &str, aux: &[AuxValue]) -> (call: Call)
        ensures
            call.id == old(self).id(),
            is_call(call.frame@, call.id, 0, channel, false, selector@, aux_models(aux@)),
            final(self).id() == if call.id == u32::MAX {
                1
            } else {
                (call.id + 1) as u32
            },
            final(self).channel() == old(self).channel(),
    {
        let id: u32 = self.alloc_id();
        Call { id, frame: encode_call(id, 0, channel, false, selector, aux) }
    }

    /// The announcement of the client's capabilities, which goes out once, before
    /// any channel is requested.
    pub fn handshake(&mut self) -> (call: Call)
        ensures
            call.id == old(self).id(),
            is_call(
                call.frame@,
                call.id,
                0,
                0,
                false,
                "_notifyOfPublishedCapabilities:"@,
                capability_args(),
            ),
            final(self).id() == if call.id == u32::MAX {
                1
            } else {
                (call.id + 1) as u32
            },
            final(self).channel() == old(self).channel(),
    {
        let args: Vec<AuxValue> = vec![AuxValue::Bytes(archive_capabilities_dict())];
        assert(aux_models(args@) =~= capability_args());
        self.call_async(0, "_notifyOfPublishedCapabilities:", args.as_slice())
    }

    /// The request of a named channel. The code is allocated here, and it is the
    /// one to use in later calls, whatever the peer echoes.
    pub fn request_channel(&mut self, identifier: &str) -> (req: (i32, Call))
        requires
            old(self).channel() < i32::MAX,
        ensures
            req.0 == old(self).channel(),
            final(self).channel() == req.0 + 1,
            req.1.id == old(self).id(),
            is_call(
                req.1.frame@,
                req.1.id,
                0,
                0,
                true,
                "_requestChannelWithCode:identifier:"@,
                channel_args(req.0, identifier@),
            ),
            final(self).id() == if req.1.id == u32::MAX {
                1
            } else {
                (req.1.id + 1) as u32
            },
    {
        let code: i32 = self.next_chan;
        let id: u32 = self.alloc_id();
        self.next_chan = code + 1;
        let args: Vec<AuxValue> = vec![
            AuxValue::Int32(code),
            AuxValue::Bytes(archive_string(identifier)),
        ];
        assert(aux_models(args@) =~= channel_args(code, identifier@));
        let frame: Vec<u8> = encode_call(
            id,
            0,
            0,
            true,
            "_requestChannelWithCode:identifier:",
            args.as_slice(),
        );
        (code, Call { id, frame })
    }
}

/// How waiting for the reply to a call ended.
#[derive(Debug)]
pub enum Waited {
    Replied(DtxMessage),
    TimedOut,
    Disconnected,
}

/// The error of a call whose reply did not come in time.
pub open spec fn timeout_text(selector: Seq<char>) -> Seq<char> {
    "DTX call '"@ + selector + "' timed out"@
}

/// What a call returns once the wait for its reply has ended.
pub fn call_result(selector: &str, waited: Waited) -> (out: Result<Option<Plist>, Error>)
    ensures
        match waited {
            Waited::Replied(msg) => out == Ok::<Option<Plist>, Error>(msg.payload),
            Waited::TimedOut => out matches Err(Error::Protocol(text)) && text@ == timeout_text(
                selector@,
            ),
            Waited::Disconnected => out matches Err(Error::Closed),
        },
{
    match waited {
        Waited::Replied(msg) => Ok(msg.payload),
        Waited::TimedOut => Err(
            Error::Protocol(join3("DTX call '", selector, "' timed out")),
        ),
        Waited::Disconnected => Err(Error::Closed),
    }
}

/// Where an incoming message goes.
#[derive(Debug)]
pub enum Route {
    /// Nowhere: acknowledgements end here.
    Ignore,
    /// To the call with this identifier, if one still waits.
    Waiter(u32),
    /// To the handler of this channel, if there is one, once the acknowledgement
    /// (where there is one) has been sent.
    Channel(i32, Option<Vec<u8>>),
}

/// Decides where an incoming message goes. A message of a running conversation
/// is a reply; any other is a call from the peer, which is acknowledged at once
/// when it expects a reply.
pub fn route(msg: &DtxMessage) -> (route: Route)
    ensures
        match route {
            Route::Ignore => msg.msg_type == MsgType::Ack.number(),
            Route::Waiter(id) => {
                &&& msg.msg_type != MsgType::Ack.number()
                &&& msg.conv_id > 0
                &&& id == msg.msg_id
            },
            Route::Channel(channel, ack) => {
                &&& msg.msg_type != MsgType::Ack.number()
                &&& msg.conv_id == 0
                &&& channel == msg.channel
                &&& ack is Some <==> msg.expects_reply
                &&& ack is Some ==> ack->0@ == ack_bytes(msg.msg_id, 1, msg.channel)
            },
        },
{
    if msg.msg_type == MsgType::Ack.code() {
        return Route::Ignore;
    }
    if msg.conv_id > 0 {
        return Route::Waiter(msg.msg_id);
    }
    if msg.expects_reply {
        Route::Channel(msg.channel, Some(encode_ack(msg)))
    } else {
        Route::Channel(msg.channel, None)
    }
}

/// A channel is asked for by its code and its name; the capabilities are announced by their
/// archive.
pub proof fn lemma_arguments(code: i32, identifier: Seq<char>)
    ensures
        channel_args(code, identifier).len() == 2,
        channel_args(code, identifier)[0] == Aux::Int32(code),
        ({
            let archive = archived(single(Tree::String(identifier)), 1);
            &&& channel_args(code, identifier)[1] == Aux::Bytes(plist_binary(archive))
            &&& crate::dtx::archive::root_of(archive) == Some(Tree::String(identifier))
        }),
        capability_args().len() == 1,
        capability_args()[0] == Aux::Bytes(plist_binary(archived(capability_objects(), 6))),
{
    crate::dtx::archive::lemma_single_resolves(Tree::String(identifier));
}

/// A call that is not answered in time is named by its selector.
pub proof fn lemma_timeouts(selector: Seq<char>)
    ensures
        ({
            let t = timeout_text(selector);
            let n = selector.len() as int;
            &&& t.len() == 21 + n
            &&& t.take(10) == "DTX call '"@
            &&& t.subrange(10, 10 + n) == selector
            &&& t.skip(10 + n) == "' timed out"@
        }),
{
    reveal_strlit("DTX call '");
    reveal_strlit("' timed out");
    let t = timeout_text(selector);
    let n = selector.len() as int;
    assert(t.take(10) =~= "DTX call '"@);
    assert(t.subrange(10, 10 + n) =~= selector);
    assert(t.skip(10 + n) =~= "' timed out"@);
}

} // verus!
