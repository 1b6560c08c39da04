//! Carrying bytes between an SSH channel and a socket.
//!
//! Every tunnel of the client (local and remote forwards, both proxies and
//! the agent) is a pair of one-way pumps. The functions here say what each
//! pump does with what it receives; they hold no state of their own.

use vstd::prelude::*;
use vstd::string::*;

use crate::types::{ForwardModel, ForwardSpec};

verus! {

broadcast use vstd::string::group_string_axioms;

/// What a channel delivers.
pub enum ChannelEvent {
    /// Bytes of the data stream.
    Data(Vec<u8>),
    /// Bytes of the error stream.
    Extended(Vec<u8>),
    /// The exit status of the remote process.
    ExitStatus(u32),
    /// The remote side sends no more data.
    Eof,
    /// The remote side closed the channel.
    Close,
    /// Any other message.
    Other,
    /// The channel is gone; nothing will follow.
    Gone,
}

/// What a channel delivers, over byte sequences.
pub enum ChannelEventModel {
    Data(Seq<u8>),
    Extended(Seq<u8>),
    ExitStatus(u32),
    Eof,
    Close,
    Other,
    Gone,
}

impl View for ChannelEvent {
    type V = ChannelEventModel;

    open spec fn view(&self) -> ChannelEventModel {
        match self {
            ChannelEvent::Data(b) => ChannelEventModel::Data(b@),
            ChannelEvent::Extended(b) => ChannelEventModel::Extended(b@),
            ChannelEvent::ExitStatus(s) => ChannelEventModel::ExitStatus(*s),
            ChannelEvent::Eof => ChannelEventModel::Eof,
            ChannelEvent::Close => ChannelEventModel::Close,
            ChannelEvent::Other => ChannelEventModel::Other,
            ChannelEvent::Gone => ChannelEventModel::Gone,
        }
    }
}

/// What the pump from a channel to a socket does.
pub enum ToSocket {
    /// Write these bytes and flush; stop if that fails.
    Write(Vec<u8>),
    /// Wait for the next event.
    Skip,
    /// End this direction.
    Stop,
}

/// What the pump from a channel to a socket does, over byte sequences.
pub enum ToSocketModel {
    Write(Seq<u8>),
    Skip,
    Stop,
}

impl View for ToSocket {
    type V = ToSocketModel;

    open spec fn view(&self) -> ToSocketModel {
        match self {
            ToSocket::Write(b) => ToSocketModel::Write(b@),
            ToSocket::Skip => ToSocketModel::Skip,
            ToSocket::Stop => ToSocketModel::Stop,
        }
    }
}

/// Data is written on; the end of the channel, announced or not, ends the
/// pump; anything else is passed over.
pub open spec fn to_socket(event: ChannelEventModel) -> ToSocketModel {
    match event {
        ChannelEventModel::Data(b) => ToSocketModel::Write(b),
        ChannelEventModel::Eof | ChannelEventModel::Close
        | ChannelEventModel::Gone => ToSocketModel::Stop,
        _ => ToSocketModel::Skip,
    }
}

/// Decides what the pump from a channel to a socket does; see [`to_socket`].
pub fn channel_to_socket(event: ChannelEvent) -> (r: ToSocket)
    ensures
        r@ == to_socket(event@),
{
    match event {
        ChannelEvent::Data(b) => ToSocket::Write(b),
        ChannelEvent::Eof => ToSocket::Stop,
        ChannelEvent::Close => ToSocket::Stop,
        ChannelEvent::Gone => ToSocket::Stop,
        _ => ToSocket::Skip,
    }
}

/// What a read from a socket gave.
pub enum SocketRead {
    /// Bytes; none of them means the end of the stream.
    Bytes(Vec<u8>),
    /// The read failed.
    Failed,
}

/// What the pump from a socket to a channel does.
pub enum ToChannel {
    /// Send these bytes; stop if that fails.
    Send(Vec<u8>),
    /// Announce the end of the data and stop.
    SendEof,
    /// Stop without a word.
    Stop,
}

/// What the pump from a socket to a channel does, over byte sequences.
pub enum ToChannelModel {
    Send(Seq<u8>),
    SendEof,
    Stop,
}

impl View for ToChannel {
    type V = ToChannelModel;

    open spec fn view(&self) -> ToChannelModel {
        match self {
            ToChannel::Send(b) => ToChannelModel::Send(b@),
            ToChannel::SendEof => ToChannelModel::SendEof,
            ToChannel::Stop => ToChannelModel::Stop,
        }
    }
}

/// The bytes that a read gave; `None` if it failed.
pub open spec fn read_bytes(read: SocketRead) -> Option<Seq<u8>> {
    match read {
        SocketRead::Bytes(b) => Some(b@),
        SocketRead::Failed => None,
    }
}

/// Bytes are sent on; the end of the stream is announced; a failed read ends
/// the pump.
pub open spec fn to_channel(read: Option<Seq<u8>>) -> ToChannelModel {
    match read {
        Some(b) => if b.len() == 0 {
            ToChannelModel::SendEof
        } else {
            ToChannelModel::Send(b)
        },
        None => ToChannelModel::Stop,
    }
}

/// Decides what the pump from a socket to a channel does; see [`to_channel`].
pub fn socket_to_channel(read: SocketRead) -> (r: ToChannel)
    ensures
        r@ == to_channel(read_bytes(read)),
{
    match read {
        SocketRead::Bytes(b) => if b.len() == 0 {
            ToChannel::SendEof
        } else {
            ToChannel::Send(b)
        },
        SocketRead::Failed => ToChannel::Stop,
    }
}

/// What a tunnel asks the server for: a connection to a host and port, on
/// behalf of an address and port.
pub struct TunnelRequest {
    pub host: String,
    pub port: u32,
    pub origin: String,
    pub origin_port: u32,
}

/// What a tunnel asks the server for, over texts.
pub struct TunnelModel {
    pub host: Seq<char>,
    pub port: u32,
    pub origin: Seq<char>,
    pub origin_port: u32,
}

impl View for TunnelRequest {
    type V = TunnelModel;

    open spec fn view(&self) -> TunnelModel {
        TunnelModel {
            host: self.host@,
            port: self.port,
            origin: self.origin@,
            origin_port: self.origin_port,
        }
    }
}

/// The tunnel of a local forward.
pub open spec fn local_tunnel_model(spec: ForwardModel) -> TunnelModel {
    TunnelModel {
        host: spec.target_host,
        port: spec.target_port as u32,
        origin: spec.bind_addr,
        origin_port: spec.bind_port as u32,
    }
}

/// The tunnel of a proxy.
pub open spec fn proxy_tunnel_model(host: Seq<char>, port: u16) -> TunnelModel {
    TunnelModel { host, port: port as u32, origin: "127.0.0.1"@, origin_port: 0 }
}

/// The tunnel of a local forward: to its target, on behalf of its listener.
pub fn local_tunnel(spec: &ForwardSpec) -> (r: TunnelRequest)
    ensures
        r@ == local_tunnel_model(spec@),
        r.host@ == spec.target_host@,
        r.port == spec.target_port,
        r.origin@ == spec.bind_addr@,
        r.origin_port == spec.bind_port,
{
    TunnelRequest {
        host: spec.target_host.clone(),
        port: spec.target_port as u32,
        origin: spec.bind_addr.clone(),
        origin_port: spec.bind_port as u32,
    }
}

/// The tunnel of a proxy: to what the client asks for, on behalf of loopback.
pub fn proxy_tunnel(host: &str, port: u16) -> (r: TunnelRequest)
    ensures
        r@ == proxy_tunnel_model(host@, port),
        r.host@ == host@,
        r.port == port,
        r.origin@ == "127.0.0.1"@,
        r.origin_port == 0,
{
    TunnelRequest {
        host: host.to_owned(),
        port: port as u32,
        origin: "127.0.0.1".to_owned(),
        origin_port: 0,
    }
}

// ---------------------------------------------------------------------
// Laws
// ---------------------------------------------------------------------

/// What the pump from a channel has written after these events, every write
/// having succeeded, and whether it still runs.
pub open spec fn written(events: Seq<ChannelEventModel>) -> (Seq<u8>, bool)
    decreases events.len(),
{
    if events.len() == 0 {
        (Seq::empty(), true)
    } else {
        let (before, running) = written(events.drop_last());
        if !running {
            (before, false)
        } else {
            match to_socket(events.last()) {
                ToSocketModel::Write(b) => (before + b, true),
                ToSocketModel::Skip => (before, true),
                ToSocketModel::Stop => (before, false),
            }
        }
    }
}

/// The data bytes of all events, in order.
pub open spec fn data_of(events: Seq<ChannelEventModel>) -> Seq<u8>
    decreases events.len(),
{
    if events.len() == 0 {
        Seq::empty()
    } else {
        match events.last() {
            ChannelEventModel::Data(b) => data_of(events.drop_last()) + b,
            _ => data_of(events.drop_last()),
        }
    }
}

/// Whether an event ends the channel.
pub open spec fn ends_channel(event: ChannelEventModel) -> bool {
    event is Eof || event is Close || event is Gone
}

/// As long as the channel does not end, the socket gets every data byte
/// once, in order, and nothing else.
pub proof fn pump_is_faithful(events: Seq<ChannelEventModel>)
    requires
        forall|i: int| 0 <= i < events.len() ==> !ends_channel(#[trigger] events[i]),
    ensures
        written(events) == (data_of(events), true),
    decreases events.len(),
{
    if events.len() > 0 {
        let front = events.drop_last();
        assert forall|i: int| 0 <= i < front.len() implies !ends_channel(#[trigger] front[i]) by {
            assert(front[i] == events[i]);
        }
        pump_is_faithful(front);
        assert(!ends_channel(events[events.len() - 1]));
    }
}

/// Once the channel has ended nothing more is written.
pub proof fn pump_stops_at_end(events: Seq<ChannelEventModel>, more: Seq<ChannelEventModel>)
    requires
        !written(events).1,
    ensures
        written(events + more) == written(events),
    decreases more.len(),
{
    if more.len() == 0 {
        assert(events + more =~= events);
    } else {
        pump_stops_at_end(events, more.drop_last());
        assert((events + more).drop_last() =~= events + more.drop_last());
    }
}

/// Data goes on to the socket as it is; the end of the channel, however it
/// comes, ends the pump; everything else is passed over.
pub proof fn channel_events_are_told_apart(bytes: Seq<u8>, status: u32)
    ensures
        to_socket(ChannelEventModel::Data(bytes)) == ToSocketModel::Write(bytes),
        to_socket(ChannelEventModel::Extended(bytes)) == ToSocketModel::Skip,
        to_socket(ChannelEventModel::ExitStatus(status)) == ToSocketModel::Skip,
        to_socket(ChannelEventModel::Other) == ToSocketModel::Skip,
        to_socket(ChannelEventModel::Eof) == ToSocketModel::Stop,
        to_socket(ChannelEventModel::Close) == ToSocketModel::Stop,
        to_socket(ChannelEventModel::Gone) == ToSocketModel::Stop,
{
}

/// Bytes of a socket go on to the channel as they are; its end is announced, and
/// a failure is not.
pub proof fn socket_reads_are_told_apart(bytes: Seq<u8>)
    ensures
        bytes.len() > 0 ==> to_channel(Some(bytes)) == ToChannelModel::Send(bytes),
        to_channel(Some(Seq::empty())) == ToChannelModel::SendEof,
        to_channel(None) == ToChannelModel::Stop,
{
}

/// A tunnel leads to the target of its forward, or to what the client of a proxy
/// asks for, at that very port, and is asked for on behalf of the listener.
pub proof fn tunnels_lead_to_their_target(spec: ForwardModel, host: Seq<char>, port: u16)
    ensures
        local_tunnel_model(spec).host == spec.target_host,
        local_tunnel_model(spec).port == spec.target_port,
        local_tunnel_model(spec).origin == spec.bind_addr,
        local_tunnel_model(spec).origin_port == spec.bind_port,
        proxy_tunnel_model(host, port).host == host,
        proxy_tunnel_model(host, port).port == port,
        proxy_tunnel_model(host, port).origin == "127.0.0.1"@,
        proxy_tunnel_model(host, port).origin_port == 0,
{
}

} // verus!
