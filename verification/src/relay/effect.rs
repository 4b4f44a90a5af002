//! What handling a packet asks the caller to do.
//!
//! The effects of a packet are carried out in order. If a send fails, the rest
//! of the list is dropped.

use vstd::prelude::*;

use crate::coarse_time::CoarseClock;
use crate::lookup::model::TableModel;
use crate::lookup::{AllocationId, AllocationTable};
use crate::net::SocketAddr;
use crate::random::random_12;
use crate::turn::encode::{
    build_channel_data, build_data_indication, channel_data, data_indication,
};

verus! {

/// A datagram to be sent.
#[derive(Debug)]
pub enum Datagram {
    /// Bytes as they are
    Raw(Vec<u8>),
    /// Data framed with a channel number
    ChannelData { channel: u16, data: Vec<u8> },
    /// Data in a Data indication that names where it came from
    DataIndication { source: SocketAddr, data: Vec<u8> },
}

/// A datagram as mathematical values.
#[verifier::ext_equal]
pub enum DatagramModel {
    Raw(Seq<u8>),
    ChannelData { channel: u16, data: Seq<u8> },
    DataIndication { source: SocketAddr, data: Seq<u8> },
}

impl View for Datagram {
    type V = DatagramModel;

    open spec fn view(&self) -> DatagramModel {
        match *self {
            Datagram::Raw(d) => DatagramModel::Raw(d@),
            Datagram::ChannelData { channel, data } => DatagramModel::ChannelData {
                channel,
                data: data@,
            },
            Datagram::DataIndication { source, data } => DatagramModel::DataIndication {
                source,
                data: data@,
            },
        }
    }
}

impl DatagramModel {
    /// The bytes on the wire, where an indication has the given transaction id.
    pub open spec fn bytes(self, txn: Seq<u8>) -> Seq<u8> {
        match self {
            DatagramModel::Raw(d) => d,
            DatagramModel::ChannelData { channel, data } => channel_data(channel, data),
            DatagramModel::DataIndication { source, data } => data_indication(txn, source, data),
        }
    }

    /// The data that is delivered, without its framing.
    pub open spec fn payload(self) -> Seq<u8> {
        match self {
            DatagramModel::Raw(d) => d,
            DatagramModel::ChannelData { channel: _, data } => data,
            DatagramModel::DataIndication { source: _, data } => data,
        }
    }
}

impl Datagram {
    /// The bytes on the wire, where an indication has the given transaction id.
    pub fn encode_with(&self, transaction_id: &[u8; 12]) -> (bytes: Vec<u8>)
        ensures
            bytes@ == self@.bytes(transaction_id@),
    {
        match self {
            Datagram::Raw(d) => d.clone(),
            Datagram::ChannelData { channel, data } => build_channel_data(
                *channel,
                data.as_slice(),
            ),
            Datagram::DataIndication { source, data } => build_data_indication(
                transaction_id,
                *source,
                data.as_slice(),
            ),
        }
    }

    /// The bytes on the wire, where an indication has a random transaction id.
    pub fn encode(&self) -> (bytes: Vec<u8>)
        ensures
            exists|txn: Seq<u8>| txn.len() == 12 && bytes@ == #[trigger] self@.bytes(txn),
    {
        let txn = random_12();
        self.encode_with(&txn)
    }
}

/// Something to be done on behalf of a packet.
#[derive(Debug)]
pub enum Effect {
    /// Send a datagram to each address in turn
    Send { to: Vec<SocketAddr>, datagram: Datagram },
    /// Record traffic to a client
    Touch { id: AllocationId },
    /// Record traffic from a client
    TouchReceived { id: AllocationId },
    /// Record traffic from the client at an address, and that it was relayed
    TouchReceivedFrom { client: SocketAddr, relayed: bool },
    /// Record whether an attempt to relay reached anyone
    TouchRelay { id: AllocationId, relayed: bool },
}

/// An effect as mathematical values.
#[verifier::ext_equal]
pub enum EffectModel {
    Send { to: Seq<SocketAddr>, datagram: DatagramModel },
    Touch { id: u64 },
    TouchReceived { id: u64 },
    TouchReceivedFrom { client: SocketAddr, relayed: bool },
    TouchRelay { id: u64, relayed: bool },
}

impl View for Effect {
    type V = EffectModel;

    open spec fn view(&self) -> EffectModel {
        match *self {
            Effect::Send { to, datagram } => EffectModel::Send { to: to@, datagram: datagram@ },
            Effect::Touch { id } => EffectModel::Touch { id: id.0 },
            Effect::TouchReceived { id } => EffectModel::TouchReceived { id: id.0 },
            Effect::TouchReceivedFrom { client, relayed } => EffectModel::TouchReceivedFrom {
                client,
                relayed,
            },
            Effect::TouchRelay { id, relayed } => EffectModel::TouchRelay { id: id.0, relayed },
        }
    }
}

/// A list of effects as mathematical values.
pub open spec fn effects_of(s: Seq<Effect>) -> Seq<EffectModel> {
    s.map_values(|e: Effect| e@)
}

/// A datagram for one address.
pub open spec fn send_to(to: SocketAddr, datagram: DatagramModel) -> EffectModel {
    EffectModel::Send { to: seq![to], datagram }
}

/// The effects of answering a request.
pub open spec fn reply(to: SocketAddr, bytes: Seq<u8>) -> Seq<EffectModel> {
    seq![send_to(to, DatagramModel::Raw(bytes))]
}

/// The table after an effect was carried out at the time `now_ms`. Sending
/// does not change it.
pub open spec fn apply(t: TableModel, e: EffectModel, now_ms: u64) -> TableModel {
    match e {
        EffectModel::Send { .. } => t,
        EffectModel::Touch { id } => t.touch(id, now_ms),
        EffectModel::TouchReceived { id } => t.touch_received(id, now_ms),
        EffectModel::TouchReceivedFrom { client, relayed } => match t.by_client.get(
            client.spec_key(),
        ) {
            Some(id) => {
                let received = t.touch_received(id, now_ms);
                if relayed {
                    received.touch_relay(id, true, now_ms)
                } else {
                    received
                }
            },
            None => t,
        },
        EffectModel::TouchRelay { id, relayed } => t.touch_relay(id, relayed, now_ms),
    }
}

/// Appends an effect.
pub fn push_effect(effects: &mut Vec<Effect>, e: Effect)
    ensures
        effects_of(final(effects)@) == effects_of(old(effects)@).push(e@),
{
    effects.push(e);
    assert(effects_of(effects@) =~= effects_of(old(effects)@).push(e@));
}

/// Sends a datagram to one address.
pub fn send_effect(to: SocketAddr, datagram: Datagram) -> (e: Effect)
    ensures
        e@ == send_to(to, datagram@),
{
    let mut list: Vec<SocketAddr> = Vec::new();
    list.push(to);
    assert(list@ =~= seq![to]);
    Effect::Send { to: list, datagram }
}

/// Answers a request.
pub fn reply_effects(to: SocketAddr, bytes: Vec<u8>) -> (r: Vec<Effect>)
    ensures
        effects_of(r@) == reply(to, bytes@),
{
    let mut effects = no_effects();
    push_effect(&mut effects, send_effect(to, Datagram::Raw(bytes)));
    assert(effects_of(effects@) =~= reply(to, bytes@));
    effects
}

/// Nothing to be done.
pub fn no_effects() -> (r: Vec<Effect>)
    ensures
        effects_of(r@) == Seq::<EffectModel>::empty(),
{
    let effects: Vec<Effect> = Vec::new();
    assert(effects_of(effects@) =~= Seq::<EffectModel>::empty());
    effects
}

impl AllocationTable {
    /// Carries out what an effect does to the table. A send is left to the caller.
    pub fn apply(&mut self, effect: &Effect, clock: &CoarseClock)
        requires
            old(self).wf(),
        ensures
            final(self).wf(),
            final(self)@ == apply(old(self)@, effect@, clock.ms()),
    {
        match effect {
            Effect::Send { .. } => {},
            Effect::Touch { id } => {
                self.touch(*id, clock);
            },
            Effect::TouchReceived { id } => {
                self.touch_received(*id, clock);
            },
            Effect::TouchReceivedFrom { client, relayed } => {
                if let Some(id) = self.lookup_by_client(*client) {
                    self.touch_received(id, clock);
                    if *relayed {
                        self.touch_relay(id, true, clock);
                    }
                }
            },
            Effect::TouchRelay { id, relayed } => {
                self.touch_relay(*id, *relayed, clock);
            },
        }
    }
}

} // verus!
