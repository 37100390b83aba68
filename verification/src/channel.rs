//! The channels that a server or a client has agreed to use.

use crate::channel_id::ChannelId;
use crate::handle_map::map_keys;
use crate::message::{ChannelConfig, NetworkMessage};
use crate::protocol::MAX_CHANNEL_ID;
use std::any::TypeId;
use std::collections::HashMap;
use std::sync::Arc;
use vstd::prelude::*;

verus! {

broadcast use vstd::std_specs::hash::group_hash_axioms;

/// `std::any::TypeId`, which identifies a type among all others.
#[verifier::external_type_specification]
#[verifier::external_body]
pub struct ExTypeId(TypeId);

/// `TypeId::eq` tells whether two identifiers are the same, which they are where they identify the
/// same type.
#[verifier::external_body]
fn same_type(a: &TypeId, b: &TypeId) -> (res: bool)
    ensures
        res == (*a == *b),
{
    a == b
}

/// A channel, and the type of the messages on it.
#[derive(Debug, Clone, Copy)]
pub struct Channel {
    pub id: ChannelId,
    pub config: ChannelConfig,
    /// The type of the messages.
    pub ty: TypeId,
    /// The type of the messages, for people to read.
    pub ty_name: &'static str,
}

impl Channel {
    /// The channel is the one that messages of type `T` travel on, which `ty` identifies and `ty_name`
    /// describes.
    pub open spec fn carries<T: NetworkMessage>(self, ty: TypeId, ty_name: &'static str) -> bool {
        &&& self.id.number() == T::CHANNEL_ID
        &&& self.config == T::CHANNEL_CONFIG
        &&& self.ty == ty
        &&& self.ty_name == ty_name
    }

    /// What a channel that carries messages of type `T` is: it has the number and the demands of the
    /// type, and is known by what identifies and describes it.
    pub proof fn lemma_carries_as_declared<T: NetworkMessage>(
        self,
        ty: TypeId,
        ty_name: &'static str,
    )
        requires
            self.carries::<T>(ty, ty_name),
        ensures
            self.id.number() == T::CHANNEL_ID,
            self.config == T::CHANNEL_CONFIG,
            self.ty == ty,
            self.ty_name == ty_name,
    {
    }

    /// Whether the channel is for messages of the type that `ty` identifies.
    pub fn is_for(&self, ty: &TypeId) -> (res: bool)
        ensures
            res == (self.ty == *ty),
    {
        same_type(&self.ty, ty)
    }

    fn of<T: NetworkMessage>(ty: TypeId, ty_name: &'static str) -> (res: Self)
        requires
            T::CHANNEL_ID <= MAX_CHANNEL_ID,
        ensures
            res.carries::<T>(ty, ty_name),
    {
        Channel {
            id: ChannelId::new(T::CHANNEL_ID),
            config: T::CHANNEL_CONFIG,
            ty,
            ty_name,
        }
    }
}

/// The channels to send on and the channels to receive on, these with a decoder of type `F` each.
pub struct Channels<F> {
    send: HashMap<u8, Channel>,
    recv: HashMap<u8, (Channel, Arc<F>)>,
}

impl<F> Channels<F> {
    /// The channels to send on, by their numbers.
    pub closed spec fn sends(&self) -> Map<u8, Channel> {
        self.send@
    }

    /// The channels to receive on with their decoders, by their numbers.
    pub closed spec fn recvs(&self) -> Map<u8, (Channel, Arc<F>)> {
        self.recv@
    }

    /// Every channel is found under its own number.
    pub open spec fn wf(&self) -> bool {
        &&& self.sends().dom().finite()
        &&& self.recvs().dom().finite()
        &&& forall|k: u8| #[trigger]
            self.sends().contains_key(k) ==> self.sends()[k].id.number() == k
        &&& forall|k: u8| #[trigger]
            self.recvs().contains_key(k) ==> self.recvs()[k].0.id.number() == k
    }

    pub fn new() -> (res: Self)
        ensures
            res.wf(),
            res.sends() == Map::<u8, Channel>::empty(),
            res.recvs() == Map::<u8, (Channel, Arc<F>)>::empty(),
    {
        Channels { send: HashMap::new(), recv: HashMap::new() }
    }

    /// Adds the channel of messages of type `T` to those to send on. `ty` identifies the type, and
    /// `ty_name` describes it.
    pub fn add_send<T: NetworkMessage>(&mut self, ty: TypeId, ty_name: &'static str) -> (res:
        &mut Self)
        requires
            old(self).wf(),
            T::CHANNEL_ID <= MAX_CHANNEL_ID,
            !old(self).sends().contains_key(T::CHANNEL_ID),
        ensures
            res.wf(),
            res.sends() == old(self).sends().insert(T::CHANNEL_ID, res.sends()[T::CHANNEL_ID]),
            res.sends()[T::CHANNEL_ID].carries::<T>(ty, ty_name),
            res.recvs() == old(self).recvs(),
            *final(self) == *final(res),
    {
        let channel = Channel::of::<T>(ty, ty_name);
        self.send.insert(T::CHANNEL_ID, channel);
        self
    }

    /// Adds the channel of messages of type `T` to those to receive on, with a decoder for them. `ty`
    /// identifies the type, and `ty_name` describes it.
    pub fn add_recv<T: NetworkMessage>(
        &mut self,
        ty: TypeId,
        ty_name: &'static str,
        decode: F,
    ) -> (res: &mut Self)
        requires
            old(self).wf(),
            T::CHANNEL_ID <= MAX_CHANNEL_ID,
            !old(self).recvs().contains_key(T::CHANNEL_ID),
        ensures
            res.wf(),
            res.recvs() == old(self).recvs().insert(
                T::CHANNEL_ID,
                (res.recvs()[T::CHANNEL_ID].0, Arc::new(decode)),
            ),
            res.recvs()[T::CHANNEL_ID].0.carries::<T>(ty, ty_name),
            res.sends() == old(self).sends(),
            *final(self) == *final(res),
    {
        let channel = Channel::of::<T>(ty, ty_name);
        self.recv.insert(T::CHANNEL_ID, (channel, Arc::new(decode)));
        self
    }

    /// The channel with number `id` to send on, if there is one.
    pub fn send_channel(&self, id: u8) -> (res: Option<&Channel>)
        ensures
            match res {
                Some(channel) => self.sends().contains_key(id) && *channel == self.sends()[id],
                None => !self.sends().contains_key(id),
            },
    {
        self.send.get(&id)
    }

    /// The number of the channel for messages of type `T`, which has to be one to send on.
    pub fn send_channel_id<T: NetworkMessage>(&self) -> (res: ChannelId)
        requires
            self.wf(),
            self.sends().contains_key(T::CHANNEL_ID),
        ensures
            res == ChannelId::of(T::CHANNEL_ID),
    {
        match self.send_channel(T::CHANNEL_ID) {
            Some(channel) => {
                proof {
                    channel.id.lemma_number_roundtrip(T::CHANNEL_ID);
                }
                channel.id
            },
            None => ChannelId::new(T::CHANNEL_ID),
        }
    }

    /// The channel with number `id` to receive on and its decoder, if there is one.
    pub fn recv_channel(&self, id: u8) -> (res: Option<&(Channel, Arc<F>)>)
        ensures
            match res {
                Some(channel) => self.recvs().contains_key(id) && *channel == self.recvs()[id],
                None => !self.recvs().contains_key(id),
            },
    {
        self.recv.get(&id)
    }

    /// Whether messages that arrive on channel `id` must not be lost.
    pub open spec fn reliable(&self, id: u8) -> bool {
        self.recvs().contains_key(id) && self.recvs()[id].0.config.reliable
    }

    /// Whether messages that arrive on channel `id` must not be lost.
    pub fn is_reliable(&self, id: ChannelId) -> (res: bool)
        ensures
            res == self.reliable(id.number()),
    {
        match self.recv_channel(id.value()) {
            Some(channel) => channel.0.config.reliable,
            None => false,
        }
    }

    /// Messages must not be lost on exactly those channels to receive on that were added for a type that
    /// demands it.
    pub proof fn lemma_reliable_as_declared<T: NetworkMessage>(
        &self,
        ty: TypeId,
        ty_name: &'static str,
        id: u8,
    )
        ensures
            self.recvs().contains_key(T::CHANNEL_ID) && self.recvs()[T::CHANNEL_ID].0.carries::<T>(
                ty,
                ty_name,
            ) ==> self.reliable(T::CHANNEL_ID) == T::CHANNEL_CONFIG.reliable,
            !self.recvs().contains_key(id) ==> !self.reliable(id),
            self.recvs().contains_key(id) ==> self.reliable(id)
                == self.recvs()[id].0.config.reliable,
    {
    }

    /// The numbers of the channels to send on, in some order.
    pub fn send_ids(&self) -> (res: Vec<u8>)
        ensures
            res@.no_duplicates(),
            res@.to_set() == self.sends().dom(),
    {
        map_keys(&self.send)
    }

    /// The numbers of the channels to receive on, in some order.
    pub fn recv_ids(&self) -> (res: Vec<u8>)
        ensures
            res@.no_duplicates(),
            res@.to_set() == self.recvs().dom(),
    {
        map_keys(&self.recv)
    }
}

impl<F> Default for Channels<F> {
    fn default() -> (res: Self)
        ensures
            res.wf(),
            res.sends() == Map::<u8, Channel>::empty(),
            res.recvs() == Map::<u8, (Channel, Arc<F>)>::empty(),
    {
        Self::new()
    }
}

} // verus!
