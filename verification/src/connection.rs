//! What arrives on the channels of one connection.

use crate::channel::{Channel, Channels};
use crate::channel_id::ChannelId;
use crate::error::DecodeError;
use crate::handle::ConnectionHandle;
use crate::message::NetworkMessage;
use crate::new_data::NewDataAvailable;
use crate::transport::TransportProperties;
use std::any::TypeId;
use std::collections::{HashMap, VecDeque};
use std::sync::Arc;
use vstd::prelude::*;

verus! {

broadcast use vstd::std_specs::hash::group_hash_axioms;

/// Why messages of a type cannot be received.
#[derive(Debug, Clone, Copy)]
pub enum ReceiveError {
    /// There is no channel to receive on with the number of the type.
    NoChannel,
    /// The channel is for messages of another type, which this describes.
    OtherType(&'static str),
}

/// `messages`, each with `handle`.
pub open spec fn tagged<M>(messages: Seq<M>, handle: ConnectionHandle) -> Seq<
    (M, ConnectionHandle),
> {
    messages.map_values(|message: M| (message, handle))
}

struct ChannelRecv<M, F> {
    channel: Channel,
    decode: Arc<F>,
    queue: VecDeque<M>,
}

/// One connection: the channels on it, and the messages of type `M` that have arrived and wait to
/// be received.
pub struct ConnectionState<M, F> {
    transport_properties: TransportProperties,
    send: HashMap<u8, Channel>,
    recv: HashMap<u8, ChannelRecv<M, F>>,
}

impl<M, F> ConnectionState<M, F> {
    /// The properties of the transport that carries the connection.
    pub closed spec fn properties(&self) -> TransportProperties {
        self.transport_properties
    }

    /// The channels to send on.
    pub closed spec fn sends(&self) -> Map<u8, Channel> {
        self.send@
    }

    /// The channels to receive on, with their decoders.
    pub closed spec fn recvs(&self) -> Map<u8, (Channel, Arc<F>)> {
        self.recv@.map_values(|recv: ChannelRecv<M, F>| (recv.channel, recv.decode))
    }

    /// The messages that wait on each channel, the one that arrived first in front.
    pub closed spec fn waiting(&self) -> Map<u8, Seq<M>> {
        self.recv@.map_values(|recv: ChannelRecv<M, F>| recv.queue@)
    }

    /// A connection on which nothing has arrived yet, with the channels of `channels`.
    pub fn new(transport_properties: TransportProperties, channels: &Channels<F>) -> (res: Self)
        ensures
            res.properties() == transport_properties,
            res.sends() == channels.sends(),
            res.recvs() == channels.recvs(),
            res.waiting() == channels.recvs().map_values(
                |channel: (Channel, Arc<F>)| Seq::<M>::empty(),
            ),
    {
        let mut send: HashMap<u8, Channel> = HashMap::new();
        let send_ids = channels.send_ids();
        let mut i: usize = 0;
        while i < send_ids.len()
            invariant
                i <= send_ids@.len(),
                send_ids@.to_set() == channels.sends().dom(),
                send@.dom() == send_ids@.take(i as int).to_set(),
                forall|k: u8| #[trigger] send@.contains_key(k) ==> send@[k] == channels.sends()[k],
            decreases send_ids@.len() - i,
        {
            let id: u8 = send_ids[i];
            assert(send_ids@.to_set().contains(id));
            assert(send_ids@.take(i + 1) =~= send_ids@.take(i as int).push(id));
            proof {
                send_ids@.take(i as int).lemma_push_to_set_commute(id);
            }
            if let Some(channel) = channels.send_channel(id) {
                send.insert(id, *channel);
            }
            assert(send@.dom() =~= send_ids@.take(i + 1).to_set());
            i = i + 1;
        }
        assert(send_ids@.take(i as int) =~= send_ids@);
        assert(send@ =~= channels.sends());
        let mut recv: HashMap<u8, ChannelRecv<M, F>> = HashMap::new();
        let recv_ids = channels.recv_ids();
        let mut j: usize = 0;
        while j < recv_ids.len()
            invariant
                j <= recv_ids@.len(),
                recv_ids@.to_set() == channels.recvs().dom(),
                recv@.dom() == recv_ids@.take(j as int).to_set(),
                forall|k: u8| #[trigger]
                    recv@.contains_key(k) ==> (recv@[k].channel, recv@[k].decode)
                        == channels.recvs()[k] && recv@[k].queue@ == Seq::<M>::empty(),
            decreases recv_ids@.len() - j,
        {
            let id: u8 = recv_ids[j];
            assert(recv_ids@.to_set().contains(id));
            assert(recv_ids@.take(j + 1) =~= recv_ids@.take(j as int).push(id));
            proof {
                recv_ids@.take(j as int).lemma_push_to_set_commute(id);
            }
            if let Some((channel, decode)) = channels.recv_channel(id) {
                recv.insert(
                    id,
                    ChannelRecv {
                        channel: *channel,
                        decode: Arc::clone(decode),
                        queue: VecDeque::new(),
                    },
                );
            }
            assert(recv@.dom() =~= recv_ids@.take(j + 1).to_set());
            j = j + 1;
        }
        assert(recv_ids@.take(j as int) =~= recv_ids@);
        let res = ConnectionState { transport_properties, send, recv };
        assert(res.recvs() =~= channels.recvs());
        assert(res.waiting() =~= channels.recvs().map_values(
            |channel: (Channel, Arc<F>)| Seq::<M>::empty(),
        ));
        res
    }

    /// The properties of the transport that carries the connection.
    pub fn transport_properties(&self) -> (res: &TransportProperties)
        ensures
            *res == self.properties(),
    {
        &self.transport_properties
    }

    /// Takes in what a decoder made of a message on channel `channel_id`. A message joins those that
    /// wait, which `new_data` then tells. The reason of a failure is handed on. Nothing happens
    /// where there is no such channel.
    pub fn take_decoded<E>(
        &mut self,
        new_data: &mut NewDataAvailable,
        channel_id: ChannelId,
        decoded: Result<M, DecodeError<E>>,
    ) -> (res: Option<Result<(), DecodeError<E>>>)
        ensures
            final(self).properties() == old(self).properties(),
            final(self).sends() == old(self).sends(),
            final(self).recvs() == old(self).recvs(),
            old(self).took_decoded(
                *final(self),
                *old(new_data),
                *final(new_data),
                channel_id,
                decoded,
                res,
            ),
    {
        let id: u8 = channel_id.value();
        match self.recv.remove(&id) {
            None => {
                assert(self.recv@ =~= old(self).recv@);
                None
            },
            Some(recv) => {
                let ChannelRecv { channel, decode, mut queue } = recv;
                let res = match decoded {
                    Ok(message) => {
                        queue.push_back(message);
                        new_data.notify();
                        Ok(())
                    },
                    Err(err) => Err(err),
                };
                self.recv.insert(id, ChannelRecv { channel, decode, queue });
                assert(self.recvs() =~= old(self).recvs());
                assert(decoded is Ok ==> self.waiting() =~= old(self).waiting().insert(
                    id,
                    old(self).waiting()[id].push(decoded->Ok_0),
                ));
                assert(decoded is Err ==> self.waiting() =~= old(self).waiting());
                Some(res)
            },
        }
    }

    /// What `take_decoded` does to the messages that wait, and what it returns.
    pub open spec fn took_decoded<E>(
        self,
        after: Self,
        new_data: NewDataAvailable,
        new_data_after: NewDataAvailable,
        channel_id: ChannelId,
        decoded: Result<M, DecodeError<E>>,
        res: Option<Result<(), DecodeError<E>>>,
    ) -> bool {
        let id = channel_id.number();
        if !self.waiting().contains_key(id) {
            res is None && after.waiting() == self.waiting() && new_data_after == new_data
        } else {
            match decoded {
                Ok(message) => {
                    &&& res == Some(Ok::<(), DecodeError<E>>(()))
                    &&& after.waiting() == self.waiting().insert(
                        id,
                        self.waiting()[id].push(message),
                    )
                    &&& new_data_after.pending()
                },
                Err(err) => {
                    &&& res == Some(Err::<(), DecodeError<E>>(err))
                    &&& after.waiting() == self.waiting()
                    &&& new_data_after == new_data
                },
            }
        }
    }

    /// Decodes a message that arrived on channel `channel_id` and takes in what comes of it.
    pub fn decode_recv<E>(
        &mut self,
        new_data: &mut NewDataAvailable,
        channel_id: ChannelId,
        message: &[u8],
    ) -> (res: Option<Result<(), DecodeError<E>>>) where
        F: Fn(&[u8]) -> Result<M, DecodeError<E>>,

        requires
            old(self).recvs().contains_key(channel_id.number()) ==> call_requires(
                *old(self).recvs()[channel_id.number()].1,
                (message,),
            ),
        ensures
            final(self).properties() == old(self).properties(),
            final(self).sends() == old(self).sends(),
            final(self).recvs() == old(self).recvs(),
            res is Some <==> old(self).recvs().contains_key(channel_id.number()),
            res is None ==> final(self).waiting() == old(self).waiting() && *final(new_data)
                == *old(new_data),
            res is Some ==> exists|decoded: Result<M, DecodeError<E>>|
                {
                    &&& #[trigger] call_ensures(
                        *old(self).recvs()[channel_id.number()].1,
                        (message,),
                        decoded,
                    )
                    &&& old(self).took_decoded(
                        *final(self),
                        *old(new_data),
                        *final(new_data),
                        channel_id,
                        decoded,
                        res,
                    )
                },
    {
        let id: u8 = channel_id.value();
        let decoded = match self.recv.get(&id) {
            None => return None,
            Some(recv) => (recv.decode)(message),
        };
        self.take_decoded(new_data, channel_id, decoded)
    }

    /// Why messages of type `T`, which `ty` identifies, cannot be received, if they cannot.
    pub open spec fn refuses<T: NetworkMessage>(&self, ty: TypeId) -> Option<ReceiveError> {
        if !self.recvs().contains_key(T::CHANNEL_ID) {
            Some(ReceiveError::NoChannel)
        } else if self.recvs()[T::CHANNEL_ID].0.ty != ty {
            Some(ReceiveError::OtherType(self.recvs()[T::CHANNEL_ID].0.ty_name))
        } else {
            None
        }
    }

    /// The messages of type `T`, which `ty` identifies, that wait to be received, the one that arrived
    /// first in front. The type has to be the one of a channel to receive on.
    pub fn get_receiver<T: NetworkMessage>(&self, ty: TypeId) -> (res: Result<
        &VecDeque<M>,
        ReceiveError,
    >)
        ensures
            match res {
                Ok(queue) => {
                    &&& self.refuses::<T>(ty) is None
                    &&& queue@ == self.waiting()[T::CHANNEL_ID]
                },
                Err(err) => self.refuses::<T>(ty) == Some(err),
            },
    {
        let id: u8 = T::CHANNEL_ID;
        match self.recv.get(&id) {
            None => Err(ReceiveError::NoChannel),
            Some(recv) => if recv.channel.is_for(&ty) {
                Ok(&recv.queue)
            } else {
                Err(ReceiveError::OtherType(recv.channel.ty_name))
            },
        }
    }

    /// Takes out the message of type `T`, which `ty` identifies, that has waited longest, if one waits.
    /// The type has to be the one of a channel to receive on.
    pub fn receive_as<T: NetworkMessage>(&mut self, ty: TypeId) -> (res: Result<
        Option<M>,
        ReceiveError,
    >)
        ensures
            final(self).properties() == old(self).properties(),
            final(self).sends() == old(self).sends(),
            final(self).recvs() == old(self).recvs(),
            match res {
                Ok(message) => {
                    &&& old(self).refuses::<T>(ty) is None
                    &&& old(self).gave_out(*final(self), T::CHANNEL_ID, message)
                },
                Err(err) => {
                    &&& old(self).refuses::<T>(ty) == Some(err)
                    &&& final(self).waiting() == old(self).waiting()
                },
            },
    {
        match self.get_receiver::<T>(ty) {
            Ok(_) => {},
            Err(err) => return Err(err),
        }
        Ok(self.receive(T::CHANNEL_ID))
    }

    /// Takes out all messages that wait on channel `id`, the one that arrived first in front, and
    /// notes with each that it came from `handle`.
    pub fn receive_all(&mut self, id: u8, handle: ConnectionHandle) -> (res: Vec<
        (M, ConnectionHandle),
    >)
        requires
            old(self).recvs().contains_key(id),
        ensures
            final(self).properties() == old(self).properties(),
            final(self).sends() == old(self).sends(),
            final(self).recvs() == old(self).recvs(),
            res@ == tagged(old(self).waiting()[id], handle),
            res@.len() == old(self).waiting()[id].len(),
            forall|i: int|
                0 <= i < old(self).waiting()[id].len() ==> #[trigger] res@[i] == (
                    old(self).waiting()[id][i],
                    handle,
                ),
            final(self).waiting() == old(self).waiting().insert(id, Seq::<M>::empty()),
    {
        let mut all: Vec<(M, ConnectionHandle)> = Vec::new();
        let ghost waiting = old(self).waiting()[id];
        proof {
            self.lemma_waiting_channels();
            assert(waiting.take(0) =~= Seq::empty());
            assert(waiting.skip(0) =~= waiting);
            assert(self.waiting() =~= old(self).waiting().insert(id, waiting.skip(0)));
        }
        loop
            invariant
                self.recvs().contains_key(id),
                self.properties() == old(self).properties(),
                self.sends() == old(self).sends(),
                self.recvs() == old(self).recvs(),
                waiting == old(self).waiting()[id],
                all@.len() <= waiting.len(),
                all@ == tagged(waiting.take(all@.len() as int), handle),
                self.waiting() == old(self).waiting().insert(id, waiting.skip(all@.len() as int)),
            ensures
                all@.len() == waiting.len(),
            decreases waiting.len() - all@.len(),
        {
            let ghost n = all@.len() as int;
            match self.receive(id) {
                None => {
                    break ;
                },
                Some(message) => {
                    all.push((message, handle));
                    proof {
                        assert(waiting.skip(n).drop_first() =~= waiting.skip(n + 1));
                        assert(self.waiting() =~= old(self).waiting().insert(
                            id,
                            waiting.skip(n + 1),
                        ));
                        assert(all@ =~= tagged(waiting.take(n + 1), handle));
                    }
                },
            }
        }
        proof {
            assert(waiting.take(waiting.len() as int) =~= waiting);
            assert(waiting.skip(waiting.len() as int) =~= Seq::empty());
        }
        all
    }

    /// Takes out the message that has waited longest on channel `id`, if one waits.
    pub fn receive(&mut self, id: u8) -> (res: Option<M>)
        requires
            old(self).recvs().contains_key(id),
        ensures
            final(self).properties() == old(self).properties(),
            final(self).sends() == old(self).sends(),
            final(self).recvs() == old(self).recvs(),
            old(self).gave_out(*final(self), id, res),
    {
        match self.recv.remove(&id) {
            None => None,
            Some(recv) => {
                let ChannelRecv { channel, decode, mut queue } = recv;
                let res = queue.pop_front();
                self.recv.insert(id, ChannelRecv { channel, decode, queue });
                assert(self.recvs() =~= old(self).recvs());
                assert(res is None ==> self.waiting() =~= old(self).waiting());
                assert(res is Some ==> self.waiting() =~= old(self).waiting().insert(
                    id,
                    old(self).waiting()[id].drop_first(),
                ));
                res
            },
        }
    }

    /// What `receive` does to the messages that wait, and what it returns.
    pub open spec fn gave_out(self, after: Self, id: u8, res: Option<M>) -> bool {
        let waiting = self.waiting()[id];
        match res {
            Some(message) => {
                &&& waiting.len() > 0
                &&& message == waiting.first()
                &&& after.waiting() == self.waiting().insert(id, waiting.drop_first())
            },
            None => waiting.len() == 0 && after.waiting() == self.waiting(),
        }
    }

    /// The channel with number `id` to receive on, if there is one.
    pub fn recv_channel(&self, id: u8) -> (res: Option<&Channel>)
        ensures
            match res {
                Some(channel) => self.recvs().contains_key(id) && *channel == self.recvs()[id].0,
                None => !self.recvs().contains_key(id),
            },
    {
        match self.recv.get(&id) {
            Some(recv) => Some(&recv.channel),
            None => None,
        }
    }

    /// A message waits on exactly the channels to receive on.
    pub proof fn lemma_waiting_channels(&self)
        ensures
            self.waiting().dom() == self.recvs().dom(),
    {
        assert(self.waiting().dom() =~= self.recvs().dom());
    }

    /// On a connection with the channels of `channels`, messages are received as the type that their
    /// channel was added with, and as no other.
    pub proof fn lemma_received_as_added<T: NetworkMessage>(
        &self,
        channels: &Channels<F>,
        added: TypeId,
        ty_name: &'static str,
        asked: TypeId,
    )
        requires
            self.recvs() == channels.recvs(),
            channels.recvs().contains_key(T::CHANNEL_ID),
            channels.recvs()[T::CHANNEL_ID].0.carries::<T>(added, ty_name),
        ensures
            self.refuses::<T>(asked) is None <==> asked == added,
            asked != added ==> self.refuses::<T>(asked) == Some(ReceiveError::OtherType(ty_name)),
    {
    }

    /// The messages of a channel are received in the order in which they arrived, each of them once,
    /// and then no more.
    pub proof fn lemma_received_in_order(states: Seq<Self>, id: u8, outcomes: Seq<Option<M>>)
        requires
            states.len() == outcomes.len() + 1,
            forall|i: int|
                0 <= i < outcomes.len() ==> states[i].gave_out(
                    states[i + 1],
                    id,
                    #[trigger] outcomes[i],
                ),
        ensures
            forall|i: int|
                0 <= i < outcomes.len() ==> #[trigger] outcomes[i] == if i
                    < states[0].waiting()[id].len() {
                    Some(states[0].waiting()[id][i])
                } else {
                    None
                },
    {
        assert forall|i: int| 0 <= i < outcomes.len() implies #[trigger] outcomes[i] == if i
            < states[0].waiting()[id].len() {
            Some(states[0].waiting()[id][i])
        } else {
            None
        } by {
            Self::lemma_left_waiting(states, id, outcomes, i);
        }
    }

    /// After `i` were received, the messages from number `i` on wait.
    proof fn lemma_left_waiting(states: Seq<Self>, id: u8, outcomes: Seq<Option<M>>, i: int)
        requires
            states.len() == outcomes.len() + 1,
            forall|i: int|
                0 <= i < outcomes.len() ==> states[i].gave_out(
                    states[i + 1],
                    id,
                    #[trigger] outcomes[i],
                ),
            0 <= i <= outcomes.len(),
        ensures
            ({
                let waiting = states[0].waiting()[id];
                states[i].waiting()[id] == if i < waiting.len() {
                    waiting.skip(i)
                } else {
                    Seq::empty()
                }
            }),
        decreases i,
    {
        let waiting = states[0].waiting()[id];
        if i == 0 {
            assert(waiting.skip(0) =~= waiting);
            assert(waiting.len() == 0 ==> waiting =~= Seq::empty());
        } else {
            Self::lemma_left_waiting(states, id, outcomes, i - 1);
            let outcome = outcomes[i - 1];
            if i <= waiting.len() {
                assert(waiting.skip(i - 1).drop_first() =~= waiting.skip(i));
                assert(i == waiting.len() ==> waiting.skip(i) =~= Seq::empty());
            }
        }
    }

    /// A message that arrives waits behind those that wait on its channel, and moves none on another.
    pub proof fn lemma_arrives_behind<E>(
        self,
        after: Self,
        new_data: NewDataAvailable,
        new_data_after: NewDataAvailable,
        channel_id: ChannelId,
        message: M,
        res: Option<Result<(), DecodeError<E>>>,
    )
        requires
            self.waiting().contains_key(channel_id.number()),
            self.took_decoded(
                after,
                new_data,
                new_data_after,
                channel_id,
                Ok::<M, DecodeError<E>>(message),
                res,
            ),
        ensures
            after.waiting()[channel_id.number()] == self.waiting()[channel_id.number()].push(
                message,
            ),
            forall|other: u8| #[trigger]
                self.waiting().contains_key(other) && other != channel_id.number()
                    ==> after.waiting()[other] == self.waiting()[other],
            after.waiting().dom() == self.waiting().dom(),
            new_data_after.pending(),
            res == Some(Ok::<(), DecodeError<E>>(())),
    {
        assert(after.waiting().dom() =~= self.waiting().dom());
    }

    /// What could not be decoded is handed on as the reason, and what came on a channel that is not
    /// there is no reason for anything. Neither moves a message or announces one.
    pub proof fn lemma_lost_moves_nothing<E>(
        self,
        after: Self,
        new_data: NewDataAvailable,
        new_data_after: NewDataAvailable,
        channel_id: ChannelId,
        decoded: Result<M, DecodeError<E>>,
        res: Option<Result<(), DecodeError<E>>>,
    )
        requires
            decoded is Err || !self.waiting().contains_key(channel_id.number()),
            self.took_decoded(after, new_data, new_data_after, channel_id, decoded, res),
        ensures
            after.waiting() == self.waiting(),
            new_data_after == new_data,
            self.waiting().contains_key(channel_id.number()) ==> res == Some(
                Err::<(), DecodeError<E>>(decoded->Err_0),
            ),
            !self.waiting().contains_key(channel_id.number()) ==> res is None,
    {
    }

    /// Receiving gives the message that has waited longest, if one waits. Those behind it each move up
    /// by one place, and nothing moves on another channel.
    pub proof fn lemma_received_from_front(self, after: Self, id: u8, res: Option<M>)
        requires
            self.waiting().contains_key(id),
            self.gave_out(after, id, res),
        ensures
            after.waiting().dom() == self.waiting().dom(),
            forall|other: u8|
                other != id && self.waiting().contains_key(other)
                    ==> #[trigger] after.waiting()[other] == self.waiting()[other],
            res is None <==> self.waiting()[id].len() == 0,
            res is None ==> after.waiting()[id].len() == 0,
            res matches Some(message) ==> message == self.waiting()[id][0],
            res is Some ==> after.waiting()[id].len() == self.waiting()[id].len() - 1,
            res is Some ==> forall|i: int|
                0 <= i < after.waiting()[id].len() ==> #[trigger] after.waiting()[id][i]
                    == self.waiting()[id][i + 1],
    {
        assert(after.waiting().dom() =~= self.waiting().dom());
    }

    /// Messages of a type can be received exactly where there is a channel with the number of the type
    /// and it was added for that type. If there is none, that is the reason. If it was added for another
    /// type, that type is.
    pub proof fn lemma_refused_for_a_reason<T: NetworkMessage>(&self, ty: TypeId)
        ensures
            self.refuses::<T>(ty) is None <==> self.recvs().contains_key(T::CHANNEL_ID)
                && self.recvs()[T::CHANNEL_ID].0.ty == ty,
            !self.recvs().contains_key(T::CHANNEL_ID) ==> self.refuses::<T>(ty) == Some(
                ReceiveError::NoChannel,
            ),
            self.recvs().contains_key(T::CHANNEL_ID) && self.recvs()[T::CHANNEL_ID].0.ty != ty
                ==> self.refuses::<T>(ty) == Some(
                ReceiveError::OtherType(self.recvs()[T::CHANNEL_ID].0.ty_name),
            ),
    {
    }
}

/// However many messages there are, each stands at its own place, with the handle.
pub proof fn lemma_tagged_each<M>(messages: Seq<M>, handle: ConnectionHandle)
    ensures
        tagged(messages, handle).len() == messages.len(),
        forall|i: int|
            0 <= i < messages.len() ==> #[trigger] tagged(messages, handle)[i] == (
                messages[i],
                handle,
            ),
{
}

} // verus!
