pub mod line;
pub mod node;
pub mod layer_pipe_item;
pub mod physical_layer;
pub mod first_layer;
pub mod second_layer;
pub mod channel_monitor;
pub mod token_table;
pub mod expired_streams_cleaner;
pub mod address_map_resolver;
pub mod peer_channel;
pub mod protocol_layers;

use vstd::prelude::*;
use instant::Instant;
use crate::clock::{instant_now, elapsed_nanos};
use crate::utils::IdCounter;
use self::node::NodeAddress;

verus! {

/// A token that names a timer; the entity that started the timer knows it by
/// its identifier when it fires.
#[derive(Clone, Copy)]
pub struct TimerOwnerToken {
    id: usize,
    time_stamp: Instant,
    delay: u128,
}

impl TimerOwnerToken {
    pub closed spec fn spec_id(&self) -> usize {
        self.id
    }

    pub closed spec fn spec_delay(&self) -> u128 {
        self.delay
    }

    /// The moment the token was made.
    pub closed spec fn spec_created_at(&self) -> Instant {
        self.time_stamp
    }

    /// A token for a timer of `delay` nanoseconds, named by an identifier
    /// taken from `ids`.
    pub fn new(ids: &mut IdCounter, delay: u128) -> (r: Self)
        ensures
            r.spec_id() == old(ids).peek(),
            r.spec_delay() == delay,
            final(ids).peek() == (if old(ids).peek() == usize::MAX { 0 } else { old(ids).peek() + 1 }),
    {
        TimerOwnerToken { id: ids.next_id(), time_stamp: instant_now(), delay }
    }

    pub fn id(&self) -> (r: usize)
        ensures
            r == self.spec_id(),
    {
        self.id
    }

    /// The delay of the timer, in nanoseconds.
    pub fn delay(&self) -> (r: u128)
        ensures
            r == self.spec_delay(),
    {
        self.delay
    }

    pub fn created_at(&self) -> (r: Instant)
        ensures
            r == self.spec_created_at(),
    {
        self.time_stamp
    }

    /// Whether the two tokens name the same timer.
    pub open spec fn same_spec(self, other: Self) -> bool {
        self.spec_id() == other.spec_id() && self.spec_delay() == other.spec_delay()
    }

    /// Whether the two tokens name the same timer.
    pub fn same(&self, other: &Self) -> (r: bool)
        ensures
            r == self.same_spec(*other),
    {
        self.id == other.id && self.delay == other.delay
    }
}

/// The body of a message: text, or the time at which it was sent.
pub enum MessageBody {
    Data(String),
    TimeStamp(Instant),
}

/// What a message body holds.
pub enum BodyView {
    Data(Seq<char>),
    TimeStamp(Instant),
}

impl View for MessageBody {
    type V = BodyView;

    open spec fn view(&self) -> BodyView {
        match self {
            MessageBody::Data(s) => BodyView::Data(s@),
            MessageBody::TimeStamp(t) => BodyView::TimeStamp(*t),
        }
    }
}

impl MessageBody {
    /// An empty text.
    pub fn empty() -> (r: Self)
        ensures
            r@ == BodyView::Data(Seq::empty()),
    {
        MessageBody::Data(String::new())
    }

    pub fn duplicate(&self) -> (r: Self)
        ensures
            r@ == self@,
    {
        match self {
            MessageBody::Data(s) => MessageBody::Data(s.clone()),
            MessageBody::TimeStamp(t) => MessageBody::TimeStamp(*t),
        }
    }
}

pub type MessageBodyType = MessageBody;

pub type ServiceToken = ChannelToken;

/// What a channel carries.
#[derive(Clone, Copy, PartialEq, Eq, Hash, Structural)]
pub enum ChannelType {
    Data,
    Service,
}

/// A token that names a channel or a service; two tokens are the same when
/// their identifiers are.
#[derive(Clone, Copy)]
pub struct ChannelToken {
    id: usize,
    channel_type: ChannelType,
    starts: Instant,
    expires: Option<u128>,
}

impl ChannelToken {
    pub closed spec fn spec_id(&self) -> usize {
        self.id
    }

    pub closed spec fn spec_expires(&self) -> Option<u128> {
        self.expires
    }

    pub closed spec fn spec_channel_type(&self) -> ChannelType {
        self.channel_type
    }

    /// A token that expires `duration` nanoseconds after it was last touched.
    pub fn durable(id: usize, duration: u128, channel_type: ChannelType) -> (r: Self)
        ensures
            r.spec_id() == id,
            r.spec_expires() == Some(duration),
            r.spec_channel_type() == channel_type,
    {
        ChannelToken { id, channel_type, starts: instant_now(), expires: Some(duration) }
    }

    /// A service token that never expires.
    pub fn ageless(id: usize) -> (r: Self)
        ensures
            r.spec_id() == id,
            r.spec_expires() == None::<u128>,
            r.spec_channel_type() == ChannelType::Service,
    {
        ChannelToken { id, channel_type: ChannelType::Service, starts: instant_now(), expires: None }
    }

    /// A data token that has expired as soon as it is made.
    pub fn expired_at_once(id: usize) -> (r: Self)
        ensures
            r.spec_id() == id,
            r.spec_expires() == Some(0u128),
            r.spec_channel_type() == ChannelType::Data,
    {
        ChannelToken { id, channel_type: ChannelType::Data, starts: instant_now(), expires: Some(0) }
    }

    pub fn id(&self) -> (r: usize)
        ensures
            r == self.spec_id(),
    {
        self.id
    }

    /// Whether a token is expired once `elapsed` nanoseconds have gone by
    /// since it was last touched: more than its lifetime, if it has one.
    pub open spec fn expired_at(&self, elapsed: u128) -> bool {
        match self.spec_expires() {
            Some(e) => elapsed > e,
            None => false,
        }
    }

    /// Whether the token is expired when `elapsed` nanoseconds have gone by
    /// since it was last touched.
    pub fn expired_after(&self, elapsed: u128) -> (r: bool)
        ensures
            r == self.expired_at(elapsed),
    {
        match self.expires {
            Some(expires) => elapsed > expires,
            None => false,
        }
    }

    /// Whether more time than the token's lifetime has gone by since it was
    /// last touched, as the clock reads now; a token with no lifetime never
    /// expires.
    pub fn expired(&self) -> (r: bool)
        ensures
            exists|elapsed: u128| r == self.expired_at(elapsed),
            r ==> self.spec_expires() is Some,
    {
        let elapsed = elapsed_nanos(&self.starts);
        self.expired_after(elapsed)
    }

    /// The nanoseconds gone by since the token was last touched, as the clock
    /// reads now.
    pub fn elapsed(&self) -> (r: u128) {
        elapsed_nanos(&self.starts)
    }

    /// Restarts the token's lifetime, unless it had expired when `elapsed`
    /// nanoseconds had gone by since it was last touched; says whether it
    /// did. The token keeps its identifier and lifetime either way.
    pub fn touch_after(&mut self, elapsed: u128) -> (r: bool)
        ensures
            final(self).spec_id() == old(self).spec_id(),
            final(self).spec_expires() == old(self).spec_expires(),
            final(self).spec_channel_type() == old(self).spec_channel_type(),
            r == !old(self).expired_at(elapsed),
            !r ==> *final(self) == *old(self),
    {
        if !self.expired_after(elapsed) {
            self.starts = instant_now();
            true
        } else {
            false
        }
    }

    /// Restarts the token's lifetime, unless it has expired, as the clock
    /// reads now; says whether it did. The token keeps its identifier and
    /// lifetime either way.
    pub fn touch(&mut self) -> (r: bool)
        ensures
            final(self).spec_id() == old(self).spec_id(),
            final(self).spec_expires() == old(self).spec_expires(),
            final(self).spec_channel_type() == old(self).spec_channel_type(),
            exists|elapsed: u128| r == !old(self).expired_at(elapsed),
            !r ==> *final(self) == *old(self),
            old(self).spec_expires() is None ==> r,
    {
        let elapsed = self.elapsed();
        self.touch_after(elapsed)
    }

    /// The token's lifetime in nanoseconds, if it has one.
    pub fn expires(&self) -> (r: Option<u128>)
        ensures
            r == self.spec_expires(),
    {
        self.expires
    }

    /// Whether the two tokens are the same.
    pub fn same(&self, other: &Self) -> (r: bool)
        ensures
            r == (self.spec_id() == other.spec_id()),
    {
        self.id == other.id
    }
}

/// The kind of a chunk on the first layer.
#[derive(Clone, Copy, PartialEq, Eq, Structural)]
pub enum ChunkType {
    ChannelRequest(bool),
    ChannelResponse,
    ChannelDrop,
    ChannelKeepAlive,
    Data,
    Service,
}

/// The header the first layer puts on a chunk.
#[derive(Clone, Copy)]
pub struct FirstLayerHeader {
    pub id: usize,
    pub chunk_type: ChunkType,
    pub channel_token: Option<ChannelToken>,
}

impl FirstLayerHeader {
    /// A header named by an identifier taken from `ids`.
    pub fn new(ids: &mut IdCounter, chunk_type: ChunkType, channel_token: Option<ChannelToken>) -> (r: Self)
        ensures
            r.id == old(ids).peek(),
            r.chunk_type == chunk_type,
            r.channel_token == channel_token,
            final(ids).peek() == (if old(ids).peek() == usize::MAX { 0 } else { old(ids).peek() + 1 }),
    {
        FirstLayerHeader { id: ids.next_id(), chunk_type, channel_token }
    }
}

/// The kind of a block on the second layer.
#[derive(Clone, Copy, PartialEq, Eq, Structural)]
pub enum BlockType {
    AddressMapRequest,
    AddressMapResponse,
    ChannelRequest,
    DropToken,
    Data,
    Unspecified,
}

/// The header the second layer puts on a block: its kind, its source node and
/// its destination node.
#[derive(Clone, Copy)]
pub struct SecondLayerHeader {
    pub block_type: BlockType,
    pub src: NodeAddress,
    pub dest: NodeAddress,
}

impl SecondLayerHeader {
    pub open spec fn new_spec(block_type: BlockType, src: NodeAddress, dest: NodeAddress) -> Self {
        SecondLayerHeader { block_type, src, dest }
    }

    pub fn new(block_type: BlockType, src: NodeAddress, dest: NodeAddress) -> (r: Self)
        ensures
            r.block_type == block_type,
            r.src == src,
            r.dest == dest,
    {
        SecondLayerHeader { block_type, src, dest }
    }
}

/// A header of either layer, or none.
#[derive(Clone, Copy)]
pub enum Headers {
    FirstLayer(FirstLayerHeader),
    SecondLayer(SecondLayerHeader),
    NoHeader,
}

impl Headers {
    pub fn is_none(&self) -> (r: bool)
        ensures
            r == (*self is NoHeader),
    {
        match self {
            Headers::NoHeader => true,
            _ => false,
        }
    }
}

/// A message with the headers the layers wrapped it in: the first layer's
/// outside the second layer's.
pub struct Chunk {
    first: Option<FirstLayerHeader>,
    second: Option<SecondLayerHeader>,
    body: MessageBody,
}

/// What a chunk holds.
pub struct ChunkView {
    pub first: Option<FirstLayerHeader>,
    pub second: Option<SecondLayerHeader>,
    pub body: BodyView,
}

impl View for Chunk {
    type V = ChunkView;

    closed spec fn view(&self) -> ChunkView {
        ChunkView { first: self.first, second: self.second, body: self.body@ }
    }
}

/// The outermost header of a chunk.
pub open spec fn outer_header(c: ChunkView) -> Headers {
    match c.first {
        Some(h) => Headers::FirstLayer(h),
        None => match c.second {
            Some(h) => Headers::SecondLayer(h),
            None => Headers::NoHeader,
        },
    }
}

/// A chunk with its outermost header taken off.
pub open spec fn unwrapped(c: ChunkView) -> ChunkView {
    match c.first {
        Some(_) => ChunkView { first: None, ..c },
        None => ChunkView { second: None, ..c },
    }
}

/// A chunk wrapped in `h`, which takes the place of any header of its layer.
pub open spec fn wrapped(c: ChunkView, h: Headers) -> ChunkView {
    match h {
        Headers::FirstLayer(f) => ChunkView { first: Some(f), ..c },
        Headers::SecondLayer(s) => ChunkView { second: Some(s), ..c },
        Headers::NoHeader => c,
    }
}

impl Chunk {
    /// A chunk with no header around `message`.
    pub fn from_message(message: MessageBody) -> (r: Self)
        ensures
            r@ == (ChunkView { first: None, second: None, body: message@ }),
    {
        Chunk { first: None, second: None, body: message }
    }

    /// A chunk with no header around an empty text.
    pub fn empty() -> (r: Self)
        ensures
            r@ == (ChunkView { first: None, second: None, body: BodyView::Data(Seq::empty()) }),
    {
        Chunk::from_message(MessageBody::empty())
    }

    /// Wraps the chunk in `header`.
    pub fn swaddle(&mut self, header: Headers)
        ensures
            final(self)@ == wrapped(old(self)@, header),
    {
        match header {
            Headers::FirstLayer(h) => {
                self.first = Some(h);
            },
            Headers::SecondLayer(h) => {
                self.second = Some(h);
            },
            Headers::NoHeader => {},
        }
    }

    /// Takes off the outermost header and returns it.
    pub fn unswaddle(&mut self) -> (r: Headers)
        ensures
            r == outer_header(old(self)@),
            final(self)@ == unwrapped(old(self)@),
    {
        match self.first.take() {
            Some(h) => Headers::FirstLayer(h),
            None => match self.second.take() {
                Some(h) => Headers::SecondLayer(h),
                None => Headers::NoHeader,
            },
        }
    }

    /// The outermost header.
    pub fn header(&self) -> (r: Headers)
        ensures
            r == outer_header(self@),
    {
        match self.first {
            Some(h) => Headers::FirstLayer(h),
            None => match self.second {
                Some(h) => Headers::SecondLayer(h),
                None => Headers::NoHeader,
            },
        }
    }

    /// The second layer's header, if the chunk carries one.
    pub fn second_layer_header(&self) -> (r: Option<SecondLayerHeader>)
        ensures
            r == self@.second,
    {
        self.second
    }

    pub fn body(&self) -> (r: &MessageBody)
        ensures
            r@ == self@.body,
    {
        &self.body
    }

    pub fn take(self) -> (r: MessageBody)
        ensures
            r@ == self@.body,
    {
        self.body
    }

    pub fn duplicate(&self) -> (r: Self)
        ensures
            r@ == self@,
    {
        Chunk { first: self.first, second: self.second, body: self.body.duplicate() }
    }
}

/// Taking off the outermost header undoes wrapping a chunk in a header of a
/// layer whose place was empty: the header comes back and the chunk is as it was.
pub proof fn lemma_unswaddle_undoes_swaddle(c: ChunkView, h: Headers)
    requires
        h is FirstLayer ==> c.first is None,
        h is SecondLayer ==> c.first is None && c.second is None,
        !(h is NoHeader),
    ensures
        outer_header(wrapped(c, h)) == h,
        unwrapped(wrapped(c, h)) == c,
{
}

} // verus!
