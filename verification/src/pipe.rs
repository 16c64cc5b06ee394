use vstd::prelude::*;
use std::collections::VecDeque;

verus! {

/// The way an item moves through a pipe: events go up, commands go down.
#[derive(Clone, Copy, PartialEq, Eq, Structural)]
pub enum PropagationDirecion {
    Up,
    Down,
    Nothing,
}

/// An item that travels through a pipe.
pub trait Item: Sized {
    /// The direction in which the item travels.
    spec fn spec_dir(&self) -> PropagationDirecion;

    fn dir(&self) -> (d: PropagationDirecion)
        ensures
            d == self.spec_dir(),
    ;
}

/// Something with an invariant of its own.
pub trait Entity {
    spec fn inv(&self) -> bool;

    /// The kind of entity, which a notification keeps.
    open spec fn kind(&self) -> int {
        0
    }
}

/// The state the entities of a layer share, with its invariant.
pub trait LayerState {
    spec fn state_ok(&self) -> bool;
}

/// A protocol entity hooked on a pipe. The pipe hands it the item at the front
/// of the queue together with the state `S` that the entities of a layer share.
pub trait EventTarget<T: Item, S: LayerState>: Entity + Sized {
    /// Whether the entity lets `item` by: handed that item, it leaves itself
    /// and the shared state as they are, and the pipe either as it is or with
    /// the item moved on unchanged.
    spec fn passes(&self, item: T) -> bool;

    /// What a notification does: from the entity, the shared state and the
    /// pipe before it to the entity, the shared state and the pipe after it.
    spec fn notified(&self, shared: S, alloc: PipeState<T>, next: Self, next_shared: S, next_alloc: PipeState<T>) -> bool;

    /// Whether the entity, handed `item`, puts another item in its place that
    /// moves on in the same direction, leaving itself as it is.
    open spec fn rewrites_some(&self, item: T) -> bool {
        false
    }

    /// Whether the entity may rewrite `item` into `out`, the shared state
    /// going from `shared` to `next_shared`.
    open spec fn rewrites(&self, shared: S, item: T, next_shared: S, out: T) -> bool {
        false
    }

    fn notify(&mut self, shared: &mut S, curr_items: &mut SharedPipeAlloc<T>)
        requires
            old(self).inv(),
            old(shared).state_ok(),
            old(curr_items)@.well_formed(),
            old(curr_items)@.queue.len() > 0,
        ensures
            final(self).inv(),
            final(shared).state_ok(),
            final(curr_items)@.well_formed(),
            final(curr_items)@.bottom == old(curr_items)@.bottom,
            grows(old(curr_items)@, final(curr_items)@),
            final(self).kind() == old(self).kind(),
            old(self).rewrites_some(old(curr_items)@.queue[0].0) ==> *final(self) == *old(self)
                && exists|out: T| #[trigger] old(self).rewrites(*old(shared), old(curr_items)@.queue[0].0, *final(shared), out)
                    && out.spec_dir() == old(curr_items)@.queue[0].0.spec_dir()
                    && final(curr_items)@ == old(curr_items)@.replaced_front(out),
            old(self).notified(*old(shared), old(curr_items)@, *final(self), *final(shared), final(curr_items)@),
            old(self).passes(old(curr_items)@.queue[0].0)
                ==> *final(self) == *old(self) && *final(shared) == *old(shared)
                && (final(curr_items)@ == old(curr_items)@ || final(curr_items)@ == old(curr_items)@.advanced_front()),
    ;
}

/// What a pipe's allocation holds: the queue of items in flight, each with the
/// index of the entity it stands at; the index of the item taken last; the
/// number of entities; and the items that left the pipe at the top and at the
/// bottom, each with a flag that says whether it was pushed out as done.
pub struct PipeState<T> {
    pub queue: Seq<(T, usize)>,
    pub taken: usize,
    pub bottom: usize,
    pub top: Seq<(T, bool)>,
    pub bot: Seq<(T, bool)>,
}

impl<T: Item> PipeState<T> {
    /// Queued items stand at an entity of the pipe, and each item that left
    /// the pipe went out on the side its direction points to.
    pub open spec fn well_formed(self) -> bool {
        &&& (self.taken < self.bottom || (self.bottom == 0 && self.taken == 0))
        &&& forall|i: int| 0 <= i < self.queue.len() ==> #[trigger] self.queue[i].1 < self.bottom
        &&& forall|i: int| 0 <= i < self.top.len() ==> (#[trigger] self.top[i]).0.spec_dir() == PropagationDirecion::Up
        &&& forall|i: int| 0 <= i < self.bot.len() ==> (#[trigger] self.bot[i]).0.spec_dir() == PropagationDirecion::Down
    }

    /// The index of the entity that is handling an item now: that of the front
    /// item, or, with an empty queue, that of the item taken last.
    pub open spec fn cur_index(self) -> usize {
        if self.queue.len() > 0 {
            self.queue[0].1
        } else {
            self.taken
        }
    }

    /// `item` pushed by the entity at the current index: it is queued at the
    /// next entity in its direction, or leaves the pipe if there is none.
    pub open spec fn pushed(self, item: T) -> Self {
        let i = self.cur_index();
        match item.spec_dir() {
            PropagationDirecion::Up => if i > 0 {
                PipeState { queue: self.queue.push((item, (i - 1) as usize)), ..self }
            } else {
                PipeState { top: self.top.push((item, false)), ..self }
            },
            PropagationDirecion::Down => if i + 1 < self.bottom {
                PipeState { queue: self.queue.push((item, (i + 1) as usize)), ..self }
            } else {
                PipeState { bot: self.bot.push((item, false)), ..self }
            },
            PropagationDirecion::Nothing => self,
        }
    }

    /// `item` pushed out of the pipe, on its side, as done.
    pub open spec fn pushed_done(self, item: T) -> Self {
        match item.spec_dir() {
            PropagationDirecion::Up => PipeState { top: self.top.push((item, true)), ..self },
            PropagationDirecion::Down => PipeState { bot: self.bot.push((item, true)), ..self },
            PropagationDirecion::Nothing => self,
        }
    }

    /// The items pushed one after another.
    pub open spec fn extended(self, items: Seq<T>) -> Self
        decreases items.len(),
    {
        if items.len() == 0 {
            self
        } else {
            self.extended(items.drop_last()).pushed(items.last())
        }
    }

    /// The front item taken out of the queue.
    pub open spec fn taken_front(self) -> Self {
        if self.queue.len() > 0 {
            PipeState { queue: self.queue.drop_first(), taken: self.queue[0].1, ..self }
        } else {
            self
        }
    }

    /// The front item moved on to the next entity in its direction, or out of
    /// the pipe if there is none.
    pub open spec fn advanced_front(self) -> Self {
        if self.queue.len() == 0 {
            self
        } else {
            let (item, i) = self.queue[0];
            match item.spec_dir() {
                PropagationDirecion::Up => if i > 0 {
                    PipeState { queue: self.queue.update(0, (item, (i - 1) as usize)), ..self }
                } else {
                    PipeState { queue: self.queue.drop_first(), top: self.top.push((item, false)), ..self }
                },
                PropagationDirecion::Down => if i + 1 < self.bottom {
                    PipeState { queue: self.queue.update(0, (item, (i + 1) as usize)), ..self }
                } else {
                    PipeState { queue: self.queue.drop_first(), bot: self.bot.push((item, false)), ..self }
                },
                PropagationDirecion::Nothing => self,
            }
        }
    }

    /// `item` gone through every entity and out of the pipe on its side, with
    /// nothing left in the queue.
    pub open spec fn let_through(self, item: T) -> Self {
        match item.spec_dir() {
            PropagationDirecion::Up => PipeState { queue: Seq::empty(), top: self.top.push((item, false)), ..self },
            PropagationDirecion::Down => PipeState { queue: Seq::empty(), bot: self.bot.push((item, false)), ..self },
            PropagationDirecion::Nothing => PipeState { queue: Seq::empty(), ..self },
        }
    }

    /// The front item replaced by `item`, which then moves on.
    pub open spec fn replaced_front(self, item: T) -> Self {
        if self.queue.len() == 0 {
            self
        } else {
            PipeState { queue: self.queue.update(0, (item, self.queue[0].1)), ..self }.advanced_front()
        }
    }
}

/// Whether what left the pipe at `a0` is still there, in order, at the
/// start of what left it at `a1`: the items that left it stay out.
pub open spec fn grows<T>(a0: PipeState<T>, a1: PipeState<T>) -> bool {
    &&& a1.top.len() >= a0.top.len()
    &&& forall|i: int| 0 <= i < a0.top.len() ==> #[trigger] a1.top[i] == a0.top[i]
    &&& a1.bot.len() >= a0.bot.len()
    &&& forall|i: int| 0 <= i < a0.bot.len() ==> #[trigger] a1.bot[i] == a0.bot[i]
}

/// Pushing items one after another keeps what left the pipe.
pub proof fn lemma_extend_grows<T: Item>(s: PipeState<T>, items: Seq<T>)
    ensures
        grows(s, s.extended(items)),
    decreases items.len(),
{
    if items.len() > 0 {
        lemma_extend_grows(s, items.drop_last());
    }
}

/// The sequences one after another.
pub open spec fn concat_all<A>(ss: Seq<Seq<A>>) -> Seq<A>
    decreases ss.len(),
{
    if ss.len() == 0 {
        Seq::empty()
    } else {
        concat_all(ss.drop_last()) + ss.last()
    }
}

/// What one item sent through a pipe gives, in its slot `outs` on one side:
/// an item with no direction gives nothing; an item flagged done leaves on
/// its own side as it is; and whatever comes out on that side goes in the
/// side's direction.
pub open spec fn slot_ok<T: Item>(item: (T, bool), outs: Seq<(T, bool)>, d: PropagationDirecion) -> bool {
    &&& item.0.spec_dir() == PropagationDirecion::Nothing ==> outs.len() == 0
    &&& item.1 ==> outs == routed(seq![item], d)
    &&& forall|i: int| 0 <= i < outs.len() ==> (#[trigger] outs[i]).0.spec_dir() == d
}

/// Replacing the front item by itself moves it on.
pub proof fn lemma_replace_same_is_advance<T: Item>(s: PipeState<T>)
    requires
        s.queue.len() > 0,
    ensures
        s.replaced_front(s.queue[0].0) == s.advanced_front(),
{
    assert(s.queue.update(0, (s.queue[0].0, s.queue[0].1)) =~= s.queue);
}

/// A lone item leaves on its own side, and on no other.
pub proof fn lemma_routed_single<T: Item>(x: (T, bool), d: PropagationDirecion)
    ensures
        routed(seq![x], d) == (if x.0.spec_dir() == d { seq![x] } else { Seq::<(T, bool)>::empty() }),
{
    assert(seq![x].drop_last() =~= Seq::<(T, bool)>::empty());
    assert(routed(Seq::<(T, bool)>::empty(), d) =~= Seq::<(T, bool)>::empty());
    if x.0.spec_dir() == d {
        assert(Seq::<(T, bool)>::empty().push(x) =~= seq![x]);
    }
}

/// No item leaves from no items.
pub proof fn lemma_routed_empty<T: Item>(d: PropagationDirecion)
    ensures
        routed(Seq::<(T, bool)>::empty(), d) == Seq::<(T, bool)>::empty(),
{
}

/// Items that leave a pipe on the side `d` without meeting an entity.
pub open spec fn routed<T: Item>(items: Seq<(T, bool)>, d: PropagationDirecion) -> Seq<(T, bool)>
    decreases items.len(),
{
    if items.len() == 0 {
        Seq::empty()
    } else {
        let r = routed(items.drop_last(), d);
        if items.last().0.spec_dir() == d {
            r.push(items.last())
        } else {
            r
        }
    }
}

/// Each operation on a pipe's allocation keeps it well formed.
pub proof fn lemma_operations_keep_well_formed<T: Item>(s: PipeState<T>, item: T)
    requires
        s.well_formed(),
    ensures
        s.pushed(item).well_formed(),
        s.pushed_done(item).well_formed(),
        s.taken_front().well_formed(),
        s.advanced_front().well_formed(),
        s.replaced_front(item).well_formed(),
{
    let p = s.pushed(item);
    assert(p.well_formed()) by {
        if s.queue.len() > 0 {
            assert(s.queue[0].1 < s.bottom);
        }
    }
    let d = s.pushed_done(item);
    assert(d.well_formed());
    let t = s.taken_front();
    assert(t.well_formed()) by {
        if s.queue.len() > 0 {
            assert(s.queue[0].1 < s.bottom);
            assert forall|i: int| 0 <= i < t.queue.len() implies #[trigger] t.queue[i].1 < t.bottom by {
                assert(t.queue[i] == s.queue[i + 1]);
            }
        }
    }
    lemma_advance_keeps_well_formed(s);
    if s.queue.len() > 0 {
        let r = PipeState { queue: s.queue.update(0, (item, s.queue[0].1)), ..s };
        assert(r.well_formed()) by {
            assert forall|i: int| 0 <= i < r.queue.len() implies #[trigger] r.queue[i].1 < r.bottom by {
                if i != 0 {
                    assert(r.queue[i] == s.queue[i]);
                }
            }
        }
        lemma_advance_keeps_well_formed(r);
    }
}

proof fn lemma_advance_keeps_well_formed<T: Item>(s: PipeState<T>)
    requires
        s.well_formed(),
    ensures
        s.advanced_front().well_formed(),
{
    if s.queue.len() > 0 {
        let a = s.advanced_front();
        assert(s.queue[0].1 < s.bottom);
        assert forall|i: int| 0 <= i < a.queue.len() implies #[trigger] a.queue[i].1 < a.bottom by {
            if a.queue.len() == s.queue.len() {
                if i != 0 {
                    assert(a.queue[i] == s.queue[i]);
                }
            } else {
                assert(a.queue[i] == s.queue[i + 1]);
            }
        }
    }
}

/// An item that leaves the pipe on the side its direction points to keeps
/// the allocation well formed.
proof fn lemma_leave_keeps_well_formed<T: Item>(s: PipeState<T>, item: (T, bool))
    requires
        s.well_formed(),
    ensures
        item.0.spec_dir() == PropagationDirecion::Up ==> (PipeState { top: s.top.push(item), ..s }).well_formed(),
        item.0.spec_dir() == PropagationDirecion::Down ==> (PipeState { bot: s.bot.push(item), ..s }).well_formed(),
{
    let t = PipeState { top: s.top.push(item), ..s };
    let b = PipeState { bot: s.bot.push(item), ..s };
    assert(forall|i: int| 0 <= i < s.top.len() ==> t.top[i] == s.top[i]);
    assert(forall|i: int| 0 <= i < s.bot.len() ==> b.bot[i] == s.bot[i]);
}

proof fn lemma_clear_keeps_well_formed<T: Item>(s: PipeState<T>)
    requires
        s.well_formed(),
    ensures
        (PipeState { top: Seq::empty(), bot: Seq::empty(), ..s }).well_formed(),
{
}

/// Pushing items one after another keeps the allocation well formed.
pub proof fn lemma_extend_keeps_well_formed<T: Item>(s: PipeState<T>, items: Seq<T>)
    requires
        s.well_formed(),
    ensures
        s.extended(items).well_formed(),
        s.extended(items).bottom == s.bottom,
    decreases items.len(),
{
    if items.len() > 0 {
        lemma_extend_keeps_well_formed(s, items.drop_last());
        lemma_operations_keep_well_formed(s.extended(items.drop_last()), items.last());
    }
}

/// The allocation shared by the entities of a pipe while an item propagates.
pub struct SharedPipeAlloc<T> {
    items_indexed: VecDeque<(T, usize)>,
    taken_item_index: usize,
    bottom: usize,
    top_items: VecDeque<(T, bool)>,
    bottom_items: VecDeque<(T, bool)>,
}

impl<T> View for SharedPipeAlloc<T> {
    type V = PipeState<T>;

    closed spec fn view(&self) -> PipeState<T> {
        PipeState {
            queue: self.items_indexed@,
            taken: self.taken_item_index,
            bottom: self.bottom,
            top: self.top_items@,
            bot: self.bottom_items@,
        }
    }
}

impl<T: Item> SharedPipeAlloc<T> {
    fn empty() -> (r: Self)
        ensures
            r@.queue.len() == 0,
            r@.taken == 0,
            r@.bottom == 0,
            r@.top.len() == 0,
            r@.bot.len() == 0,
    {
        SharedPipeAlloc {
            items_indexed: VecDeque::with_capacity(100),
            taken_item_index: 0,
            bottom: 0,
            top_items: VecDeque::with_capacity(100),
            bottom_items: VecDeque::with_capacity(100),
        }
    }

    fn init(&mut self, item: (T, usize))
        ensures
            final(self)@ == (PipeState { queue: seq![item], ..old(self)@ }),
    {
        self.items_indexed.clear();
        self.items_indexed.push_back(item);
        proof {
            assert(self@.queue =~= seq![item]);
        }
    }

    /// The item at the front of the queue.
    pub fn current(&self) -> (r: &T)
        requires
            self@.queue.len() > 0,
        ensures
            *r == self@.queue[0].0,
    {
        &self.items_indexed[0].0
    }

    /// Takes the front item out of the queue; the index it stood at becomes the
    /// current one.
    pub fn take_current(&mut self) -> (r: Option<T>)
        ensures
            final(self)@ == old(self)@.taken_front(),
            grows(old(self)@, final(self)@),
            old(self)@.well_formed() ==> final(self)@.well_formed(),
            final(self)@.bottom == old(self)@.bottom,
            r == (if old(self)@.queue.len() > 0 {
                Some(old(self)@.queue[0].0)
            } else {
                None
            }),
    {
        proof {
            if self@.well_formed() {
                lemma_operations_keep_well_formed(self@, arbitrary());
            }
        }
        match self.items_indexed.pop_front() {
            Some(item) => {
                self.taken_item_index = item.1;
                Some(item.0)
            },
            None => None,
        }
    }

    /// Replaces the front item by `item`, which then moves on.
    pub fn replace_propagate_current(&mut self, item: T)
        ensures
            final(self)@ == old(self)@.replaced_front(item),
            grows(old(self)@, final(self)@),
            old(self)@.well_formed() ==> final(self)@.well_formed(),
            final(self)@.bottom == old(self)@.bottom,
    {
        proof {
            if self@.well_formed() {
                lemma_operations_keep_well_formed(self@, item);
            }
        }
        self.replace_propagate_current_inner(Some(item));
    }

    /// Moves the front item on to the next entity in its direction.
    pub fn propagate_current(&mut self)
        ensures
            final(self)@ == old(self)@.advanced_front(),
            grows(old(self)@, final(self)@),
            old(self)@.well_formed() ==> final(self)@.well_formed(),
            final(self)@.bottom == old(self)@.bottom,
    {
        proof {
            if self@.well_formed() {
                lemma_advance_keeps_well_formed(self@);
            }
        }
        self.replace_propagate_current_inner(None);
    }

    fn replace_propagate_current_inner(&mut self, item: Option<T>)
        ensures
            final(self)@ == (match item {
                Some(it) => old(self)@.replaced_front(it),
                None => old(self)@.advanced_front(),
            }),
    {
        let ghost old_state = self@;
        let ghost s1 = if item is Some && old_state.queue.len() > 0 {
            PipeState { queue: old_state.queue.update(0, (item->0, old_state.queue[0].1)), ..old_state }
        } else {
            old_state
        };
        if let Some(front) = self.items_indexed.pop_front() {
            let (front_item, index) = front;
            let front_item = match item {
                Some(it) => it,
                None => front_item,
            };
            assert(s1.queue[0] == (front_item, index));
            match front_item.dir() {
                PropagationDirecion::Up => {
                    if index > 0 {
                        self.items_indexed.push_front((front_item, index - 1));
                        assert(self@.queue =~= s1.queue.update(0, (front_item, (index - 1) as usize)));
                    } else {
                        self.top_items.push_back((front_item, false));
                        assert(self@.queue =~= s1.queue.drop_first());
                    }
                },
                PropagationDirecion::Down => {
                    if index < self.bottom && index + 1 < self.bottom {
                        self.items_indexed.push_front((front_item, index + 1));
                        assert(self@.queue =~= s1.queue.update(0, (front_item, (index + 1) as usize)));
                    } else {
                        self.bottom_items.push_back((front_item, false));
                        assert(self@.queue =~= s1.queue.drop_first());
                    }
                },
                PropagationDirecion::Nothing => {
                    self.items_indexed.push_front((front_item, index));
                    assert(self@.queue =~= s1.queue);
                },
            }
        }
    }

    /// Pushes `item` from the current index: it is queued at the next entity
    /// in its direction, or leaves the pipe if there is none.
    pub fn push(&mut self, item: T)
        ensures
            final(self)@ == old(self)@.pushed(item),
            grows(old(self)@, final(self)@),
            old(self)@.well_formed() ==> final(self)@.well_formed(),
            final(self)@.bottom == old(self)@.bottom,
    {
        proof {
            if self@.well_formed() {
                lemma_operations_keep_well_formed(self@, item);
            }
        }
        let curr_index;
        if self.items_indexed.len() > 0 {
            curr_index = self.items_indexed[0].1;
        } else {
            curr_index = self.taken_item_index;
        }
        match item.dir() {
            PropagationDirecion::Up => {
                if curr_index > 0 {
                    self.items_indexed.push_back((item, curr_index - 1));
                } else {
                    self.top_items.push_back((item, false));
                }
            },
            PropagationDirecion::Down => {
                if curr_index < self.bottom && curr_index + 1 < self.bottom {
                    self.items_indexed.push_back((item, curr_index + 1));
                } else {
                    self.bottom_items.push_back((item, false));
                }
            },
            PropagationDirecion::Nothing => {},
        }
    }

    /// Pushes `item` out of the pipe on its side, as done.
    pub fn push_done(&mut self, item: T)
        ensures
            final(self)@ == old(self)@.pushed_done(item),
            grows(old(self)@, final(self)@),
            old(self)@.well_formed() ==> final(self)@.well_formed(),
            final(self)@.bottom == old(self)@.bottom,
    {
        proof {
            if self@.well_formed() {
                lemma_operations_keep_well_formed(self@, item);
            }
        }
        match item.dir() {
            PropagationDirecion::Up => {
                self.top_items.push_back((item, true));
            },
            PropagationDirecion::Down => {
                self.bottom_items.push_back((item, true));
            },
            PropagationDirecion::Nothing => {},
        }
    }

    /// Pushes the items one after another.
    pub fn extend(&mut self, items: Vec<T>)
        ensures
            final(self)@ == old(self)@.extended(items@),
            old(self)@.well_formed() ==> final(self)@.well_formed(),
            final(self)@.bottom == old(self)@.bottom,
            grows(old(self)@, final(self)@),
    {
        let ghost start = self@;
        let ghost all = items@;
        proof {
            lemma_extend_grows(start, all);
            if start.well_formed() {
                lemma_extend_keeps_well_formed(start, all);
            }
        }
        let mut items = items;
        let mut k: usize = 0;
        assert(all.len() == items.len());
        while items.len() > 0
            invariant
                k + items@.len() == all.len(),
                all.len() <= usize::MAX,
                items@ == all.subrange(k as int, all.len() as int),
                self@ == start.extended(all.subrange(0, k as int)),
                self@.bottom == start.bottom,
            decreases items.len(),
        {
            let it = items.remove(0);
            assert(it == all[k as int]);
            assert(all.subrange(0, k + 1).drop_last() =~= all.subrange(0, k as int));
            self.push(it);
            k = k + 1;
            assert(items@ =~= all.subrange(k as int, all.len() as int));
        }
        assert(all.subrange(0, all.len() as int) =~= all);
    }
}

/// A chain of protocol entities: commands enter at the top and travel down,
/// events enter at the bottom and travel up, each entity seeing the item in
/// turn and free to change, hold back or add items.
pub struct Pipe<T, E> {
    queue: Vec<E>,
    shared_alloc: SharedPipeAlloc<T>,
}

impl<T: Item, E: Entity> Pipe<T, E> {
    /// The entities hooked on the pipe, from the top one down.
    pub closed spec fn entities(&self) -> Seq<E> {
        self.queue@
    }

    /// The pipe's allocation: the queue, the index taken last, the number of
    /// entities, and what left the pipe.
    pub closed spec fn allocation(&self) -> PipeState<T> {
        self.shared_alloc@
    }

    /// What sending `items` does, from this pipe with the state `sh0` to
    /// `next` with `sh1`, leaving `down` at the bottom and `up` at the top.
    pub open spec fn spec_sent<S: LayerState>(&self, sh0: S, items: Seq<(T, bool)>, next: Self, sh1: S,
        down: Seq<(T, bool)>, up: Seq<(T, bool)>) -> bool
        where E: EventTarget<T, S>,
    {
        pipe_sent(self.entities(), sh0, self.allocation(), items, next.entities(), sh1, next.allocation(), down, up)
    }

    /// The allocation agrees with the entities hooked on the pipe.
    pub closed spec fn well_formed(&self) -> bool {
        &&& self.shared_alloc@.bottom == self.queue@.len()
        &&& self.shared_alloc@.well_formed()
        &&& forall|i: int| 0 <= i < self.queue@.len() ==> (#[trigger] self.queue@[i]).inv()
    }

    /// A pipe with no entity hooked.
    pub fn new() -> (r: Self)
        ensures
            r.well_formed(),
            r.entities().len() == 0,
    {
        Pipe { queue: Vec::new(), shared_alloc: SharedPipeAlloc::empty() }
    }

    /// Hooks `target` below the entities already hooked.
    pub fn hook(&mut self, target: E)
        requires
            old(self).well_formed(),
            target.inv(),
            old(self).entities().len() < usize::MAX,
        ensures
            final(self).well_formed(),
            final(self).entities() == old(self).entities().push(target),
    {
        self.queue.push(target);
        self.shared_alloc.bottom = self.shared_alloc.bottom + 1;
        assert(self.shared_alloc@.bottom == self.queue@.len());
        assert(self.shared_alloc@.queue == old(self).shared_alloc@.queue);
        assert(self.shared_alloc@.top == old(self).shared_alloc@.top);
        assert(self.shared_alloc@.taken < self.shared_alloc@.bottom);
        assert(forall|i: int| 0 <= i < old(self).queue@.len() ==> self.queue@[i] == old(self).queue@[i]);
    }
}

/// Whether every entity lets `item` by.
pub open spec fn all_pass<T: Item, S: LayerState, E: EventTarget<T, S>>(es: Seq<E>, item: T) -> bool {
    forall|i: int| 0 <= i < es.len() ==> (#[trigger] es[i]).passes(item)
}

/// A command entering at `i0` that every entity down to the `j`th lets by,
/// that the `j`th rewrites rather than lets by, and whose every rewriting
/// the entities below the `j`th let by.
pub open spec fn rewrite_path<T: Item, S: LayerState, E: EventTarget<T, S>>(es: Seq<E>, item: T, i0: int, j: int) -> bool {
    &&& item.spec_dir() == PropagationDirecion::Down
    &&& 0 <= i0 <= j < es.len()
    &&& forall|i: int| i0 <= i < j ==> (#[trigger] es[i]).passes(item)
    &&& es[j].rewrites_some(item)
    &&& !es[j].passes(item)
    &&& forall|i: int, sh0: S, sh1: S, out: T| #![trigger es[i].passes(out), es[j].rewrites(sh0, item, sh1, out)]
            j < i < es.len() && es[j].rewrites(sh0, item, sh1, out) ==> es[i].passes(out)
}

/// An item has at most one entity that rewrites it on its way.
pub proof fn lemma_rewrite_path_unique<T: Item, S: LayerState, E: EventTarget<T, S>>(es: Seq<E>, item: T, i0: int, j1: int, j2: int)
    requires
        rewrite_path(es, item, i0, j1),
        rewrite_path(es, item, i0, j2),
    ensures
        j1 == j2,
{
    if j1 < j2 {
        assert(es[j1].passes(item));
    } else if j2 < j1 {
        assert(es[j2].passes(item));
    }
}

/// Every entity keeps its kind.
pub open spec fn kinds_kept<E: Entity>(es0: Seq<E>, es1: Seq<E>) -> bool {
    es1.len() == es0.len() && forall|i: int| 0 <= i < es0.len() ==> (#[trigger] es1[i]).kind() == es0[i].kind()
}

/// The allocation after a notification at the entity `i`: the front item
/// moves on if it still stands at that entity.
pub open spec fn moved_on<T: Item>(a: PipeState<T>, i: usize) -> PipeState<T> {
    if a.queue.len() > 0 && a.queue[0].1 == i {
        a.advanced_front()
    } else {
        a
    }
}

/// One notification, from the moment `x` to the moment `y` (each the
/// entities, the state they share and the allocation): the entity the front
/// item stands at is notified and does what its own `notified` says, and the
/// front item then moves on if it still stands at that entity.
pub open spec fn notify_step<T: Item, S: LayerState, E: EventTarget<T, S>>(x: (Seq<E>, S, PipeState<T>),
    y: (Seq<E>, S, PipeState<T>)) -> bool {
    let i = x.2.queue[0].1;
    &&& x.2.queue.len() > 0
    &&& i < x.0.len()
    &&& exists|e: E, mid: PipeState<T>| #[trigger] x.0[i as int].notified(x.1, x.2, e, y.1, mid)
        && y.0 == x.0.update(i as int, e) && y.2 == moved_on(mid, i)
        && (x.0[i as int].passes(x.2.queue[0].0) ==> e == x.0[i as int] && y.1 == x.1
            && (mid == x.2 || mid == x.2.advanced_front()))
}

/// The `k`th moment of `run` steps to the next one.
pub open spec fn step_at<T: Item, S: LayerState, E: EventTarget<T, S>>(run: Seq<(Seq<E>, S, PipeState<T>)>, k: int) -> bool {
    notify_step(run[k], run[k + 1])
}

/// A run of notifications: each moment steps to the next.
pub open spec fn notify_run<T: Item, S: LayerState, E: EventTarget<T, S>>(run: Seq<(Seq<E>, S, PipeState<T>)>) -> bool {
    &&& run.len() > 0
    &&& forall|k: int| 0 <= k < run.len() - 1 ==> #[trigger] step_at(run, k)
}

/// Where an item enters a pipe of `n` entities: an event at the bottom one, a
/// command at the top one.
pub open spec fn entry_index<T: Item>(item: T, n: nat) -> usize {
    if item.spec_dir() == PropagationDirecion::Up {
        (n - 1) as usize
    } else {
        0
    }
}

/// `a` with `item` gone out of the pipe, as it is, on the side its direction
/// points to.
pub open spec fn left_as_is<T: Item>(a: PipeState<T>, item: (T, bool)) -> PipeState<T> {
    match item.0.spec_dir() {
        PropagationDirecion::Up => PipeState { top: a.top.push(item), ..a },
        PropagationDirecion::Down => PipeState { bot: a.bot.push(item), ..a },
        PropagationDirecion::Nothing => a,
    }
}

/// What sending one item does, from the moment `x` to the moment `y`. An
/// item with no direction changes nothing. An item flagged done, or one sent
/// through a pipe with no entity, leaves as it is on its side, and the
/// entities and their state are untouched. Any other item enters at its end
/// of the pipe, and a run of notifications takes the pipe to `y`, where no
/// item is left in the queue, unless the run reached its cap of `u64::MAX`
/// notifications.
pub open spec fn item_run<T: Item, S: LayerState, E: EventTarget<T, S>>(x: (Seq<E>, S, PipeState<T>), item: (T, bool),
    y: (Seq<E>, S, PipeState<T>)) -> bool {
    if item.0.spec_dir() == PropagationDirecion::Nothing {
        y == x
    } else if item.1 || x.0.len() == 0 {
        y == (x.0, x.1, left_as_is(x.2, item))
    } else {
        exists|run: Seq<(Seq<E>, S, PipeState<T>)>| #[trigger] notify_run(run)
            && run[0] == (x.0, x.1, PipeState { queue: seq![(item.0, entry_index(item.0, x.0.len()))], ..x.2 })
            && run.last() == y
            && (y.2.queue.len() == 0 || run.len() == u64::MAX + 1)
    }
}

/// The `k`th item takes the pipe from the `k`th moment to the next.
pub open spec fn item_at<T: Item, S: LayerState, E: EventTarget<T, S>>(items: Seq<(T, bool)>,
    bounds: Seq<(Seq<E>, S, PipeState<T>)>, k: int) -> bool {
    item_run(bounds[k], items[k], bounds[k + 1])
}

/// The items sent one after another: `bounds` holds the moment before each
/// item and the one after the last.
pub open spec fn send_run<T: Item, S: LayerState, E: EventTarget<T, S>>(items: Seq<(T, bool)>,
    bounds: Seq<(Seq<E>, S, PipeState<T>)>) -> bool {
    &&& bounds.len() == items.len() + 1
    &&& forall|k: int| 0 <= k < items.len() ==> #[trigger] item_at(items, bounds, k)
}

/// What sending `items` does to a pipe, from its entities `es0`, their state
/// `sh0` and its allocation `a0` to `es1`, `sh1` and `a1`: the items, one after
/// another, and the notifications they cause, starting from nothing left in
/// the pipe, leave `down` at the bottom and `up` at the top, which are then
/// handed out.
pub open spec fn pipe_sent<T: Item, S: LayerState, E: EventTarget<T, S>>(es0: Seq<E>, sh0: S, a0: PipeState<T>,
    items: Seq<(T, bool)>, es1: Seq<E>, sh1: S, a1: PipeState<T>, down: Seq<(T, bool)>, up: Seq<(T, bool)>) -> bool {
    exists|bounds: Seq<(Seq<E>, S, PipeState<T>)>| #[trigger] send_run(items, bounds)
        && bounds[0] == (es0, sh0, PipeState { top: Seq::<(T, bool)>::empty(), bot: Seq::<(T, bool)>::empty(), ..a0 })
        && bounds.last().0 == es1 && bounds.last().1 == sh1
        && down == bounds.last().2.bot && up == bounds.last().2.top
        && a1 == (PipeState { top: Seq::<(T, bool)>::empty(), bot: Seq::<(T, bool)>::empty(), ..bounds.last().2 })
}

/// The entity an item entering a pipe of `n` entities meets at its `k`th
/// notification: going down, the `k`th from the top; going up, the `k`th
/// from the bottom.
pub open spec fn visit_index<T: Item>(item: T, n: nat, k: int) -> int {
    if item.spec_dir() == PropagationDirecion::Up {
        n - 1 - k
    } else {
        k
    }
}

/// The moment of a pipe whose only queued item stands at the entity `i`.
pub open spec fn standing_at<T: Item>(a: PipeState<T>, item: T, i: int) -> PipeState<T> {
    PipeState { queue: seq![(item, i as usize)], ..a }
}

proof fn lemma_passing_prefix<T: Item, S: LayerState, E: EventTarget<T, S>>(run: Seq<(Seq<E>, S, PipeState<T>)>, item: T, k: int)
    requires
        notify_run(run),
        run[0].0.len() > 0,
        run[0].2.bottom == run[0].0.len(),
        item.spec_dir() != PropagationDirecion::Nothing,
        all_pass(run[0].0, item),
        run[0].2.queue == seq![(item, entry_index(item, run[0].0.len()))],
        0 <= k < run.len(),
        k < run[0].0.len(),
    ensures
        forall|j: int| 0 <= j <= k ==> (#[trigger] run[j]).0 == run[0].0 && run[j].1 == run[0].1
            && run[j].2 == standing_at(run[0].2, item, visit_index(item, run[0].0.len(), j)),
    decreases k,
{
    let n = run[0].0.len();
    if k > 0 {
        lemma_passing_prefix(run, item, k - 1);
        let x = run[k - 1];
        let y = run[k];
        assert(step_at(run, k - 1));
        assert(notify_step(x, y));
        let i = visit_index(item, n, k - 1);
        assert(x.2.queue[0] == (item, i as usize));
        assert(x.0[i].passes(item));
        let (e, mid) = choose|e: E, mid: PipeState<T>| #[trigger] x.0[i].notified(x.1, x.2, e, y.1, mid)
            && y.0 == x.0.update(i, e) && y.2 == moved_on(mid, i as usize)
            && (x.0[i].passes(x.2.queue[0].0) ==> e == x.0[i] && y.1 == x.1
                && (mid == x.2 || mid == x.2.advanced_front()));
        assert(y.0 =~= x.0);
        assert(y.2 == x.2.advanced_front());
        assert(y.2.queue =~= seq![(item, visit_index(item, n, k) as usize)]);
    } else {
        assert(run[0].2 == standing_at(run[0].2, item, visit_index(item, n, 0))) by {
            assert(run[0].2.queue =~= seq![(item, visit_index(item, n, 0) as usize)]);
        }
    }
}

/// An item that every entity lets by visits the entities one after another
/// in its direction, each once: going down from the top one, going up from
/// the bottom one, standing alone in the queue at each. After as many
/// notifications as there are entities it has left the pipe as it is, on
/// its side, and the entities and the state they share are untouched.
pub proof fn lemma_passing_item_visits_in_order<T: Item, S: LayerState, E: EventTarget<T, S>>(
    run: Seq<(Seq<E>, S, PipeState<T>)>, item: T)
    requires
        notify_run(run),
        run[0].0.len() > 0,
        run[0].2.bottom == run[0].0.len(),
        item.spec_dir() != PropagationDirecion::Nothing,
        all_pass(run[0].0, item),
        run[0].2.queue == seq![(item, entry_index(item, run[0].0.len()))],
        run.last().2.queue.len() == 0,
    ensures
        run.len() == run[0].0.len() + 1,
        forall|k: int| 0 <= k < run[0].0.len() ==> (#[trigger] run[k]).0 == run[0].0 && run[k].1 == run[0].1
            && run[k].2 == standing_at(run[0].2, item, visit_index(item, run[0].0.len(), k)),
        run.last() == (run[0].0, run[0].1, run[0].2.let_through(item)),
{
    let n = run[0].0.len();
    if run.len() <= n {
        lemma_passing_prefix(run, item, run.len() - 1);
        assert(run[run.len() - 1].2.queue.len() == 1);
    }
    lemma_passing_prefix(run, item, n - 1);
    let x = run[n - 1];
    let y = run[n as int];
    assert(step_at(run, n - 1));
    let i = visit_index(item, n, n - 1);
    assert(x.0[i].passes(item));
    let (e, mid) = choose|e: E, mid: PipeState<T>| #[trigger] x.0[i].notified(x.1, x.2, e, y.1, mid)
        && y.0 == x.0.update(i, e) && y.2 == moved_on(mid, i as usize)
        && (x.0[i].passes(x.2.queue[0].0) ==> e == x.0[i] && y.1 == x.1
            && (mid == x.2 || mid == x.2.advanced_front()));
    assert(y.0 =~= x.0);
    assert(y.2.queue =~= Seq::<(T, usize)>::empty());
    assert(y.2 == run[0].2.let_through(item));
    if run.len() > n + 1 {
        assert(step_at(run, n as int));
    }
}

/// A run with one more step is a run.
pub proof fn lemma_run_push<T: Item, S: LayerState, E: EventTarget<T, S>>(run: Seq<(Seq<E>, S, PipeState<T>)>,
    y: (Seq<E>, S, PipeState<T>))
    requires
        notify_run(run),
        notify_step(run.last(), y),
    ensures
        notify_run(run.push(y)),
        run.push(y)[0] == run[0],
        run.push(y).last() == y,
{
    let r2 = run.push(y);
    assert forall|k: int| 0 <= k < r2.len() - 1 implies #[trigger] step_at(r2, k) by {
        if k < run.len() - 1 {
            assert(step_at(run, k));
            assert(r2[k] == run[k] && r2[k + 1] == run[k + 1]);
        } else {
            assert(r2[k] == run.last() && r2[k + 1] == y);
        }
    }
}

impl<T: Item, E: Entity> Pipe<T, E> {
    /// Sends the items through the pipe and returns what left it at the
    /// bottom and at the top. An item flagged done, or an item sent through a
    /// pipe with no entity, leaves on its side at once; items with no
    /// direction are dropped. What leaves is exactly what the items, one
    /// after another, and the notifications they cause leave behind, starting
    /// from nothing (`send_run`).
    pub fn send<S: LayerState>(&mut self, shared: &mut S, items: Vec<(T, bool)>) -> (r: (VecDeque<(T, bool)>, VecDeque<(T, bool)>))
        where E: EventTarget<T, S>,
        requires
            old(self).well_formed(),
            old(shared).state_ok(),
        ensures
            final(self).well_formed(),
            final(shared).state_ok(),
            final(self).entities().len() == old(self).entities().len(),
            forall|i: int| 0 <= i < r.0@.len() ==> (#[trigger] r.0@[i]).0.spec_dir() == PropagationDirecion::Down,
            forall|i: int| 0 <= i < r.1@.len() ==> (#[trigger] r.1@[i]).0.spec_dir() == PropagationDirecion::Up,
            (old(self).entities().len() == 0 || forall|i: int| 0 <= i < items@.len() ==> (#[trigger] items@[i]).1)
                ==> r.0@ == routed(items@, PropagationDirecion::Down) && r.1@ == routed(items@, PropagationDirecion::Up),
            (forall|i: int| 0 <= i < items@.len() ==> (#[trigger] items@[i]).1 || all_pass(old(self).entities(), items@[i].0))
                ==> r.0@ == routed(items@, PropagationDirecion::Down) && r.1@ == routed(items@, PropagationDirecion::Up)
                && final(self).entities() == old(self).entities() && *final(shared) == *old(shared),
            exists|bots: Seq<Seq<(T, bool)>>, tops: Seq<Seq<(T, bool)>>| #![trigger concat_all(bots), concat_all(tops)]
                bots.len() == items@.len() && tops.len() == items@.len()
                && r.0@ == concat_all(bots) && r.1@ == concat_all(tops)
                && forall|k: int| 0 <= k < items@.len() ==> slot_ok(#[trigger] items@[k], bots[k], PropagationDirecion::Down)
                    && slot_ok(items@[k], tops[k], PropagationDirecion::Up),
            kinds_kept(old(self).entities(), final(self).entities()),
            items@.len() == 1 && !items@[0].1 ==> forall|j: int| #[trigger] rewrite_path(old(self).entities(), items@[0].0, 0, j)
                ==> final(self).entities() == old(self).entities()
                && exists|out: T| #[trigger] old(self).entities()[j].rewrites(*old(shared), items@[0].0, *final(shared), out)
                    && r.0@ == seq![(out, false)] && r.1@ == Seq::<(T, bool)>::empty(),
            old(self).spec_sent(*old(shared), items@, *final(self), *final(shared), r.0@, r.1@),
    {
        proof {
            lemma_clear_keeps_well_formed(self.shared_alloc@);
        }
        self.shared_alloc.top_items.clear();
        self.shared_alloc.bottom_items.clear();
        assert(self.shared_alloc@ == (PipeState { top: Seq::empty(), bot: Seq::empty(), ..old(self).shared_alloc@ }));
        assert(routed(items@.subrange(0, 0), PropagationDirecion::Up) =~= Seq::empty());
        assert(routed(items@.subrange(0, 0), PropagationDirecion::Down) =~= Seq::empty());
        let ghost all = items@;
        let ghost es = self.queue@;
        let ghost shared0 = *shared;
        let ghost bypass = self.queue@.len() == 0 || forall|i: int| 0 <= i < all.len() ==> (#[trigger] all[i]).1;
        let ghost passing = forall|i: int| 0 <= i < all.len() ==> (#[trigger] all[i]).1 || all_pass(es, all[i].0);
        let ghost mut bots: Seq<Seq<(T, bool)>> = Seq::empty();
        let ghost mut tops: Seq<Seq<(T, bool)>> = Seq::empty();
        let ghost j0 = choose|j: int| rewrite_path(es, all[0].0, 0, j);
        let ghost rw = all.len() == 1 && !all[0].1 && rewrite_path(es, all[0].0, 0, j0);
        let ghost b0 = (self.queue@, *shared, self.shared_alloc@);
        let ghost mut bounds: Seq<(Seq<E>, S, PipeState<T>)> = seq![b0];
        let mut items = items;
        let mut k: usize = 0;
        assert(all.len() == items.len());
        while items.len() > 0
            invariant
                self.well_formed(),
                shared.state_ok(),
                self.queue@.len() == old(self).queue@.len(),
                bypass == (self.queue@.len() == 0 || forall|i: int| 0 <= i < all.len() ==> (#[trigger] all[i]).1),
                k + items@.len() == all.len(),
                all.len() <= usize::MAX,
                items@ == all.subrange(k as int, all.len() as int),
                bypass ==> self.shared_alloc@.bot == routed(all.subrange(0, k as int), PropagationDirecion::Down),
                bypass ==> self.shared_alloc@.top == routed(all.subrange(0, k as int), PropagationDirecion::Up),
                passing == (forall|i: int| 0 <= i < all.len() ==> (#[trigger] all[i]).1 || all_pass(es, all[i].0)),
                passing ==> self.queue@ == es && *shared == shared0,
                passing ==> self.shared_alloc@.bot == routed(all.subrange(0, k as int), PropagationDirecion::Down),
                passing ==> self.shared_alloc@.top == routed(all.subrange(0, k as int), PropagationDirecion::Up),
                bots.len() == k && tops.len() == k,
                self.shared_alloc@.bot == concat_all(bots) && self.shared_alloc@.top == concat_all(tops),
                forall|j: int| 0 <= j < k ==> slot_ok(#[trigger] all[j], bots[j], PropagationDirecion::Down)
                    && slot_ok(all[j], tops[j], PropagationDirecion::Up),
                kinds_kept(es, self.queue@),
                rw == (all.len() == 1 && !all[0].1 && rewrite_path(es, all[0].0, 0, j0)),
                rw && k == 0 ==> *shared == shared0 && self.queue@ == es,
                rw && k == 1 ==> self.queue@ == es
                    && exists|out: T| #[trigger] es[j0].rewrites(shared0, all[0].0, *shared, out)
                        && self.shared_alloc@.bot == seq![(out, false)] && self.shared_alloc@.top == Seq::<(T, bool)>::empty(),
                bounds.len() == k + 1,
                bounds[0] == b0,
                bounds.last() == (self.queue@, *shared, self.shared_alloc@),
                forall|j: int| 0 <= j < k ==> #[trigger] item_at(all, bounds, j),
            decreases items.len(),
        {
            let ghost a_before = self.shared_alloc@;
            let ghost x = (self.queue@, *shared, self.shared_alloc@);
            let item = items.remove(0);
            assert(passing ==> (all[k as int].1 || all_pass(es, all[k as int].0)));
            assert(item == all[k as int]);
            assert(all.subrange(0, k + 1).drop_last() =~= all.subrange(0, k as int));
            let is_done = item.1;
            let ghost it = item;
            match item.0.dir() {
                PropagationDirecion::Up => {
                    if self.queue.len() > 0 && !is_done {
                        let top = self.queue.len() - 1;
                        let pair = (item.0, top);
                        self.propagate(shared, pair);
                        proof {
                            assert(pair == (item.0, entry_index(item.0, x.0.len())));
                            let run = choose|run: Seq<(Seq<E>, S, PipeState<T>)>| #[trigger] notify_run(run)
                                && run[0] == (x.0, x.1, PipeState { queue: seq![pair], ..x.2 })
                                && run.last() == (self.queue@, *shared, self.shared_alloc@)
                                && (self.shared_alloc@.queue.len() == 0 || run.len() == u64::MAX + 1);
                            assert(item_run(x, it, (self.queue@, *shared, self.shared_alloc@)));
                        }
                    } else {
                        proof {
                            lemma_leave_keeps_well_formed(self.shared_alloc@, item);
                        }
                        self.shared_alloc.top_items.push_back(item);
                    }
                },
                PropagationDirecion::Down => {
                    if self.queue.len() > 0 && !is_done {
                        let pair = (item.0, 0usize);
                        self.propagate(shared, pair);
                        proof {
                            assert(pair == (item.0, entry_index(item.0, x.0.len())));
                            let run = choose|run: Seq<(Seq<E>, S, PipeState<T>)>| #[trigger] notify_run(run)
                                && run[0] == (x.0, x.1, PipeState { queue: seq![pair], ..x.2 })
                                && run.last() == (self.queue@, *shared, self.shared_alloc@)
                                && (self.shared_alloc@.queue.len() == 0 || run.len() == u64::MAX + 1);
                            assert(item_run(x, it, (self.queue@, *shared, self.shared_alloc@)));
                            if rw && k == 0 {
                                assert(rewrite_path(es, pair.0, pair.1 as int, j0));
                                let o = choose|o: T| #[trigger] es[j0].rewrites(shared0, all[0].0, *shared, o)
                                    && o.spec_dir() == PropagationDirecion::Down && self.shared_alloc@ == a_before.let_through(o);
                                assert(a_before.bot =~= Seq::<(T, bool)>::empty());
                                assert(a_before.top =~= Seq::<(T, bool)>::empty());
                                assert(self.shared_alloc@.bot =~= seq![(o, false)]);
                            }
                        }
                    } else {
                        proof {
                            lemma_leave_keeps_well_formed(self.shared_alloc@, item);
                        }
                        self.shared_alloc.bottom_items.push_back(item);
                    }
                },
                PropagationDirecion::Nothing => {},
            }
            proof {
                let y = (self.queue@, *shared, self.shared_alloc@);
                if it.0.spec_dir() == PropagationDirecion::Nothing {
                    assert(y == x);
                } else if it.1 || x.0.len() == 0 {
                    assert(y.2 == left_as_is(x.2, it));
                }
                assert(item_run(x, it, y));
                let bounds0 = bounds;
                bounds = bounds.push(y);
                assert forall|j: int| 0 <= j < k + 1 implies #[trigger] item_at(all, bounds, j) by {
                    if j < k {
                        assert(item_at(all, bounds0, j));
                        assert(bounds[j] == bounds0[j] && bounds[j + 1] == bounds0[j + 1]);
                    } else {
                        assert(bounds[j] == x && bounds[j + 1] == y && all[j] == it);
                    }
                }
            }
            proof {
                let a_after = self.shared_alloc@;
                assert(grows(a_before, a_after));
                let sb = a_after.bot.subrange(a_before.bot.len() as int, a_after.bot.len() as int);
                let st = a_after.top.subrange(a_before.top.len() as int, a_after.top.len() as int);
                assert(a_after.bot =~= a_before.bot + sb);
                assert(a_after.top =~= a_before.top + st);
                lemma_routed_single(item, PropagationDirecion::Down);
                lemma_routed_single(item, PropagationDirecion::Up);
                assert(slot_ok(item, sb, PropagationDirecion::Down) && slot_ok(item, st, PropagationDirecion::Up)) by {
                    assert forall|i: int| 0 <= i < sb.len() implies (#[trigger] sb[i]).0.spec_dir() == PropagationDirecion::Down by {
                        assert(sb[i] == a_after.bot[a_before.bot.len() + i]);
                    }
                    assert forall|i: int| 0 <= i < st.len() implies (#[trigger] st[i]).0.spec_dir() == PropagationDirecion::Up by {
                        assert(st[i] == a_after.top[a_before.top.len() + i]);
                    }
                    if item.1 {
                        assert(sb =~= routed(seq![item], PropagationDirecion::Down));
                        assert(st =~= routed(seq![item], PropagationDirecion::Up));
                    }
                    if item.0.spec_dir() == PropagationDirecion::Nothing {
                        assert(sb.len() == 0 && st.len() == 0);
                    }
                }
                let bots0 = bots;
                let tops0 = tops;
                bots = bots.push(sb);
                tops = tops.push(st);
                assert(bots.drop_last() =~= bots0);
                assert(tops.drop_last() =~= tops0);
                assert forall|j: int| 0 <= j < k + 1 implies slot_ok(#[trigger] all[j], bots[j], PropagationDirecion::Down)
                    && slot_ok(all[j], tops[j], PropagationDirecion::Up) by {
                    if j < k {
                        assert(bots[j] == bots0[j] && tops[j] == tops0[j]);
                    } else {
                        assert(all[j] == item);
                    }
                }
            }
            k = k + 1;
            assert(items@ =~= all.subrange(k as int, all.len() as int));
        }
        assert(all.subrange(0, all.len() as int) =~= all);
        proof {
            if all.len() == 1 && !all[0].1 {
                assert forall|j: int| #[trigger] rewrite_path(es, all[0].0, 0, j) implies j == j0 by {
                    lemma_rewrite_path_unique(es, all[0].0, 0, j, j0);
                }
            }
        }
        let ghost before = self.shared_alloc@;
        proof {
            lemma_clear_keeps_well_formed(before);
            assert(send_run(all, bounds));
        }
        let mut bottom_items = VecDeque::new();
        bottom_items.append(&mut self.shared_alloc.bottom_items);
        let mut top_items = VecDeque::new();
        top_items.append(&mut self.shared_alloc.top_items);
        assert(self.shared_alloc@ == (PipeState { top: Seq::empty(), bot: Seq::empty(), ..before }));
        (bottom_items, top_items)
    }

    /// Carries an item, with the index of the entity it enters at, through the
    /// entities. Each entity sees the front item; if the front item still
    /// stands at that entity afterwards, it moves on. The number of
    /// notifications is capped at `u64::MAX`.
    fn propagate<S: LayerState>(&mut self, shared: &mut S, item_indexed: (T, usize))
        where E: EventTarget<T, S>,
        requires
            old(self).well_formed(),
            old(shared).state_ok(),
            item_indexed.1 < old(self).entities().len(),
        ensures
            final(self).well_formed(),
            final(shared).state_ok(),
            final(self).entities().len() == old(self).entities().len(),
            grows(old(self).shared_alloc@, final(self).shared_alloc@),
            all_pass(old(self).entities(), item_indexed.0) && item_indexed.0.spec_dir() != PropagationDirecion::Nothing
                ==> final(self).entities() == old(self).entities() && *final(shared) == *old(shared)
                && final(self).shared_alloc@ == old(self).shared_alloc@.let_through(item_indexed.0),
            kinds_kept(old(self).entities(), final(self).entities()),
            forall|j: int| #[trigger] rewrite_path(old(self).entities(), item_indexed.0, item_indexed.1 as int, j)
                ==> final(self).entities() == old(self).entities()
                && exists|out: T| #[trigger] old(self).entities()[j].rewrites(*old(shared), item_indexed.0, *final(shared), out)
                    && out.spec_dir() == PropagationDirecion::Down
                    && final(self).shared_alloc@ == old(self).shared_alloc@.let_through(out),
            exists|run: Seq<(Seq<E>, S, PipeState<T>)>| #[trigger] notify_run(run)
                && run[0] == (old(self).entities(), *old(shared), PipeState { queue: seq![item_indexed], ..old(self).shared_alloc@ })
                && run.last() == (final(self).entities(), *final(shared), final(self).shared_alloc@)
                && (final(self).shared_alloc@.queue.len() == 0 || run.len() == u64::MAX + 1),
    {
        let ghost start = self.shared_alloc@;
        let ghost es = self.queue@;
        let ghost item = item_indexed.0;
        let ghost passing = all_pass(es, item) && item.spec_dir() != PropagationDirecion::Nothing;
        let ghost shared0 = *shared;
        let ghost j = choose|j: int| rewrite_path(es, item, item_indexed.1 as int, j);
        let ghost rw = rewrite_path(es, item, item_indexed.1 as int, j);
        let ghost mut rewritten = false;
        let ghost mut out: T = item;
        let ghost mut sh1: S = shared0;
        self.shared_alloc.init(item_indexed);
        let ghost mut run: Seq<(Seq<E>, S, PipeState<T>)> = seq![(self.queue@, *shared, self.shared_alloc@)];
        let mut budget: u64 = u64::MAX;
        while self.shared_alloc.items_indexed.len() > 0 && budget > 0
            invariant
                notify_run(run),
                run[0] == (es, shared0, PipeState { queue: seq![item_indexed], ..start }),
                run.last() == (self.queue@, *shared, self.shared_alloc@),
                run.len() == u64::MAX - budget + 1,
                self.well_formed(),
                shared.state_ok(),
                self.queue@.len() == old(self).queue@.len(),
                passing == (all_pass(es, item) && item.spec_dir() != PropagationDirecion::Nothing),
                es.len() == self.shared_alloc@.bottom,
                grows(start, self.shared_alloc@),
                passing ==> self.queue@ == es && *shared == shared0,
                passing ==> self.shared_alloc@ == start.let_through(item) || ({
                    &&& self.shared_alloc@ == (PipeState { queue: seq![(item, self.shared_alloc@.queue[0].1)], ..start })
                    &&& item.spec_dir() == PropagationDirecion::Up ==> self.shared_alloc@.queue[0].1 < budget
                    &&& item.spec_dir() == PropagationDirecion::Down ==> start.bottom - self.shared_alloc@.queue[0].1 <= budget
                }),
                kinds_kept(es, self.queue@),
                rw == rewrite_path(es, item, item_indexed.1 as int, j),
                rw ==> self.queue@ == es,
                !rewritten ==> out == item && sh1 == shared0,
                rw && !rewritten ==> *shared == shared0
                    && self.shared_alloc@ == (PipeState { queue: seq![(item, self.shared_alloc@.queue[0].1)], ..start })
                    && item_indexed.1 <= self.shared_alloc@.queue[0].1 <= j
                    && start.bottom - self.shared_alloc@.queue[0].1 <= budget,
                rw && rewritten ==> es[j].rewrites(shared0, item, sh1, out) && *shared == sh1
                    && out.spec_dir() == PropagationDirecion::Down
                    && (self.shared_alloc@ == start.let_through(out) || (
                        self.shared_alloc@ == (PipeState { queue: seq![(out, self.shared_alloc@.queue[0].1)], ..start })
                        && j < self.shared_alloc@.queue[0].1
                        && start.bottom - self.shared_alloc@.queue[0].1 <= budget)),
            decreases budget,
        {
            budget = budget - 1;
            let index = self.shared_alloc.items_indexed[0].1;
            assert(index == self.shared_alloc@.queue[0].1);
            assert(index < self.queue.len());
            let ghost q0 = self.queue@;
            let ghost a0 = self.shared_alloc@;
            let ghost sh_before = *shared;
            let ghost was_rewritten = rewritten;
            self.queue[index].notify(shared, &mut self.shared_alloc);
            let ghost e_after = self.queue@[index as int];
            let ghost mid = self.shared_alloc@;
            let ghost sh_after = *shared;
            proof {
                assert(q0[index as int].notified(sh_before, a0, e_after, sh_after, mid));
                assert(self.queue@ =~= q0.update(index as int, e_after));
                assert forall|i: int| 0 <= i < es.len() implies (#[trigger] self.queue@[i]).kind() == es[i].kind() by {
                    if i != index {
                        assert(self.queue@[i] == q0[i]);
                    }
                }
                if rw {
                    if !rewritten && index < j {
                        assert(es[index as int].passes(item));
                    }
                    if !rewritten && index == j {
                        let o = choose|o: T| #[trigger] es[j].rewrites(shared0, item, *shared, o)
                            && o.spec_dir() == item.spec_dir() && self.shared_alloc@ == a0.replaced_front(o);
                        out = o;
                        sh1 = *shared;
                        rewritten = true;
                        assert(self.queue@ =~= q0);
                        if self.shared_alloc@.queue.len() == 0 {
                            assert(self.shared_alloc@.queue =~= start.let_through(out).queue);
                        } else {
                            assert(self.shared_alloc@.queue =~= seq![(out, self.shared_alloc@.queue[0].1)]);
                        }
                    }
                    if was_rewritten {
                        assert(es[index as int].passes(out));
                    }
                    if !(!was_rewritten && index == j) {
                        assert(self.queue@ =~= q0);
                        if self.shared_alloc@ != a0 {
                            assert(self.shared_alloc@ == a0.advanced_front());
                            if self.shared_alloc@.queue.len() == 0 {
                                assert(self.shared_alloc@.queue =~= start.let_through(out).queue);
                            } else {
                                assert(self.shared_alloc@.queue =~= seq![(out, self.shared_alloc@.queue[0].1)]);
                            }
                        }
                    }
                }
                if passing {
                    assert(self.queue@ =~= q0);
                    if self.shared_alloc@ != a0 {
                        assert(self.shared_alloc@ == a0.advanced_front());
                        if self.shared_alloc@.queue.len() == 0 {
                            assert(self.shared_alloc@.queue =~= start.let_through(item).queue);
                        } else {
                            assert(self.shared_alloc@.queue =~= seq![(item, self.shared_alloc@.queue[0].1)]);
                        }
                    }
                }
            }
            if self.shared_alloc.items_indexed.len() > 0 {
                if self.shared_alloc.items_indexed[0].1 == index {
                    proof {
                        lemma_advance_keeps_well_formed(self.shared_alloc@);
                    }
                    self.shared_alloc.propagate_current();
                    proof {
                        if passing {
                            if self.shared_alloc@.queue.len() == 0 {
                                assert(self.shared_alloc@.queue =~= start.let_through(item).queue);
                            } else {
                                assert(self.shared_alloc@.queue =~= seq![(item, self.shared_alloc@.queue[0].1)]);
                            }
                        }
                        if rw {
                            if self.shared_alloc@.queue.len() == 0 {
                                assert(self.shared_alloc@.queue =~= start.let_through(out).queue);
                            } else {
                                assert(self.shared_alloc@.queue =~= seq![(if rewritten { out } else { item }, self.shared_alloc@.queue[0].1)]);
                            }
                        }
                    }
                }
            }
            proof {
                let x = (q0, sh_before, a0);
                let y = (self.queue@, *shared, self.shared_alloc@);
                assert(self.shared_alloc@ == moved_on(mid, index));
                assert(x.2.queue[0].1 == index);
                assert(y.0 == x.0.update(index as int, e_after));
                assert(y.1 == sh_after);
                assert(x.0[index as int].notified(x.1, x.2, e_after, y.1, mid));
                assert(x.0[index as int].passes(x.2.queue[0].0) ==> e_after == x.0[index as int] && y.1 == x.1
                    && (mid == x.2 || mid == x.2.advanced_front()));
                assert(notify_step(x, y));
                lemma_run_push(run, y);
                run = run.push(y);
            }
        }
        proof {
            if passing {
                assert(self.shared_alloc@.queue.len() == 0);
            }
            if rw {
                assert(rewritten);
                assert(self.shared_alloc@ == start.let_through(out));
                assert(es[j].rewrites(shared0, item, *shared, out));
            }
            assert forall|jj: int| #[trigger] rewrite_path(es, item, item_indexed.1 as int, jj) implies jj == j by {
                lemma_rewrite_path_unique(es, item, item_indexed.1 as int, jj, j);
            }
        }
    }
}

} // verus!
