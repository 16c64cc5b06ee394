use vstd::prelude::*;
use crate::pipe::{Entity, EventTarget, SharedPipeAlloc, PipeState};
use crate::protocol_stack::TimerOwnerToken;
use crate::protocol_stack::line::LineId;
use crate::protocol_stack::node::{NodeAddress, NodeLayerState};
use crate::protocol_stack::second_layer::{SecondLayerCommand, SecondLayerEvent};
use crate::protocol_stack::layer_pipe_item::{LayerPipeItem, LayerCommand, LayerEvent};

verus! {

/// A second layer command for `lid`, as an item.
pub open spec fn node_command_item(lid: LineId, cmd: SecondLayerCommand) -> LayerPipeItem {
    LayerPipeItem::SomeCommand(lid, LayerCommand::SecondLayer(cmd))
}

/// A second layer event on `lid`, as an item.
pub open spec fn node_event_item(lid: LineId, ev: SecondLayerEvent) -> LayerPipeItem {
    LayerPipeItem::SomeEvent(lid, LayerEvent::SecondLayer(ev))
}

pub fn node_command(lid: LineId, cmd: SecondLayerCommand) -> (r: LayerPipeItem)
    ensures
        r == node_command_item(lid, cmd),
{
    LayerPipeItem::SomeCommand(lid, LayerCommand::SecondLayer(cmd))
}

pub fn node_event(lid: LineId, ev: SecondLayerEvent) -> (r: LayerPipeItem)
    ensures
        r == node_event_item(lid, ev),
{
    LayerPipeItem::SomeEvent(lid, LayerEvent::SecondLayer(ev))
}

/// The commands to check for expired tokens, one for each line.
pub open spec fn check_commands(lines: Seq<LineId>) -> Seq<LayerPipeItem> {
    lines.map_values(|lid: LineId| node_command_item(lid, SecondLayerCommand::CheckExpiredTokens))
}

/// The node entity that, while it runs, has every line checked for expired
/// tokens each time its timer fires, and starts the timer again.
pub struct ExpiredStreamsCleaner {
    node_addr: NodeAddress,
    lines: Vec<LineId>,
    timer_token: Option<TimerOwnerToken>,
}

impl ExpiredStreamsCleaner {
    pub closed spec fn timer(&self) -> Option<TimerOwnerToken> {
        self.timer_token
    }

    pub closed spec fn spec_lines(&self) -> Seq<LineId> {
        self.lines@
    }

    pub fn new(node_addr: NodeAddress, lines: Vec<LineId>) -> (r: Self)
        ensures
            r.timer() is None,
            r.spec_lines() == lines@,
    {
        ExpiredStreamsCleaner { node_addr, lines, timer_token: None }
    }
}

impl Entity for ExpiredStreamsCleaner {
    open spec fn inv(&self) -> bool {
        true
    }
}

/// The items the cleaner acts on: timers firing, and the requests to start
/// and to stop it.
pub open spec fn cleaner_handles(item: LayerPipeItem) -> bool {
    ||| item matches LayerPipeItem::SomeEvent(_, LayerEvent::SecondLayer(SecondLayerEvent::TimerFinished(_)))
    ||| item matches LayerPipeItem::SomeCommand(_, LayerCommand::SecondLayer(SecondLayerCommand::StartExpiredStreamsCleaner(_)))
    ||| item matches LayerPipeItem::SomeCommand(_, LayerCommand::SecondLayer(SecondLayerCommand::StopExpiredStreamsCleaner))
}

/// What the cleaner does with the item at hand.
enum CleanerAction {
    TimerFinished(TimerOwnerToken),
    Start(u128),
    Stop,
    Pass,
}

impl EventTarget<LayerPipeItem, NodeLayerState> for ExpiredStreamsCleaner {
    /// The cleaner lets by what it does not act on, and a timer that is not
    /// its own.
    open spec fn passes(&self, item: LayerPipeItem) -> bool {
        ||| !cleaner_handles(item)
        ||| item matches LayerPipeItem::SomeEvent(_, LayerEvent::SecondLayer(SecondLayerEvent::TimerFinished(t)))
            && !(self.timer() is Some && t.same_spec(self.timer()->0))
    }

    open spec fn notified(&self, shared: NodeLayerState, alloc: PipeState<LayerPipeItem>, next: Self, next_shared: NodeLayerState,
        next_alloc: PipeState<LayerPipeItem>) -> bool {
        &&& (next.spec_lines() == self.spec_lines())
        &&& (alloc.queue[0].0 matches LayerPipeItem::SomeEvent(_, LayerEvent::SecondLayer(SecondLayerEvent::TimerFinished(t)))
                    ==> (self.timer() is Some && t.same_spec(self.timer()->0)
                    ==> next_alloc == alloc
                        .replaced_front(node_command_item(LineId(0), SecondLayerCommand::StartTimer(t)))
                        .extended(check_commands(self.spec_lines()))
                    && next.timer() == self.timer()))
        &&& (alloc.queue[0].0 matches LayerPipeItem::SomeCommand(_, LayerCommand::SecondLayer(SecondLayerCommand::StartExpiredStreamsCleaner(interval)))
                    ==> (self.timer() is None
                    ==> next.timer() is Some && next.timer()->0.spec_delay() == interval
                    && next.timer()->0.spec_id() == shared.ids.peek()
                    && next_alloc == alloc.replaced_front(node_command_item(LineId(0), SecondLayerCommand::StartTimer(next.timer()->0)))))
        &&& ((alloc.queue[0].0 matches LayerPipeItem::SomeCommand(_, LayerCommand::SecondLayer(SecondLayerCommand::StopExpiredStreamsCleaner)))
                    ==> next.timer() is None && next_alloc == alloc)
        &&& (alloc.queue[0].0 matches LayerPipeItem::SomeEvent(_, LayerEvent::SecondLayer(SecondLayerEvent::TimerFinished(t)))
                    ==> !(self.timer() is Some && t.same_spec(self.timer()->0))
                    ==> next == *self && next_alloc == alloc)
        &&& (alloc.queue[0].0 matches LayerPipeItem::SomeCommand(_, LayerCommand::SecondLayer(SecondLayerCommand::StartExpiredStreamsCleaner(_)))
                    ==> self.timer() is Some
                    ==> next == *self && next_shared == shared && next_alloc == alloc)
        &&& (!(alloc.queue[0].0 matches LayerPipeItem::SomeEvent(_, LayerEvent::SecondLayer(SecondLayerEvent::TimerFinished(_))))
                    && !(alloc.queue[0].0 matches LayerPipeItem::SomeCommand(_, LayerCommand::SecondLayer(SecondLayerCommand::StartExpiredStreamsCleaner(_))))
                    && !(alloc.queue[0].0 matches LayerPipeItem::SomeCommand(_, LayerCommand::SecondLayer(SecondLayerCommand::StopExpiredStreamsCleaner)))
                    ==> next == *self && next_shared == shared && next_alloc == alloc)
    }

    /// Its own timer firing is replaced by the command to start it again,
    /// followed by a check for each line. A request to start, when it is not
    /// running, starts a timer of the given interval and is replaced by the
    /// command to start that timer; a request to stop forgets the timer.
    fn notify(&mut self, shared: &mut NodeLayerState, shared_alloc: &mut SharedPipeAlloc<LayerPipeItem>)
    {
        let action = match shared_alloc.current() {
            LayerPipeItem::SomeEvent(_, LayerEvent::SecondLayer(SecondLayerEvent::TimerFinished(t))) => CleanerAction::TimerFinished(*t),
            LayerPipeItem::SomeCommand(_, LayerCommand::SecondLayer(SecondLayerCommand::StartExpiredStreamsCleaner(interval))) => CleanerAction::Start(*interval),
            LayerPipeItem::SomeCommand(_, LayerCommand::SecondLayer(SecondLayerCommand::StopExpiredStreamsCleaner)) => CleanerAction::Stop,
            _ => CleanerAction::Pass,
        };
        match action {
            CleanerAction::TimerFinished(timer_token) => {
                if let Some(own) = self.timer_token {
                    if timer_token.same(&own) {
                        shared_alloc.replace_propagate_current(node_command(LineId(0), SecondLayerCommand::StartTimer(timer_token)));
                        let mut checks: Vec<LayerPipeItem> = Vec::new();
                        let mut i: usize = 0;
                        while i < self.lines.len()
                            invariant
                                i <= self.lines@.len(),
                                checks@ == check_commands(self.lines@.subrange(0, i as int)),
                            decreases self.lines@.len() - i,
                        {
                            checks.push(node_command(self.lines[i], SecondLayerCommand::CheckExpiredTokens));
                            i = i + 1;
                            assert(checks@ =~= check_commands(self.lines@.subrange(0, i as int)));
                        }
                        assert(self.lines@.subrange(0, self.lines@.len() as int) =~= self.lines@);
                        shared_alloc.extend(checks);
                    }
                }
            },
            CleanerAction::Start(interval) => {
                if self.timer_token.is_none() {
                    let timer = TimerOwnerToken::new(&mut shared.ids, interval);
                    self.timer_token = Some(timer);
                    shared_alloc.replace_propagate_current(node_command(LineId(0), SecondLayerCommand::StartTimer(timer)));
                }
            },
            CleanerAction::Stop => {
                self.timer_token = None;
            },
            CleanerAction::Pass => {},
        }
    }
}

} // verus!
