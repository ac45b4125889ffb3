//! A small actor runtime.
//!
//! A behavior reacts to an event with an effect: the actors it creates, the
//! events it sends, and the behavior its actor takes on next. A
//! configuration holds the actors and the queue of events, and dispatches
//! the events one at a time.
use std::collections::VecDeque;
use vstd::prelude::*;

verus! {

/// Why a behavior refuses an event.
pub type Error = &'static str;

/// Why an effect refuses a second behavior for its actor.
pub const UPDATED_TWICE: &'static str =
    "Attempted to update the behavior of an actor more than once";

/// The address of an actor.
#[derive(Debug, Clone, Copy, PartialEq, Eq, Structural)]
pub enum Addr {
    /// The actor with this number in the configuration.
    At(usize),
    /// The actor with this number among those that the effect at hand
    /// creates; the configuration turns it into a number of its own when
    /// the effect is applied.
    New(usize),
}

#[derive(Debug, PartialEq, Eq)]
pub enum Message {
    Empty,
    Nat(usize),
    Int(isize),
    /// The number `int * base ^ exp`.
    Num(isize, isize, isize),
    Sym(&'static str),
    Pair(Box<Message>, Box<Message>),
    Addr(Addr),
}

/// A message on its way to an actor.
#[derive(Debug, PartialEq, Eq)]
pub struct Event {
    pub target: Addr,
    pub message: Message,
}

/// What an actor does with an event.
pub trait Behavior {
    fn react(&self, event: Event) -> Result<Effect, Error>;
}

/// The behaviors that an effect can give to an actor.
#[derive(Debug, PartialEq, Eq)]
pub enum Idiom {
    Sink(Sink),
    Forward(Forward),
    Label(Label),
    Tag(Tag),
}

/// A sink throws away every message it receives.
#[derive(Debug, PartialEq, Eq)]
pub struct Sink;

/// A forwarder passes every message on to its subject.
#[derive(Debug, PartialEq, Eq)]
pub struct Forward {
    pub subject: Addr,
}

/// A label passes every message on to its customer, paired with a fixed label.
#[derive(Debug, PartialEq, Eq)]
pub struct Label {
    pub cust: Addr,
    pub label: Message,
}

/// A tag passes every message on to its customer, paired with the tag's own
/// address.
#[derive(Debug, PartialEq, Eq)]
pub struct Tag {
    pub cust: Addr,
}

/// What a behavior asks for in reaction to an event.
#[derive(Debug, PartialEq, Eq)]
pub struct Effect {
    /// The behaviors of the actors to create; the k-th has the address
    /// `Addr::New(k)` within this effect.
    pub actors: Vec<Idiom>,
    /// The events to send.
    pub events: Vec<Event>,
    /// The behavior that the actor takes on, if it changes.
    pub update: Option<Idiom>,
}

/// An actor: a behavior that can be replaced.
pub struct Actor {
    pub behavior: Box<dyn Behavior>,
}

impl Addr {
    /// The address within a configuration that had `base` actors before the
    /// effect at hand added `count` more.
    pub open spec fn spec_resolve(self, base: usize, count: usize) -> Addr {
        match self {
            Addr::New(k) if k < count => Addr::At((base + k) as usize),
            _ => self,
        }
    }

    /// The address within a configuration that had `base` actors before the
    /// effect at hand added `count` more.
    pub fn resolve(&self, base: usize, count: usize) -> (addr: Addr)
        requires
            base + count <= usize::MAX,
        ensures
            addr == self.spec_resolve(base, count),
    {
        match self {
            Addr::New(k) => {
                if *k < count {
                    Addr::At(base + *k)
                } else {
                    Addr::New(*k)
                }
            },
            Addr::At(n) => Addr::At(*n),
        }
    }
}

impl Message {
    /// The message with every address in it resolved.
    pub open spec fn spec_resolve(self, base: usize, count: usize) -> Message
        decreases self,
    {
        match self {
            Message::Pair(head, tail) => Message::Pair(
                Box::new(head.spec_resolve(base, count)),
                Box::new(tail.spec_resolve(base, count)),
            ),
            Message::Addr(addr) => Message::Addr(addr.spec_resolve(base, count)),
            _ => self,
        }
    }

    /// The message with every address in it resolved.
    pub fn resolve(self, base: usize, count: usize) -> (message: Message)
        requires
            base + count <= usize::MAX,
        ensures
            message == self.spec_resolve(base, count),
        decreases self,
    {
        match self {
            Message::Pair(head, tail) => Message::Pair(
                Box::new((*head).resolve(base, count)),
                Box::new((*tail).resolve(base, count)),
            ),
            Message::Addr(addr) => Message::Addr(addr.resolve(base, count)),
            other => other,
        }
    }
}

impl Clone for Message {
    fn clone(&self) -> (message: Message)
        ensures
            message == *self,
        decreases self,
    {
        match self {
            Message::Empty => Message::Empty,
            Message::Nat(n) => Message::Nat(*n),
            Message::Int(i) => Message::Int(*i),
            Message::Num(value, base, exp) => Message::Num(*value, *base, *exp),
            Message::Sym(name) => Message::Sym(*name),
            Message::Pair(head, tail) => Message::Pair(
                Box::new((**head).clone()),
                Box::new((**tail).clone()),
            ),
            Message::Addr(addr) => Message::Addr(*addr),
        }
    }
}

impl Event {
    pub fn new(target: &Addr, message: Message) -> (event: Event)
        ensures
            event == (Event { target: *target, message }),
    {
        Event { target: *target, message }
    }

    /// The event with every address in it resolved.
    pub open spec fn spec_resolve(self, base: usize, count: usize) -> Event {
        Event {
            target: self.target.spec_resolve(base, count),
            message: self.message.spec_resolve(base, count),
        }
    }

    /// The event with every address in it resolved.
    pub fn resolve(self, base: usize, count: usize) -> (event: Event)
        requires
            base + count <= usize::MAX,
        ensures
            event == self.spec_resolve(base, count),
    {
        Event {
            target: self.target.resolve(base, count),
            message: self.message.resolve(base, count),
        }
    }
}

/// An effect as a value.
pub struct EffectView {
    pub actors: Seq<Idiom>,
    pub events: Seq<Event>,
    pub update: Option<Idiom>,
}

impl View for Effect {
    type V = EffectView;

    open spec fn view(&self) -> EffectView {
        EffectView { actors: self.actors@, events: self.events@, update: self.update }
    }
}

impl EffectView {
    /// The effect that asks for nothing.
    pub open spec fn empty() -> EffectView {
        EffectView { actors: seq![], events: seq![], update: None }
    }

    /// The effect that sends one event.
    pub open spec fn one(event: Event) -> EffectView {
        EffectView { actors: seq![], events: seq![event], update: None }
    }
}

impl Effect {
    pub fn new() -> (effect: Effect)
        ensures
            effect@ == EffectView::empty(),
    {
        Effect { actors: Vec::new(), events: Vec::new(), update: None }
    }

    /// Asks for a new actor with the given behavior, and returns the address
    /// that the actor has within this effect.
    pub fn create(&mut self, behavior: Idiom) -> (addr: Addr)
        ensures
            final(self)@ == (EffectView {
                actors: old(self)@.actors.push(behavior),
                ..old(self)@
            }),
            addr == Addr::New(old(self)@.actors.len() as usize),
    {
        let index: usize = self.actors.len();
        self.actors.push(behavior);
        Addr::New(index)
    }

    /// Asks for `message` to be sent to `target`.
    pub fn send(&mut self, target: &Addr, message: Message)
        ensures
            final(self)@ == (EffectView {
                events: old(self)@.events.push(Event { target: *target, message }),
                ..old(self)@
            }),
    {
        let event = Event::new(target, message);
        self.events.push(event);
    }

    /// Asks for the actor to take on `behavior`. An effect holds at most one
    /// such request: a second one is refused and changes nothing.
    pub fn update(&mut self, behavior: Idiom) -> (done: Result<(), Error>)
        ensures
            done == if old(self)@.update is None {
                Ok::<(), Error>(())
            } else {
                Err::<(), Error>(UPDATED_TWICE)
            },
            final(self)@ == if old(self)@.update is None {
                EffectView { update: Some(behavior), ..old(self)@ }
            } else {
                old(self)@
            },
    {
        match self.update {
            Some(_) => Err(UPDATED_TWICE),
            None => {
                self.update = Some(behavior);
                Ok(())
            },
        }
    }
}

impl Behavior for Sink {
    fn react(&self, event: Event) -> (done: Result<Effect, Error>)
        ensures
            done matches Ok(effect) && effect@ == EffectView::empty(),
    {
        Ok(Effect::new())
    }
}

impl Sink {
    pub fn new() -> Box<dyn Behavior> {
        Box::new(Sink)
    }
}

impl Behavior for Forward {
    fn react(&self, event: Event) -> (done: Result<Effect, Error>)
        ensures
            done matches Ok(effect) && effect@ == EffectView::one(
                Event { target: self.subject, message: event.message },
            ),
    {
        let mut effect = Effect::new();
        effect.send(&self.subject, event.message);
        proof {
            assert(effect@.events =~= seq![Event { target: self.subject, message: event.message }]);
        }
        Ok(effect)
    }
}

impl Forward {
    pub fn new(subject: &Addr) -> Box<dyn Behavior> {
        Box::new(Forward { subject: *subject })
    }
}

impl Behavior for Label {
    fn react(&self, event: Event) -> (done: Result<Effect, Error>)
        ensures
            done matches Ok(effect) && effect@ == EffectView::one(
                Event {
                    target: self.cust,
                    message: Message::Pair(Box::new(self.label), Box::new(event.message)),
                },
            ),
    {
        let mut effect = Effect::new();
        effect.send(&self.cust, Message::Pair(Box::new(self.label.clone()), Box::new(event.message)));
        proof {
            assert(effect@.events =~= seq![
                Event {
                    target: self.cust,
                    message: Message::Pair(Box::new(self.label), Box::new(event.message)),
                },
            ]);
        }
        Ok(effect)
    }
}

impl Label {
    pub fn new(cust: &Addr, label: Message) -> Box<dyn Behavior> {
        Box::new(Label { cust: *cust, label })
    }
}

impl Behavior for Tag {
    fn react(&self, event: Event) -> (done: Result<Effect, Error>)
        ensures
            done matches Ok(effect) && effect@ == EffectView::one(
                Event {
                    target: self.cust,
                    message: Message::Pair(
                        Box::new(Message::Addr(event.target)),
                        Box::new(event.message),
                    ),
                },
            ),
    {
        let mut effect = Effect::new();
        effect.send(
            &self.cust,
            Message::Pair(Box::new(Message::Addr(event.target)), Box::new(event.message)),
        );
        proof {
            assert(effect@.events =~= seq![
                Event {
                    target: self.cust,
                    message: Message::Pair(
                        Box::new(Message::Addr(event.target)),
                        Box::new(event.message),
                    ),
                },
            ]);
        }
        Ok(effect)
    }
}

impl Tag {
    pub fn new(cust: &Addr) -> Box<dyn Behavior> {
        Box::new(Tag { cust: *cust })
    }
}

impl Idiom {
    /// The behavior with every address in it resolved.
    pub open spec fn spec_resolve(self, base: usize, count: usize) -> Idiom {
        match self {
            Idiom::Sink(sink) => Idiom::Sink(sink),
            Idiom::Forward(forward) => Idiom::Forward(
                Forward { subject: forward.subject.spec_resolve(base, count) },
            ),
            Idiom::Label(label) => Idiom::Label(
                Label {
                    cust: label.cust.spec_resolve(base, count),
                    label: label.label.spec_resolve(base, count),
                },
            ),
            Idiom::Tag(tag) => Idiom::Tag(Tag { cust: tag.cust.spec_resolve(base, count) }),
        }
    }

    /// The behavior with every address in it resolved.
    pub fn resolve(self, base: usize, count: usize) -> (idiom: Idiom)
        requires
            base + count <= usize::MAX,
        ensures
            idiom == self.spec_resolve(base, count),
    {
        match self {
            Idiom::Sink(sink) => Idiom::Sink(sink),
            Idiom::Forward(forward) => Idiom::Forward(
                Forward { subject: forward.subject.resolve(base, count) },
            ),
            Idiom::Label(label) => Idiom::Label(
                Label {
                    cust: label.cust.resolve(base, count),
                    label: label.label.resolve(base, count),
                },
            ),
            Idiom::Tag(tag) => Idiom::Tag(Tag { cust: tag.cust.resolve(base, count) }),
        }
    }
}

impl Idiom {
    /// What the behavior asks for in reaction to `event`.
    pub open spec fn spec_react(self, event: Event) -> EffectView {
        match self {
            Idiom::Sink(_) => EffectView::empty(),
            Idiom::Forward(forward) => EffectView::one(
                Event { target: forward.subject, message: event.message },
            ),
            Idiom::Label(label) => EffectView::one(
                Event {
                    target: label.cust,
                    message: Message::Pair(Box::new(label.label), Box::new(event.message)),
                },
            ),
            Idiom::Tag(tag) => EffectView::one(
                Event {
                    target: tag.cust,
                    message: Message::Pair(
                        Box::new(Message::Addr(event.target)),
                        Box::new(event.message),
                    ),
                },
            ),
        }
    }
}

impl Behavior for Idiom {
    fn react(&self, event: Event) -> (done: Result<Effect, Error>)
        ensures
            done matches Ok(effect) && effect@ == self.spec_react(event),
    {
        match self {
            Idiom::Sink(sink) => sink.react(event),
            Idiom::Forward(forward) => forward.react(event),
            Idiom::Label(label) => label.react(event),
            Idiom::Tag(tag) => tag.react(event),
        }
    }
}

impl Actor {
    /// An actor with the given behavior.
    pub fn new(behavior: Box<dyn Behavior>) -> (actor: Actor)
        ensures
            actor == (Actor { behavior }),
    {
        Actor { behavior }
    }

    /// Has the actor's behavior react to `event`.
    pub fn dispatch(&self, event: Event) -> Result<Effect, Error> {
        self.behavior.react(event)
    }

    /// Replaces the actor's behavior.
    pub fn update(&mut self, behavior: Box<dyn Behavior>)
        ensures
            *final(self) == (Actor { behavior }),
    {
        self.behavior = behavior;
    }
}

/// A configuration of actors, and the events that wait to be dispatched.
pub struct Config {
    pub actors: Vec<Actor>,
    pub events: VecDeque<Event>,
}

/// The events of an effect as the queue takes them: last sent, first queued,
/// and every address resolved.
pub open spec fn queued(events: Seq<Event>, base: usize, count: usize) -> Seq<Event> {
    Seq::new(events.len(), |k: int| events[events.len() - 1 - k].spec_resolve(base, count))
}

/// A configuration as a value.
pub struct ConfigView {
    pub actors: Seq<Actor>,
    pub events: Seq<Event>,
}

impl View for Config {
    type V = ConfigView;

    open spec fn view(&self) -> ConfigView {
        ConfigView { actors: self.actors@, events: self.events@ }
    }
}

impl ConfigView {
    /// Whether `after` is `self` with the answer of the actor `target`
    /// applied. With an effect, one actor joins for each behavior that the
    /// effect creates, the events of the effect join the queue last sent
    /// first, and every actor stays as it is but the target that takes on a
    /// new behavior. A refusal changes nothing.
    pub open spec fn applied(self, after: ConfigView, target: int, answer: Result<Effect, Error>) -> bool {
        match answer {
            Ok(effect) => {
                &&& after.actors.len() == self.actors.len() + effect@.actors.len()
                &&& after.events == self.events + queued(
                    effect@.events,
                    self.actors.len() as usize,
                    effect@.actors.len() as usize,
                )
                &&& forall|k: int|
                    0 <= k < self.actors.len() && (k != target || effect@.update is None)
                        ==> after.actors[k] == self.actors[k]
            },
            Err(_) => after == self,
        }
    }

    /// Whether `after` is `self` with its oldest event dispatched: the event
    /// has left the queue, and if its target is an actor of the
    /// configuration, some answer of that actor has been applied. An event
    /// for an address that no actor has is dropped.
    pub open spec fn dispatched(self, after: ConfigView) -> bool {
        let taken = ConfigView { events: self.events.drop_first(), ..self };
        &&& self.events.len() > 0
        &&& match self.events[0].target {
            Addr::At(target) if target < self.actors.len() => exists|answer: Result<Effect, Error>|
                #[trigger] taken.applied(after, target as int, answer),
            _ => after == taken,
        }
    }

    /// Whether `after` is `self` with its `n` oldest events dispatched, one
    /// after the other, each the oldest of its moment.
    pub open spec fn settled(self, after: ConfigView, n: nat) -> bool
        decreases n,
    {
        if n == 0 {
            after == self
        } else {
            exists|next: ConfigView| #[trigger]
                self.dispatched(next) && next.settled(after, (n - 1) as nat)
        }
    }

    /// Dispatching goes on by one event.
    pub proof fn lemma_settled_on(self, middle: ConfigView, after: ConfigView, n: nat)
        requires
            self.settled(middle, n),
            middle.dispatched(after),
        ensures
            self.settled(after, n + 1),
        decreases n,
    {
        if n == 0 {
            assert(after.settled(after, 0));
            assert(self.dispatched(after) && after.settled(after, 0));
        } else {
            let next = choose|next: ConfigView| #[trigger]
                self.dispatched(next) && next.settled(middle, (n - 1) as nat);
            next.lemma_settled_on(middle, after, (n - 1) as nat);
            assert(self.dispatched(next) && next.settled(after, n));
        }
    }

    /// One dispatch takes the oldest event and adds at the back only.
    pub proof fn lemma_dispatched_keeps_the_rest(self, after: ConfigView)
        requires
            self.dispatched(after),
        ensures
            after.actors.len() >= self.actors.len(),
            after.events.len() >= self.events.len() - 1,
            forall|k: int|
                0 <= k < self.events.len() - 1 ==> #[trigger] after.events[k] == self.events[k + 1],
    {
        let rest = self.events.drop_first();
        let taken = ConfigView { events: rest, ..self };
        let known = self.events[0].target matches Addr::At(target) && target < self.actors.len();
        if known {
            let target = self.events[0].target->At_0;
            let answer = choose|answer: Result<Effect, Error>| #[trigger]
                taken.applied(after, target as int, answer);
            assert(taken.applied(after, target as int, answer));
        } else {
            assert(after == taken);
        }
        assert forall|k: int| 0 <= k < self.events.len() - 1 implies #[trigger] after.events[k]
            == self.events[k + 1] by {
            assert(rest[k] == self.events[k + 1]);
        }
    }

    /// Dispatching takes events from the front of the queue only, and adds
    /// at the back only: of the events that waited, those after the first
    /// `n` still wait, first in the queue and in their old order.
    pub proof fn lemma_settled_keeps_the_rest(self, after: ConfigView, n: nat)
        requires
            self.settled(after, n),
            n <= self.events.len(),
        ensures
            after.actors.len() >= self.actors.len(),
            after.events.len() >= self.events.len() - n,
            forall|k: int|
                0 <= k < self.events.len() - n ==> #[trigger] after.events[k] == self.events[n + k],
        decreases n,
    {
        if n > 0 {
            let next = choose|next: ConfigView| #[trigger]
                self.dispatched(next) && next.settled(after, (n - 1) as nat);
            self.lemma_dispatched_keeps_the_rest(next);
            next.lemma_settled_keeps_the_rest(after, (n - 1) as nat);
            assert forall|k: int| 0 <= k < self.events.len() - n implies #[trigger] after.events[k]
                == self.events[n + k] by {
                assert(after.events[k] == next.events[n - 1 + k]);
                assert(next.events[n - 1 + k] == self.events[n + k]);
            }
        }
    }
}

impl Config {
    pub fn new() -> (config: Config)
        ensures
            config.actors@.len() == 0,
            config.events@.len() == 0,
    {
        Config { actors: Vec::new(), events: VecDeque::new() }
    }

    /// The number of actors.
    pub fn population(&self) -> (n: usize)
        ensures
            n == self.actors@.len(),
    {
        self.actors.len()
    }

    /// Applies what the actor `target` answered to an event. With an effect,
    /// the created actors join the configuration in the order of their
    /// creation, the events join the queue in the reverse of the order in
    /// which they were sent, and the actor takes on the new behavior if
    /// there is one. A refusal changes nothing.
    pub fn apply(&mut self, target: usize, answer: Result<Effect, Error>)
        requires
            target < old(self).actors@.len(),
        ensures
            old(self)@.applied(final(self)@, target as int, answer),
    {
        let mut effect = match answer {
            Ok(effect) => effect,
            Err(_) => {
                return ;
            },
        };
        let ghost asked = effect@;
        let base: usize = self.actors.len();
        let count: usize = effect.actors.len();
        // The created actors, in the order of their creation.
        let mut created: Vec<Idiom> = Vec::new();
        while effect.actors.len() > 0
            invariant
                effect.actors@.len() + created@.len() == count,
                count == asked.actors.len(),
                effect.events@ == asked.events,
                effect.update == asked.update,
            decreases effect.actors@.len(),
        {
            let idiom = effect.actors.pop().unwrap();
            created.push(idiom);
        }
        while created.len() > 0
            invariant
                self.actors@.len() + created@.len() == base + count,
                self.events == old(self).events,
                effect.events@ == asked.events,
                effect.update == asked.update,
                base == old(self).actors@.len(),
                base <= self.actors@.len(),
                forall|k: int| 0 <= k < base ==> self.actors@[k] == old(self).actors@[k],
            decreases created@.len(),
        {
            let idiom = created.pop().unwrap();
            let ghost before = self.actors@;
            self.actors.push(Actor::new(Box::new(idiom)));
            proof {
                assert forall|k: int| 0 <= k < base implies self.actors@[k] == old(self).actors@[k] by {
                    assert(self.actors@[k] == before[k]);
                }
            }
        }
        let total: usize = self.actors.len();
        assert(base + count == total);
        while effect.events.len() > 0
            invariant
                base + count <= usize::MAX,
                effect.events@.len() <= asked.events.len(),
                effect.events@ == asked.events.subrange(0, effect.events@.len() as int),
                self.events@ == old(self).events@ + queued(asked.events, base, count).subrange(
                    0,
                    asked.events.len() - effect.events@.len(),
                ),
                self.actors@.len() == base + count,
                base == old(self).actors@.len(),
                effect.update == asked.update,
                forall|k: int| 0 <= k < base ==> self.actors@[k] == old(self).actors@[k],
            decreases effect.events@.len(),
        {
            let ghost left = effect.events@;
            let ghost done = asked.events.len() - left.len();
            let event = effect.events.pop().unwrap();
            self.events.push_back(event.resolve(base, count));
            proof {
                let all = queued(asked.events, base, count);
                assert(event == asked.events[left.len() - 1]);
                assert(all[done] == event.spec_resolve(base, count));
                assert(all.subrange(0, done + 1) =~= all.subrange(0, done).push(all[done]));
                assert(self.events@ =~= old(self).events@ + all.subrange(0, done + 1));
                assert(effect.events@ =~= asked.events.subrange(0, effect.events@.len() as int));
            }
        }
        proof {
            let all = queued(asked.events, base, count);
            assert(all.subrange(0, asked.events.len() as int) =~= all);
        }
        if let Some(idiom) = effect.update {
            let ghost before = self.actors@;
            self.actors[target].update(Box::new(idiom.resolve(base, count)));
            proof {
                assert forall|k: int| 0 <= k < base && k != target implies self.actors@[k] == old(self).actors@[k] by {
                    assert(self.actors@[k] == before[k]);
                }
            }
        }
    }

    /// Dispatches up to `limit` events, oldest first, and returns the number
    /// of events that still wait. An event for an address that no actor of
    /// the configuration has is dropped.
    pub fn dispatch(&mut self, limit: usize) -> (waiting: usize)
        ensures
            waiting == final(self)@.events.len(),
            exists|n: nat|
                n <= limit && #[trigger] old(self)@.settled(final(self)@, n) && (n == limit
                    || final(self)@.events.len() == 0),
    {
        let ghost mut done: nat = 0;
        let mut left = limit;
        while left > 0
            invariant
                done + left == limit,
                old(self)@.settled(self@, done),
            ensures
                done <= limit,
                old(self)@.settled(self@, done),
                done == limit || self@.events.len() == 0,
            decreases left,
        {
            let ghost before = self@;
            match self.events.pop_front() {
                Some(event) => {
                    let ghost taken = self@;
                    assert(taken.events =~= before.events.drop_first());
                    assert(event == before.events[0]);
                    if let Addr::At(target) = event.target {
                        if target < self.actors.len() {
                            let answer = self.actors[target].dispatch(event);
                            self.apply(target, answer);
                            assert(taken.applied(self@, target as int, answer));
                        }
                    }
                    proof {
                        assert(before.dispatched(self@));
                        old(self)@.lemma_settled_on(before, self@, done);
                        done = done + 1;
                    }
                },
                None => {
                    break ;
                },
            }
            left -= 1;
        }
        self.events.len()
    }

    /// Adds an actor with the given behavior, sends it the empty message,
    /// and dispatches one event: the oldest that waits, which is that
    /// message if the queue was empty. Returns the number of events that wait.
    pub fn boot(&mut self, behavior: Box<dyn Behavior>) -> (waiting: usize)
        ensures
            waiting == final(self)@.events.len(),
            (ConfigView {
                actors: old(self)@.actors.push(Actor { behavior }),
                events: old(self)@.events.push(
                    Event { target: Addr::At(old(self)@.actors.len() as usize), message: Message::Empty },
                ),
            }).dispatched(final(self)@),
    {
        let target = Addr::At(self.actors.len());
        let actor = Actor { behavior };
        let ghost made = actor;
        self.actors.push(actor);
        self.events.push_back(Event::new(&target, Message::Empty));
        let ghost booted = self@;
        let waiting = self.dispatch(1);
        proof {
            assert(booted.actors =~= old(self)@.actors.push(made));
            assert(booted.events =~= old(self)@.events.push(
                Event { target: Addr::At(old(self)@.actors.len() as usize), message: Message::Empty },
            ));
            let start = ConfigView {
                actors: old(self)@.actors.push(made),
                events: old(self)@.events.push(
                    Event { target: Addr::At(old(self)@.actors.len() as usize), message: Message::Empty },
                ),
            };
            assert(start.actors =~= booted.actors);
            assert(start.events =~= booted.events);
            assert(start == booted);
            let n = choose|n: nat|
                n <= 1 && #[trigger] booted.settled(self@, n) && (n == 1 || self@.events.len() == 0);
            assert(n == 1);
            let next = choose|next: ConfigView| #[trigger]
                booted.dispatched(next) && next.settled(self@, 0);
            assert(next == self@);
        }
        waiting
    }
}

} // verus!
